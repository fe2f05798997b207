//! The orchestration logic around a resolved record set: keeping the
//! successes of a batch, the stable ascending sort by commit timestamp, the
//! display limit, and the layout parameters every rendered line shares.

use vstd::prelude::*;
use vstd::seq_lib::group_to_multiset_ensures;
use vstd::string::StrSliceExecFns;

use crate::git::TodoError;
use crate::todo::spec_filename_line;
use crate::todo::Todo;

verus! {

broadcast use group_to_multiset_ensures;

/// The records of the outcomes that succeeded, in batch order.
pub open spec fn spec_successes(s: Seq<Result<Todo, TodoError>>) -> Seq<Todo>
    decreases s.len(),
{
    if s.len() == 0 {
        Seq::empty()
    } else {
        match s.first() {
            Ok(t) => seq![t] + spec_successes(s.drop_first()),
            Err(_) => spec_successes(s.drop_first()),
        }
    }
}

/// Keep the records of the outcomes that succeeded, in batch order; failures
/// are dropped and never abort the batch.
pub fn populate_metadata(results: Vec<Result<Todo, TodoError>>) -> (r: Vec<Todo>)
    ensures
        r@ == spec_successes(results@),
{
    let ghost orig = results@;
    let mut rest = results;
    let mut out: Vec<Todo> = Vec::new();
    proof {
        assert(out@ + spec_successes(rest@) =~= spec_successes(orig));
    }
    while rest.len() > 0
        invariant
            out@ + spec_successes(rest@) == spec_successes(orig),
        decreases rest@.len(),
    {
        let ghost before = rest@;
        let item = rest.remove(0);
        proof {
            assert(rest@ =~= before.drop_first());
        }
        match item {
            Ok(t) => {
                out.push(t);
                proof {
                    assert(spec_successes(before) =~= seq![t] + spec_successes(rest@));
                    assert(out@ + spec_successes(rest@) =~= spec_successes(orig));
                }
            },
            Err(_) => {
                proof {
                    assert(spec_successes(before) == spec_successes(rest@));
                }
            },
        }
    }
    proof {
        assert(spec_successes(rest@) =~= Seq::<Todo>::empty());
        assert(out@ =~= spec_successes(orig));
    }
    out
}

/// The records are in nondecreasing order of commit timestamp.
pub open spec fn sorted_by_ts(s: Seq<Todo>) -> bool {
    forall|i: int, j: int| 0 <= i < j < s.len() ==> s[i].timestamp <= s[j].timestamp
}

/// `x` placed into the sorted run `s`, from the back, after any records with
/// the same timestamp: the placement that keeps a stable order.
pub open spec fn spec_insert_by_ts(x: Todo, s: Seq<Todo>) -> Seq<Todo>
    decreases s.len(),
{
    if s.len() > 0 && s.last().timestamp > x.timestamp {
        spec_insert_by_ts(x, s.drop_last()).push(s.last())
    } else {
        s.push(x)
    }
}

/// The stable ascending sort of a record set by commit timestamp: each record
/// inserted in turn into the sorted order of the records before it, ties kept
/// in their original order.
pub open spec fn spec_sort_by_ts(s: Seq<Todo>) -> Seq<Todo>
    decreases s.len(),
{
    if s.len() == 0 {
        Seq::empty()
    } else {
        spec_insert_by_ts(s.last(), spec_sort_by_ts(s.drop_last()))
    }
}

/// Inserting into a timestamp-sorted run keeps it sorted, adds exactly the
/// new record to its contents, and grows it by one.
pub proof fn lemma_insert_by_ts_props(x: Todo, s: Seq<Todo>)
    requires
        sorted_by_ts(s),
    ensures
        sorted_by_ts(spec_insert_by_ts(x, s)),
        spec_insert_by_ts(x, s).to_multiset() == s.to_multiset().insert(x),
        spec_insert_by_ts(x, s).len() == s.len() + 1,
    decreases s.len(),
{
    if s.len() > 0 && s.last().timestamp > x.timestamp {
        assert(sorted_by_ts(s.drop_last()));
        lemma_insert_by_ts_props(x, s.drop_last());
        let t = spec_insert_by_ts(x, s.drop_last());
        assert forall|i: int, j: int|
            0 <= i < j < t.push(s.last()).len() implies t.push(s.last())[i].timestamp <= t.push(
            s.last(),
        )[j].timestamp by {
            if j < t.len() {
            } else {
                let e = t[i];
                assert(t.to_multiset().count(e) > 0);
                assert(s.drop_last().to_multiset().insert(x).count(e) > 0);
                if e == x {
                } else {
                    assert(s.drop_last().to_multiset().count(e) > 0);
                    assert(s.drop_last().contains(e));
                    let k = choose|k: int| 0 <= k < s.drop_last().len() && s.drop_last()[k] == e;
                    assert(s[k] == e);
                    assert(e.timestamp <= s.last().timestamp);
                }
            }
        }
        assert(s.drop_last().to_multiset().insert(x).insert(s.last()) =~= s.to_multiset().insert(
            x,
        )) by {
            assert(s.drop_last().push(s.last()) =~= s);
            assert(s.drop_last().push(s.last()).to_multiset() =~= s.drop_last().to_multiset()
                .insert(s.last()));
        }
    } else {
        assert(s.push(x).to_multiset() =~= s.to_multiset().insert(x));
        assert forall|i: int, j: int|
            0 <= i < j < s.push(x).len() implies s.push(x)[i].timestamp <= s.push(
            x,
        )[j].timestamp by {
            if j == s.len() {
                assert(s.push(x)[j] == x);
                if s.len() > 0 && i < s.len() - 1 {
                    assert(s[i].timestamp <= s.last().timestamp);
                }
            }
        }
    }
}

/// The sort of a record set is sorted by timestamp, has the same contents,
/// and has the same length: every pair of rendered records, adjacent ones
/// included, is in timestamp order.
pub proof fn lemma_sort_by_ts_props(s: Seq<Todo>)
    ensures
        sorted_by_ts(spec_sort_by_ts(s)),
        spec_sort_by_ts(s).to_multiset() == s.to_multiset(),
        spec_sort_by_ts(s).len() == s.len(),
    decreases s.len(),
{
    if s.len() == 0 {
        assert(spec_sort_by_ts(s).to_multiset() =~= s.to_multiset());
    } else {
        lemma_sort_by_ts_props(s.drop_last());
        lemma_insert_by_ts_props(s.last(), spec_sort_by_ts(s.drop_last()));
        assert(s.drop_last().push(s.last()) =~= s);
        assert(s.drop_last().push(s.last()).to_multiset() =~= s.drop_last().to_multiset().insert(
            s.last(),
        ));
    }
}

proof fn lemma_insert_by_ts_split(x: Todo, a: Seq<Todo>, b: Seq<Todo>)
    requires
        a.len() > 0 ==> a.last().timestamp <= x.timestamp,
        forall|k: int| 0 <= k < b.len() ==> b[k].timestamp > x.timestamp,
    ensures
        spec_insert_by_ts(x, a + b) == a + seq![x] + b,
    decreases b.len(),
{
    if b.len() == 0 {
        assert(a + b =~= a);
        assert(spec_insert_by_ts(x, a) == a.push(x));
        assert(a.push(x) =~= a + seq![x] + b);
    } else {
        let s = a + b;
        assert(s.last() == b.last());
        assert(s.drop_last() =~= a + b.drop_last());
        lemma_insert_by_ts_split(x, a, b.drop_last());
        assert(spec_insert_by_ts(x, s) == (a + seq![x] + b.drop_last()).push(b.last()));
        assert((a + seq![x] + b.drop_last()).push(b.last()) =~= a + seq![x] + b);
    }
}

/// Sort the records in place, ascending by commit timestamp; records with
/// equal timestamps keep their original order.
pub fn sort_todos(v: &mut Vec<Todo>)
    ensures
        final(v)@ == spec_sort_by_ts(old(v)@),
        sorted_by_ts(final(v)@),
        final(v)@.to_multiset() == old(v)@.to_multiset(),
        final(v)@.len() == old(v)@.len(),
{
    let ghost orig = v@;
    let mut i: usize = 0;
    while i < v.len()
        invariant
            i <= v@.len(),
            v@.len() == orig.len(),
            v@.subrange(0, i as int) == spec_sort_by_ts(orig.subrange(0, i as int)),
            v@.subrange(i as int, v@.len() as int) == orig.subrange(
                i as int,
                orig.len() as int,
            ),
        decreases v@.len() - i,
    {
        let x_ts = v[i].timestamp;
        proof {
            assert(orig.subrange(i as int, orig.len() as int)[0] == orig[i as int]);
            assert(v@[i as int] == orig[i as int]);
        }
        let mut pos: usize = i;
        while pos > 0 && v[pos - 1].timestamp > x_ts
            invariant
                pos <= i < v@.len(),
                forall|k: int| pos <= k < i ==> v@[k].timestamp > x_ts,
            decreases pos,
        {
            pos = pos - 1;
        }
        let ghost pre = v@;
        let moved = v.remove(i);
        v.insert(pos, moved);
        proof {
            let ii = i as int;
            let pp = pos as int;
            let sorted_pre = pre.subrange(0, ii);
            let a = sorted_pre.subrange(0, pp);
            let b = sorted_pre.subrange(pp, ii);
            assert(moved == pre[ii]);
            assert(moved.timestamp == x_ts);
            assert(forall|k: int| 0 <= k < b.len() ==> b[k] == pre[pp + k]);
            assert(a.len() > 0 ==> a.last().timestamp <= x_ts);
            lemma_insert_by_ts_split(moved, a, b);
            assert(a + b =~= sorted_pre);
            assert(v@.subrange(0, ii + 1) =~= a + seq![moved] + b);
            assert(v@.subrange(0, ii + 1) == spec_insert_by_ts(moved, sorted_pre));
            assert(orig.subrange(0, ii + 1).drop_last() =~= orig.subrange(0, ii));
            assert(orig.subrange(0, ii + 1).last() == orig[ii]);
            assert(v@.subrange(0, ii + 1) == spec_sort_by_ts(orig.subrange(0, ii + 1)));
            assert forall|k: int| ii + 1 <= k < v@.len() implies v@[k] == orig[k] by {
                assert(v@ == pre.remove(ii).insert(pp, moved));
                assert(v@[k] == pre.remove(ii)[k - 1]);
                assert(pre.remove(ii)[k - 1] == pre[k]);
                assert(pre.subrange(ii, pre.len() as int)[k - ii] == orig.subrange(
                    ii,
                    orig.len() as int,
                )[k - ii]);
            }
            assert(v@.subrange(ii + 1, v@.len() as int) =~= orig.subrange(
                ii + 1,
                orig.len() as int,
            ));
        }
        i = i + 1;
    }
    proof {
        assert(v@.subrange(0, v@.len() as int) =~= v@);
        assert(orig.subrange(0, orig.len() as int) =~= orig);
        lemma_sort_by_ts_props(orig);
    }
}

/// Keep the first `limit` records when a limit is set: the oldest records of
/// a sorted set, never more than the limit; an unset limit keeps everything.
/// A sorted set stays sorted, so every pair of rendered records keeps its
/// timestamp order.
pub fn apply_limit(todos: Vec<Todo>, limit: Option<usize>) -> (r: Vec<Todo>)
    ensures
        match limit {
            Some(l) => r@ == todos@.subrange(
                0,
                if l <= todos@.len() {
                    l as int
                } else {
                    todos@.len() as int
                },
            ) && r@.len() <= l,
            None => r@ == todos@,
        },
        sorted_by_ts(todos@) ==> sorted_by_ts(r@),
{
    match limit {
        Some(l) => {
            let mut t = todos;
            let ghost before = t@;
            t.truncate(l);
            proof {
                if l > before.len() {
                    assert(before.subrange(0, before.len() as int) =~= before);
                }
            }
            t
        },
        None => todos,
    }
}

/// The widest author name of a record set, in characters.
pub open spec fn spec_max_author(s: Seq<Todo>) -> int
    decreases s.len(),
{
    if s.len() == 0 {
        0
    } else if s.len() == 1 {
        s[0].author@.len() as int
    } else if spec_max_author(s.drop_last()) >= s.last().author@.len() {
        spec_max_author(s.drop_last())
    } else {
        s.last().author@.len() as int
    }
}

/// The widest `name:line` reference of a record set, in characters.
pub open spec fn spec_max_fileref(s: Seq<Todo>) -> int
    decreases s.len(),
{
    if s.len() == 0 {
        0
    } else if s.len() == 1 {
        spec_filename_line(s[0]).len() as int
    } else if spec_max_fileref(s.drop_last()) >= spec_filename_line(s.last()).len() {
        spec_max_fileref(s.drop_last())
    } else {
        spec_filename_line(s.last()).len() as int
    }
}

/// The name column width: the widest author name plus one, or ten for an
/// empty set.
pub open spec fn spec_name_width(s: Seq<Todo>) -> int {
    if s.len() == 0 {
        10
    } else {
        spec_max_author(s) + 1
    }
}

/// The path column width: the widest `name:line` reference (twenty for an
/// empty set), floored at fifteen.
pub open spec fn spec_fileref_width(s: Seq<Todo>) -> int {
    let base = if s.len() == 0 {
        20
    } else {
        spec_max_fileref(s)
    };
    if base >= 15 {
        base
    } else {
        15
    }
}

/// The column widths and total width every rendered line shares.
pub struct Layout {
    pub max_name_length: usize,
    pub max_filename_length: usize,
    pub terminal_width: usize,
}

impl Layout {
    /// The total width always leaves room for both columns and the thirty
    /// reserved characters.
    pub open spec fn wf(self) -> bool {
        self.terminal_width >= self.max_name_length + self.max_filename_length + 30
    }
}

/// Compute the layout once for a record set and a display surface width: the
/// name column fits the widest author, the path column fits the widest
/// `name:line` reference (at least fifteen), and the total width is the
/// larger of the display surface and the smallest width at which the columns
/// never collide. Yields nothing only when the widths do not fit the machine.
pub fn compute_layout(todos: &Vec<Todo>, display_width: usize) -> (r: Option<Layout>)
    ensures
        r matches Some(l) ==> {
            &&& l.max_name_length as int == spec_name_width(todos@)
            &&& l.max_filename_length as int == spec_fileref_width(todos@)
            &&& l.terminal_width as int == if display_width as int >= spec_name_width(todos@)
                + spec_fileref_width(todos@) + 30 {
                display_width as int
            } else {
                spec_name_width(todos@) + spec_fileref_width(todos@) + 30
            }
            &&& l.wf()
        },
        r is None <==> spec_name_width(todos@) + spec_fileref_width(todos@) + 30 > usize::MAX,
{
    let n = todos.len();
    let mut name_base: usize = 0;
    let mut file_base: usize = 0;
    let mut i: usize = 0;
    while i < n
        invariant
            i <= n,
            n == todos@.len(),
            i > 0 ==> name_base as int == spec_max_author(todos@.subrange(0, i as int)),
            i > 0 ==> file_base as int == spec_max_fileref(todos@.subrange(0, i as int)),
            i == 0 ==> name_base == 0 && file_base == 0,
        decreases n - i,
    {
        let t = &todos[i];
        let a_len = t.author.as_str().unicode_len();
        let fl = t.filename_with_line_number();
        let f_len = fl.as_str().unicode_len();
        proof {
            let pre = todos@.subrange(0, i as int);
            let cur = todos@.subrange(0, i as int + 1);
            assert(cur.drop_last() =~= pre);
            assert(cur.last() == todos@[i as int]);
        }
        if a_len > name_base {
            name_base = a_len;
        }
        if f_len > file_base {
            file_base = f_len;
        }
        i = i + 1;
    }
    proof {
        if n > 0 {
            assert(todos@.subrange(0, n as int) =~= todos@);
        }
    }
    let name_w: usize = if n == 0 {
        10
    } else {
        if name_base == usize::MAX {
            return None;
        }
        name_base + 1
    };
    let file_w: usize = if n == 0 {
        20
    } else {
        if file_base >= 15 {
            file_base
        } else {
            15
        }
    };
    let min_w = match name_w.checked_add(file_w) {
        Some(s) => match s.checked_add(30) {
            Some(m) => m,
            None => {
                return None;
            },
        },
        None => {
            return None;
        },
    };
    let terminal_width = if display_width >= min_w {
        display_width
    } else {
        min_w
    };
    Some(Layout { max_name_length: name_w, max_filename_length: file_w, terminal_width })
}

} // verus!
