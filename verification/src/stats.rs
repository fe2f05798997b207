//! Statistics over a record set: mean age (kept exactly, as a day sum and a
//! count) and median age in whole days, plus the rendered summary line.

use vstd::prelude::*;
use vstd::seq_lib::group_to_multiset_ensures;
use vstd::string::StringExecFns;

use crate::color::bold_pre;
use crate::color::fg_post;
use crate::color::green_pre;
use crate::color::paint_bold;
use crate::color::paint_green;
use crate::color::style_post;
use crate::text::dec_i64;
use crate::text::dec_u64;
use crate::text::dec_usize;
use crate::text::spec_dec_digits;
use crate::text::spec_dec_i64;
use crate::todo::Todo;

verus! {

broadcast use group_to_multiset_ensures;

/// The largest whole-day magnitude an `i64` age in seconds can yield.
pub const DAY_MAX: i64 = 106751991167300;

/// Integer division truncated toward zero, for a positive divisor.
pub open spec fn trunc_div(a: int, d: int) -> int {
    if a >= 0 {
        a / d
    } else {
        -((-a) / d)
    }
}

/// An age in seconds expressed in whole days, truncated toward zero.
pub open spec fn spec_days_of_secs(age: int) -> int {
    trunc_div(age, 86400)
}

/// Whole-day age of one record, as an `i64` value.
pub open spec fn spec_age_days(t: Todo) -> i64 {
    spec_days_of_secs(t.age as int) as i64
}

/// The whole-day ages of a record set, in record order.
pub open spec fn spec_ages(s: Seq<Todo>) -> Seq<i64> {
    Seq::new(s.len(), |i: int| spec_age_days(s[i]))
}

/// Convert an age in seconds to whole days, truncating toward zero.
pub fn days_of_secs(age: i64) -> (r: i64)
    ensures
        r == spec_days_of_secs(age as int),
        -DAY_MAX <= r <= DAY_MAX,
{
    if age >= 0 {
        let q = (age as u64) / 86400;
        proof {
            vstd::arithmetic::div_mod::lemma_div_is_ordered(
                age as int,
                0x7fffffffffffffff,
                86400,
            );
        }
        q as i64
    } else {
        let mag: u64 = ((-(age + 1)) as u64) + 1;
        let q = mag / 86400;
        proof {
            vstd::arithmetic::div_mod::lemma_div_is_ordered(
                mag as int,
                0x8000000000000000,
                86400,
            );
        }
        -(q as i64)
    }
}

/// Integer division truncated toward zero, for divisors of at least two.
pub fn trunc_div_i64(a: i64, d: u64) -> (r: i64)
    requires
        d >= 2,
    ensures
        r == trunc_div(a as int, d as int),
{
    if a >= 0 {
        let q = (a as u64) / d;
        proof {
            vstd::arithmetic::div_mod::lemma_div_is_ordered_by_denominator(a as int, 2, d as int);
            vstd::arithmetic::div_mod::lemma_div_is_ordered(a as int, 0x7fffffffffffffff, 2);
        }
        q as i64
    } else {
        let mag: u64 = ((-(a + 1)) as u64) + 1;
        let q = mag / d;
        proof {
            vstd::arithmetic::div_mod::lemma_div_is_ordered_by_denominator(mag as int, 2, d as int);
            vstd::arithmetic::div_mod::lemma_div_is_ordered(mag as int, 0x8000000000000000, 2);
        }
        -(q as i64)
    }
}

/// The sum of a sequence of values, as a mathematical integer.
pub open spec fn spec_sum_i64(s: Seq<i64>) -> int
    decreases s.len(),
{
    if s.len() == 0 {
        0
    } else {
        spec_sum_i64(s.drop_last()) + s.last()
    }
}

/// The sequence is in nondecreasing order.
pub open spec fn sorted_i64(s: Seq<i64>) -> bool {
    forall|i: int, j: int| 0 <= i < j < s.len() ==> s[i] <= s[j]
}

/// `x` placed into the sorted sequence `s`, from the back, after any equal
/// values already present.
pub open spec fn spec_insert_sorted(x: i64, s: Seq<i64>) -> Seq<i64>
    decreases s.len(),
{
    if s.len() > 0 && s.last() > x {
        spec_insert_sorted(x, s.drop_last()).push(s.last())
    } else {
        s.push(x)
    }
}

/// The stable ascending sort of a sequence: each value inserted in turn into
/// the sorted order of the values before it.
pub open spec fn spec_sort_i64(s: Seq<i64>) -> Seq<i64>
    decreases s.len(),
{
    if s.len() == 0 {
        Seq::empty()
    } else {
        spec_insert_sorted(s.last(), spec_sort_i64(s.drop_last()))
    }
}

/// Inserting into a sorted sequence keeps it sorted, adds exactly the new
/// value to its contents, and grows it by one.
pub proof fn lemma_insert_sorted_props(x: i64, s: Seq<i64>)
    requires
        sorted_i64(s),
    ensures
        sorted_i64(spec_insert_sorted(x, s)),
        spec_insert_sorted(x, s).to_multiset() == s.to_multiset().insert(x),
        spec_insert_sorted(x, s).len() == s.len() + 1,
    decreases s.len(),
{
    if s.len() > 0 && s.last() > x {
        assert(sorted_i64(s.drop_last()));
        lemma_insert_sorted_props(x, s.drop_last());
        let t = spec_insert_sorted(x, s.drop_last());
        assert forall|i: int, j: int|
            0 <= i < j < t.push(s.last()).len() implies t.push(s.last())[i] <= t.push(
            s.last(),
        )[j] by {
            if j < t.len() {
            } else {
                // every element of `t` is an element of `s.drop_last()` or `x`
                let e = t[i];
                assert(t.to_multiset().count(e) > 0);
                assert(s.drop_last().to_multiset().insert(x).count(e) > 0);
                if e == x {
                } else {
                    assert(s.drop_last().to_multiset().count(e) > 0);
                    assert(s.drop_last().contains(e));
                    let k = choose|k: int| 0 <= k < s.drop_last().len() && s.drop_last()[k] == e;
                    assert(s[k] == e);
                    assert(e <= s.last());
                }
            }
        }
        assert(s.drop_last().to_multiset().insert(x).insert(s.last()) =~= s.to_multiset().insert(
            x,
        )) by {
            assert(s.drop_last().push(s.last()) =~= s);
            assert(s.drop_last().push(s.last()).to_multiset() =~= s.drop_last().to_multiset()
                .insert(s.last()));
        }
    } else {
        assert(s.push(x).to_multiset() =~= s.to_multiset().insert(x));
        assert forall|i: int, j: int|
            0 <= i < j < s.push(x).len() implies s.push(x)[i] <= s.push(x)[j] by {
            if j == s.len() {
                assert(s.push(x)[j] == x);
                if s.len() > 0 && i < s.len() - 1 {
                    assert(s[i] <= s.last());
                }
            }
        }
    }
}

/// The sort of a sequence is sorted, has the same contents, and has the same
/// length.
pub proof fn lemma_sort_props(s: Seq<i64>)
    ensures
        sorted_i64(spec_sort_i64(s)),
        spec_sort_i64(s).to_multiset() == s.to_multiset(),
        spec_sort_i64(s).len() == s.len(),
    decreases s.len(),
{
    if s.len() == 0 {
        assert(spec_sort_i64(s).to_multiset() =~= s.to_multiset());
    } else {
        lemma_sort_props(s.drop_last());
        lemma_insert_sorted_props(s.last(), spec_sort_i64(s.drop_last()));
        assert(s.drop_last().push(s.last()) =~= s);
        assert(s.drop_last().push(s.last()).to_multiset() =~= s.drop_last().to_multiset().insert(
            s.last(),
        ));
    }
}

/// Inserting into a sorted run `a + b`, where `a` ends at or below `x` and
/// everything in `b` lies above `x`, places `x` exactly between them.
proof fn lemma_insert_sorted_split(x: i64, a: Seq<i64>, b: Seq<i64>)
    requires
        a.len() > 0 ==> a.last() <= x,
        forall|k: int| 0 <= k < b.len() ==> b[k] > x,
    ensures
        spec_insert_sorted(x, a + b) == a + seq![x] + b,
    decreases b.len(),
{
    if b.len() == 0 {
        assert(a + b =~= a);
        assert(spec_insert_sorted(x, a) == a.push(x));
        assert(a.push(x) =~= a + seq![x] + b);
    } else {
        let s = a + b;
        assert(s.last() == b.last());
        assert(s.last() > x);
        assert(s.drop_last() =~= a + b.drop_last());
        lemma_insert_sorted_split(x, a, b.drop_last());
        assert(spec_insert_sorted(x, s) == (a + seq![x] + b.drop_last()).push(b.last()));
        assert((a + seq![x] + b.drop_last()).push(b.last()) =~= a + seq![x] + b);
    }
}

/// Sort a vector of day ages in place, into the stable ascending order that
/// `spec_sort_i64` describes.
pub fn sort_ages(v: &mut Vec<i64>)
    ensures
        final(v)@ == spec_sort_i64(old(v)@),
{
    let ghost orig = v@;
    let mut i: usize = 0;
    while i < v.len()
        invariant
            i <= v@.len(),
            v@.len() == orig.len(),
            v@.subrange(0, i as int) == spec_sort_i64(orig.subrange(0, i as int)),
            v@.subrange(i as int, v@.len() as int) == orig.subrange(
                i as int,
                orig.len() as int,
            ),
        decreases v@.len() - i,
    {
        let x = v[i];
        proof {
            assert(orig.subrange(i as int, orig.len() as int)[0] == orig[i as int]);
            assert(x == orig[i as int]);
            lemma_sort_props(orig.subrange(0, i as int));
        }
        // find the insertion point in the sorted prefix
        let mut pos: usize = i;
        while pos > 0 && v[pos - 1] > x
            invariant
                pos <= i < v@.len(),
                forall|k: int| pos <= k < i ==> v@[k] > x,
            decreases pos,
        {
            pos = pos - 1;
        }
        let ghost pre = v@;
        let moved = v.remove(i);
        v.insert(pos, moved);
        proof {
            let ii = i as int;
            let pp = pos as int;
            let sorted_pre = pre.subrange(0, ii);
            let a = sorted_pre.subrange(0, pp);
            let b = sorted_pre.subrange(pp, ii);
            assert(moved == x);
            assert(forall|k: int| 0 <= k < b.len() ==> b[k] == pre[pp + k]);
            assert(a.len() > 0 ==> a.last() <= x);
            lemma_insert_sorted_split(x, a, b);
            assert(a + b =~= sorted_pre);
            assert(v@.subrange(0, ii + 1) =~= a + seq![x] + b);
            assert(v@.subrange(0, ii + 1) == spec_insert_sorted(x, sorted_pre));
            assert(orig.subrange(0, ii + 1).drop_last() =~= orig.subrange(0, ii));
            assert(orig.subrange(0, ii + 1).last() == orig[ii]);
            assert(v@.subrange(0, ii + 1) == spec_sort_i64(orig.subrange(0, ii + 1)));
            assert forall|k: int| ii + 1 <= k < v@.len() implies v@[k] == orig[k] by {
                assert(v@ == pre.remove(ii).insert(pp, moved));
                assert(v@[k] == pre.remove(ii)[k - 1]);
                assert(pre.remove(ii)[k - 1] == pre[k]);
                assert(pre.subrange(ii, pre.len() as int)[k - ii] == orig.subrange(
                    ii,
                    orig.len() as int,
                )[k - ii]);
            }
            assert(v@.subrange(ii + 1, v@.len() as int) =~= orig.subrange(
                ii + 1,
                orig.len() as int,
            ));
        }
        i = i + 1;
    }
    proof {
        assert(v@.subrange(0, v@.len() as int) =~= v@);
        assert(orig.subrange(0, orig.len() as int) =~= orig);
    }
}

/// Integer division of a sum of two values by two, truncated toward zero, as
/// the whole-day median of an even-sized set is taken.
pub open spec fn spec_mid_trunc(a: int, b: int) -> int {
    trunc_div(a + b, 2)
}

/// The midpoint of two ordered values, truncated toward zero; always lies
/// between them.
fn mid_trunc(a: i64, b: i64) -> (r: i64)
    requires
        a <= b,
    ensures
        r == spec_mid_trunc(a as int, b as int),
        a <= r <= b,
{
    let sum2: i128 = (a as i128) + (b as i128);
    if sum2 >= 0 {
        let q = ((sum2 as u128) / 2) as i128;
        proof {
            assert(q == (a + b) / 2);
            assert(a <= q <= b);
        }
        q as i64
    } else {
        let mag = (-sum2) as u128;
        let q = (mag / 2) as i128;
        proof {
            assert(q == (-(a + b)) / 2);
            assert(a <= -q <= b);
        }
        (-q) as i64
    }
}

/// The median of a sorted sequence of whole-day ages: zero when empty, the
/// middle element when odd-sized, the truncated mean of the two middle
/// elements when even-sized.
pub open spec fn spec_median_sorted(s: Seq<i64>) -> int {
    if s.len() == 0 {
        0
    } else if s.len() % 2 == 1 {
        s[s.len() as int / 2] as int
    } else {
        spec_mid_trunc(s[s.len() as int / 2 - 1] as int, s[s.len() as int / 2] as int)
    }
}

/// Summary statistics over exactly the records that will be displayed. The
/// mean is kept exactly as a day sum and a record count; the median is in
/// whole days.
pub struct TodoStats {
    pub age_day_sum: i128,
    pub record_count: usize,
    pub median_age_days: i64,
}

impl TodoStats {
    /// The day sum never exceeds what `record_count` ages can reach.
    pub open spec fn wf(self) -> bool {
        -(self.record_count as int) * (DAY_MAX as int) <= self.age_day_sum as int
            <= (self.record_count as int) * (DAY_MAX as int)
    }
}

/// Compute the mean (as an exact day sum and count) and the whole-day median
/// of the records' ages.
pub fn calculate_stats(todos: &Vec<Todo>) -> (r: TodoStats)
    ensures
        r.record_count == todos@.len(),
        r.age_day_sum as int == spec_sum_i64(spec_ages(todos@)),
        r.median_age_days as int == spec_median_sorted(spec_sort_i64(spec_ages(todos@))),
        r.wf(),
{
    let ghost gages = spec_ages(todos@);
    let mut ages: Vec<i64> = Vec::new();
    let mut idx: usize = 0;
    while idx < todos.len()
        invariant
            idx <= todos@.len(),
            ages@.len() == idx,
            forall|k: int| 0 <= k < idx ==> ages@[k] == spec_age_days(todos@[k]),
            forall|k: int| 0 <= k < idx ==> -DAY_MAX <= #[trigger] ages@[k] <= DAY_MAX,
        decreases todos@.len() - idx,
    {
        let d = days_of_secs(todos[idx].age);
        ages.push(d);
        idx = idx + 1;
    }
    proof {
        assert(ages@ =~= gages);
    }

    let mut sum: i128 = 0;
    let mut i: usize = 0;
    while i < ages.len()
        invariant
            i <= ages@.len(),
            ages@ == gages,
            forall|k: int| 0 <= k < ages@.len() ==> -DAY_MAX <= #[trigger] ages@[k] <= DAY_MAX,
            sum as int == spec_sum_i64(ages@.subrange(0, i as int)),
            -(i as int) * (DAY_MAX as int) <= sum as int <= (i as int) * (DAY_MAX as int),
        decreases ages@.len() - i,
    {
        proof {
            assert(ages@.subrange(0, i as int + 1).drop_last() =~= ages@.subrange(0, i as int));
            assert((i as int + 1) * (DAY_MAX as int) == (i as int) * (DAY_MAX as int) + (
            DAY_MAX as int)) by (nonlinear_arith);
            assert((i as int) * (DAY_MAX as int) <= 0xffffffffffffffff * (DAY_MAX as int))
                by (nonlinear_arith)
                requires
                    i as int <= 0xffffffffffffffff,
            ;
        }
        sum = sum + (ages[i] as i128);
        i = i + 1;
    }
    proof {
        assert(ages@.subrange(0, ages@.len() as int) =~= ages@);
        assert((i as int) * (DAY_MAX as int) <= (todos@.len() as int) * (DAY_MAX as int));
    }

    sort_ages(&mut ages);
    proof {
        lemma_sort_props(gages);
    }
    let len = ages.len();
    let median: i64 = if len == 0 {
        0
    } else if len % 2 == 1 {
        ages[len / 2]
    } else {
        let lo = ages[len / 2 - 1];
        let hi = ages[len / 2];
        mid_trunc(lo, hi)
    };
    TodoStats { age_day_sum: sum, record_count: len, median_age_days: median }
}

/// The decimal text of a mean given in tenths of a day: a sign, the whole
/// part, a point, and one digit.
pub open spec fn spec_tenths_text(tenths: int) -> Seq<char> {
    let mag = if tenths >= 0 {
        tenths
    } else {
        -tenths
    };
    let sign: Seq<char> = if tenths < 0 {
        seq!['-']
    } else {
        Seq::empty()
    };
    sign + spec_dec_digits((mag / 10) as nat) + seq!['.'] + spec_dec_digits((mag % 10) as nat)
}

/// The mean age in tenths of a day, rounded half away from zero; zero when
/// there are no records.
pub open spec fn spec_mean_tenths(sum: int, count: int) -> int {
    if count == 0 {
        0
    } else if sum >= 0 {
        (20 * sum + count) / (2 * count)
    } else {
        -((20 * (-sum) + count) / (2 * count))
    }
}

/// A value highlighted for the summary line: green and bold.
pub open spec fn spec_format_value(s: Seq<char>) -> Seq<char> {
    bold_pre() + green_pre() + s + fg_post() + style_post()
}

/// Highlight one value for the summary line.
pub fn format_value(value: &str) -> (r: String)
    ensures
        r@ == spec_format_value(value@),
{
    let g = paint_green(value);
    let b = paint_bold(g.as_str());
    proof {
        assert(b@ =~= spec_format_value(value@));
    }
    b
}

/// The mean in tenths of a day, rounded half away from zero.
pub fn mean_tenths(sum: i128, count: usize) -> (r: i64)
    requires
        -(count as int) * (DAY_MAX as int) <= sum as int <= (count as int) * (DAY_MAX as int),
    ensures
        r == spec_mean_tenths(sum as int, count as int),
{
    if count == 0 {
        return 0;
    }
    let mag: u128 = if sum >= 0 {
        sum as u128
    } else {
        (-sum) as u128
    };
    proof {
        assert((count as int) * (DAY_MAX as int) <= 0xffffffffffffffff * (DAY_MAX as int))
            by (nonlinear_arith)
            requires
                count as int <= 0xffffffffffffffff,
        ;
    }
    let num: u128 = 20 * mag + (count as u128);
    let den: u128 = 2 * (count as u128);
    let q: u128 = num / den;
    proof {
        vstd::arithmetic::div_mod::lemma_fundamental_div_mod(num as int, den as int);
        assert((num as int) <= (count as int) * (20 * (DAY_MAX as int) + 1)) by (nonlinear_arith)
            requires
                mag as int <= (count as int) * (DAY_MAX as int),
                num as int == 20 * (mag as int) + count as int,
                count as int >= 1,
        ;
        assert(2 * (q as int) <= 20 * (DAY_MAX as int) + 1) by (nonlinear_arith)
            requires
                (den as int) * (q as int) <= (num as int),
                (num as int) <= (count as int) * (20 * (DAY_MAX as int) + 1),
                den as int == 2 * (count as int),
                count as int >= 1,
        ;
    }
    if sum >= 0 {
        q as i64
    } else {
        -(q as i64)
    }
}

/// Render a tenths-of-a-day value as its decimal text with one digit after
/// the point.
pub fn tenths_text(tenths: i64) -> (r: String)
    ensures
        r@ == spec_tenths_text(tenths as int),
{
    proof {
        reveal_strlit(".");
        reveal_strlit("-");
    }
    let mag: u64 = if tenths >= 0 {
        tenths as u64
    } else {
        ((-(tenths + 1)) as u64) + 1
    };
    let mut out: String = if tenths < 0 {
        "-".to_owned()
    } else {
        String::new()
    };
    proof {
        if tenths < 0 {
            assert(out@ =~= seq!['-']);
        }
    }
    let whole = dec_u64(mag / 10);
    out.append(whole.as_str());
    out.append(".");
    let frac = dec_u64(mag % 10);
    out.append(frac.as_str());
    proof {
        assert("."@ =~= seq!['.']);
        assert(out@ =~= spec_tenths_text(tenths as int));
    }
    out
}

/// The full summary line: the displayed and total counts, the mean age to one
/// decimal of a day, and the median age, each highlighted, ending in a line
/// break.
pub open spec fn spec_stats_line(s: TodoStats, f: int, t: int) -> Seq<char> {
    "Todos: "@ + spec_format_value(
        spec_dec_digits(f as nat) + "/"@ + spec_dec_digits(t as nat),
    ) + "  ||  Mean: "@ + spec_format_value(
        spec_tenths_text(spec_mean_tenths(s.age_day_sum as int, s.record_count as int))
            + " days"@,
    ) + "  ||  Median: "@ + spec_format_value(
        spec_dec_i64(s.median_age_days as int) + " days"@,
    ) + "\n"@
}

/// Render the statistics summary line.
pub fn format_stats(stats: &TodoStats, filtered_count: usize, total_count: usize) -> (r: String)
    requires
        stats.wf(),
    ensures
        r@ == spec_stats_line(*stats, filtered_count as int, total_count as int),
{
    let mut cs = dec_usize(filtered_count);
    cs.append("/");
    let ts = dec_usize(total_count);
    cs.append(ts.as_str());
    let count_v = format_value(cs.as_str());

    let tenths = mean_tenths(stats.age_day_sum, stats.record_count);
    let mut ms = tenths_text(tenths);
    ms.append(" days");
    let mean_v = format_value(ms.as_str());

    let mut ds = dec_i64(stats.median_age_days);
    ds.append(" days");
    let med_v = format_value(ds.as_str());

    let mut out: String = "Todos: ".to_owned();
    out.append(count_v.as_str());
    out.append("  ||  Mean: ");
    out.append(mean_v.as_str());
    out.append("  ||  Median: ");
    out.append(med_v.as_str());
    out.append("\n");
    proof {
        assert(out@ =~= spec_stats_line(*stats, filtered_count as int, total_count as int));
    }
    out
}

} // verus!
