//! The median engine: a pure function from a batch of values to their
//! statistical median, and a vectorized variant that takes the per-position
//! median across a batch of multi-value submissions.

use vstd::prelude::*;

verus! {

use vstd::relations::total_ordering;
use vstd::seq_lib::group_to_multiset_ensures;
use vstd::relations::sorted_by;
use vstd::seq_lib::lemma_sorted_unique;
use crate::aggregator_interface::Submission;

/// The order by which submission values are ranked.
pub open spec fn value_leq() -> spec_fn(u64, u64) -> bool {
    |a: u64, b: u64| a <= b
}

/// The input sequence rearranged into ascending order.
pub open spec fn sorted_of(s: Seq<u64>) -> Seq<u64> {
    s.sort_by(value_leq())
}

/// The statistical median: the middle element of the sorted sequence for an
/// odd count, the floored mean of the two middle elements for an even count,
/// and no value at all for an empty sequence.
pub open spec fn median_of(s: Seq<u64>) -> Option<u64> {
    if s.len() == 0 {
        None
    } else {
        let t = sorted_of(s);
        let mid = s.len() as int / 2;
        if s.len() % 2 == 1 {
            Some(t[mid])
        } else {
            Some((((t[mid - 1] as int) + (t[mid] as int)) / 2) as u64)
        }
    }
}

/// Position `i` of every row, read as one series.
pub open spec fn column_values(rows: Seq<Seq<u64>>, i: int) -> Seq<u64> {
    Seq::new(rows.len(), |j: int| rows[j][i])
}

proof fn lemma_value_leq_total()
    ensures
        total_ordering(value_leq()),
{
}

/// Rearranging a sequence never changes its median: the median only depends
/// on the multiset of values.
pub proof fn lemma_median_order_independent(s1: Seq<u64>, s2: Seq<u64>)
    requires
        s1.to_multiset() == s2.to_multiset(),
    ensures
        median_of(s1) == median_of(s2),
{
    broadcast use group_to_multiset_ensures;

    s1.lemma_sort_by_ensures(value_leq());
    s2.lemma_sort_by_ensures(value_leq());
    lemma_value_leq_total();
    assert(s1.len() == s1.to_multiset().len());
    lemma_sorted_unique(sorted_of(s1), sorted_of(s2), value_leq());
}

/// Swapping two elements of a sequence leaves its multiset unchanged.
proof fn lemma_swap_preserves_multiset(s: Seq<u64>, i: int, j: int)
    requires
        0 <= i < s.len(),
        0 <= j < s.len(),
    ensures
        s.update(i, s[j]).update(j, s[i]).to_multiset() == s.to_multiset(),
{
    broadcast use vstd::seq_lib::to_multiset_update;
    broadcast use vstd::multiset::group_multiset_axioms;
    broadcast use group_to_multiset_ensures;

    if i == j {
        assert(s.update(i, s[j]).update(j, s[i]) =~= s);
    } else {
        let ms = s.to_multiset();
        let a = s[i];
        let b = s[j];
        assert(s.contains(a) && s.contains(b));
        assert(ms.count(a) > 0 && ms.count(b) > 0);
        let s1 = s.update(i, b);
        assert(s1[j] == b);
        assert(s1.update(j, a).to_multiset() == ms.insert(b).remove(a).insert(a).remove(b));
        assert forall|x: u64| ms.insert(b).remove(a).insert(a).remove(b).count(x) == ms.count(
            x,
        ) by {}
        assert(ms.insert(b).remove(a).insert(a).remove(b) =~= ms);
    }
}

/// Sorts the values in place into ascending order (selection sort), so that
/// the vector afterwards equals the specification-level sorted sequence.
fn sort_values(values: &mut Vec<u64>)
    ensures
        final(values)@ == sorted_of(old(values)@),
{
    broadcast use group_to_multiset_ensures;

    let ghost orig = values@;
    let n = values.len();
    let mut i: usize = 0;
    while i < n
        invariant
            i <= n,
            values@.len() == n,
            orig.len() == n,
            values@.to_multiset() == orig.to_multiset(),
            forall|k: int, l: int| 0 <= k < l < i ==> values@[k] <= values@[l],
            forall|k: int, l: int| 0 <= k < i <= l < n ==> values@[k] <= values@[l],
        decreases n - i,
    {
        let mut m: usize = i;
        let mut j: usize = i + 1;
        while j < n
            invariant
                i <= m < j <= n,
                values@.len() == n,
                forall|k: int| i <= k < j ==> values@[m as int] <= values@[k],
            decreases n - j,
        {
            if values[j] < values[m] {
                m = j;
            }
            j = j + 1;
        }
        let a = values[i];
        let b = values[m];
        proof {
            lemma_swap_preserves_multiset(values@, i as int, m as int);
        }
        values.set(i, b);
        values.set(m, a);
        i = i + 1;
    }
    proof {
        assert(sorted_by(values@, value_leq()));
        orig.lemma_sort_by_ensures(value_leq());
        lemma_value_leq_total();
        lemma_sorted_unique(values@, sorted_of(orig), value_leq());
        assert(values@ == sorted_of(orig));
    }
}

/// Returns the sorted middle value, or the floored average of the two middle
/// values when the input holds an even number of elements, and `None` for an
/// empty input.  The error arm is never taken; it mirrors the signature the
/// aggregator's callers expect.
pub fn calculate(list: Vec<u64>) -> (r: Result<Option<u64>, &'static str>)
    ensures
        r == Result::<Option<u64>, &'static str>::Ok(median_of(list@)),
{
    broadcast use group_to_multiset_ensures;

    if list.is_empty() {
        return Result::Ok(None);
    }
    let ghost orig = list@;
    let mut list = list;
    sort_values(&mut list);
    proof {
        orig.lemma_sort_by_ensures(value_leq());
        assert(orig.to_multiset().len() == orig.len());
        assert(sorted_of(orig).to_multiset().len() == sorted_of(orig).len());
        assert(list@.len() == orig.len());
    }
    let len = list.len();
    let middle_index = len / 2;
    if len % 2 == 0 {
        let median1 = list[middle_index - 1];
        let median2 = list[middle_index];
        let mean = ((median1 as u128 + median2 as u128) / 2) as u64;
        Result::Ok(Some(mean))
    } else {
        Result::Ok(Some(list[middle_index]))
    }
}

/// Takes the median independently at each value position across a batch of
/// submissions: position `i` of the result is the median of position `i` of
/// every submission.  All submissions must carry the same number of values.
pub fn calculate_submission_median(submissions: Vec<Submission>) -> (r: Result<
    Option<Submission>,
    &'static str,
>)
    requires
        forall|j: int|
            0 <= j < submissions@.len() ==> (#[trigger] submissions@[j])@.len()
                == submissions@[0]@.len(),
    ensures
        submissions@.len() == 0 ==> r == Result::<Option<Submission>, &'static str>::Ok(
            None::<Submission>,
        ),
        submissions@.len() > 0 ==> (r matches Result::Ok(Some(m)) && m@.len()
            == submissions@[0]@.len() && forall|i: int|
            0 <= i < m@.len() ==> Some(m@[i]) == median_of(
                column_values(submissions.deep_view(), i),
            )),
{
    if submissions.is_empty() {
        return Result::Ok(None);
    }
    let values_count = submissions[0].values.len();
    let mut new_values: Vec<u64> = Vec::new();
    let mut i: usize = 0;
    while i < values_count
        invariant
            i <= values_count,
            values_count == submissions@[0]@.len(),
            submissions@.len() > 0,
            forall|j: int|
                0 <= j < submissions@.len() ==> (#[trigger] submissions@[j])@.len()
                    == values_count,
            new_values@.len() == i,
            forall|k: int|
                0 <= k < i ==> Some(#[trigger] new_values@[k]) == median_of(
                    column_values(submissions.deep_view(), k),
                ),
        decreases values_count - i,
    {
        let mut column: Vec<u64> = Vec::new();
        let mut j: usize = 0;
        while j < submissions.len()
            invariant
                j <= submissions@.len(),
                i < values_count,
                forall|jj: int|
                    0 <= jj < submissions@.len() ==> (#[trigger] submissions@[jj])@.len()
                        == values_count,
                column@.len() == j,
                forall|k: int| 0 <= k < j ==> column@[k] == (#[trigger] submissions@[k])@[i as int],
            decreases submissions@.len() - j,
        {
            column.push(submissions[j].values[i]);
            j = j + 1;
        }
        proof {
            assert(column@ =~= column_values(submissions.deep_view(), i as int));
        }
        let median = match calculate(column) {
            Result::Ok(Some(v)) => v,
            _ => {
                proof {
                    assert(false);
                }
                0
            },
        };
        new_values.push(median);
        i = i + 1;
    }
    Result::Ok(Some(Submission { values: new_values }))
}

} // verus!
