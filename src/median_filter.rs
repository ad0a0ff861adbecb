use vstd::prelude::*;

verus! {

#[verifier::external_type_specification]
#[verifier::external_body]
#[verifier::reject_recursive_types(T)]
pub struct ExFilter<T>(median::Filter<T>);

/// The samples that a median filter holds, oldest first.
pub uninterp spec fn filter_window(f: median::Filter<i64>) -> Seq<i64>;

/// The window size that a median filter was made with.
pub uninterp spec fn filter_size(f: median::Filter<i64>) -> nat;

/// Number of samples of `w` below `r`.
pub open spec fn count_below(w: Seq<i64>, r: i64) -> nat {
    w.filter(|x: i64| x < r).len()
}

/// Number of samples of `w` above `r`.
pub open spec fn count_above(w: Seq<i64>, r: i64) -> nat {
    w.filter(|x: i64| x > r).len()
}

/// `r` is the lower median of `w`: a sample of `w` with at most
/// `(len - 1) / 2` samples below it and at most `len / 2` above it.
pub open spec fn is_lower_median(w: Seq<i64>, r: i64) -> bool {
    &&& w.contains(r)
    &&& count_below(w, r) <= (w.len() - 1) / 2
    &&& count_above(w, r) <= w.len() / 2
}

/// The window after `v` arrives: `v` is appended, and once the window is
/// full the oldest sample leaves.
pub open spec fn slide(w: Seq<i64>, v: i64, size: nat) -> Seq<i64> {
    if w.len() < size {
        w.push(v)
    } else {
        w.drop_first().push(v)
    }
}

/// The last `size` samples of `values[..=i]` (fewer near the start).
pub open spec fn window_at(values: Seq<i64>, i: int, size: int) -> Seq<i64> {
    values.subrange(if i + 1 >= size { i + 1 - size } else { 0 }, i + 1)
}

/// Relies on median::Filter::new: a filter of window `size` holding no
/// sample yet.
#[verifier::external_body]
pub(crate) fn new_filter(size: usize) -> (f: median::Filter<i64>)
    requires
        size > 0,
    ensures
        filter_window(f) == Seq::<i64>::empty(),
        filter_size(f) == size,
{
    median::Filter::new(size)
}

/// Relies on median::Filter::consume: the sample enters the ring buffer,
/// replacing the oldest one once the buffer is full, and the result is the
/// median of the samples held; with an even count, the lower of the middle
/// pair.
#[verifier::external_body]
pub(crate) fn consume(f: &mut median::Filter<i64>, v: i64) -> (r: i64)
    requires
        filter_size(*old(f)) > 0,
        filter_window(*old(f)).len() <= filter_size(*old(f)),
    ensures
        filter_size(*final(f)) == filter_size(*old(f)),
        filter_window(*final(f)) == slide(filter_window(*old(f)), v, filter_size(*old(f))),
        is_lower_median(filter_window(*final(f)), r),
{
    f.consume(v)
}

/// Filters `values` with a running median of window `size`: entry `i` of the
/// result is the lower median of the last `size` values up to `i`.
pub fn running_median(values: &Vec<i64>, size: usize) -> (out: Vec<i64>)
    requires
        size > 0,
    ensures
        out@.len() == values@.len(),
        forall|i: int|
            0 <= i < values@.len() ==> is_lower_median(
                window_at(values@, i, size as int),
                #[trigger] out@[i],
            ),
{
    let mut filter = new_filter(size);
    let mut out: Vec<i64> = Vec::new();
    let mut i: usize = 0;
    while i < values.len()
        invariant
            size > 0,
            filter_size(filter) == size,
            i <= values@.len(),
            out@.len() == i,
            filter_window(filter) == values@.subrange(if i >= size { i - size } else { 0 }, i as int),
            forall|j: int|
                0 <= j < i ==> is_lower_median(window_at(values@, j, size as int), #[trigger] out@[j]),
        decreases values@.len() - i,
    {
        let ghost before = filter_window(filter);
        let r = consume(&mut filter, values[i]);
        proof {
            let lo = if i >= size { i - size } else { 0 };
            if i < size {
                assert(before.push(values@[i as int]) =~= window_at(values@, i as int, size as int));
            } else {
                assert(before.drop_first().push(values@[i as int]) =~= window_at(values@, i as int, size as int));
            }
        }
        out.push(r);
        i = i + 1;
    }
    out
}

} // verus!
