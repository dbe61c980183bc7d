use vstd::prelude::*;

verus! {

#[verifier::external_type_specification]
#[verifier::external_body]
#[verifier::reject_recursive_types(T)]
pub struct ExHeaplessVec<T, const N: usize>(heapless::Vec<T, N>);

/// A bounded, insertion-ordered buffer of position hashes, appended after
/// every applied move, cleared on every irreversible move, and popped to
/// unwind search recursion. Its capacity is fixed at 150 entries.
pub type History = heapless::Vec<u64, 150>;

/// The entries the buffer holds, oldest first.
pub uninterp spec fn hist_contents(v: History) -> Seq<u64>;

/// Relies on heapless::Vec::new: a fresh vector holds nothing.
#[verifier::external_body]
pub fn hist_new() -> (r: History)
    ensures
        hist_contents(r) == Seq::<u64>::empty(),
{
    heapless::Vec::new()
}

/// Relies on heapless::Vec::push: appends below capacity, and at capacity
/// hands the value back and changes nothing.
#[verifier::external_body]
pub fn hist_push(v: &mut History, h: u64) -> (r: Result<(), u64>)
    ensures
        r == (if hist_contents(*old(v)).len() < 150 {
            Ok::<(), u64>(())
        } else {
            Err::<(), u64>(h)
        }),
        hist_contents(*final(v)) == (if hist_contents(*old(v)).len() < 150 {
            hist_contents(*old(v)).push(h)
        } else {
            hist_contents(*old(v))
        }),
{
    v.push(h)
}

/// Relies on heapless::Vec::pop: removes and returns the newest entry, or
/// nothing when the buffer is empty.
#[verifier::external_body]
pub fn hist_pop(v: &mut History) -> (r: Option<u64>)
    ensures
        r == (if hist_contents(*old(v)).len() == 0 {
            None::<u64>
        } else {
            Some(hist_contents(*old(v)).last())
        }),
        hist_contents(*final(v)) == (if hist_contents(*old(v)).len() == 0 {
            hist_contents(*old(v))
        } else {
            hist_contents(*old(v)).drop_last()
        }),
{
    v.pop()
}

/// Relies on heapless::Vec::clear: removes every entry.
#[verifier::external_body]
pub fn hist_clear(v: &mut History)
    ensures
        hist_contents(*final(v)) == Seq::<u64>::empty(),
{
    v.clear()
}

/// Relies on heapless::Vec::as_slice: the entries in insertion order.
#[verifier::external_body]
pub fn hist_as_slice(v: &History) -> (r: &[u64])
    ensures
        r@ == hist_contents(*v),
{
    v.as_slice()
}

/// Relies on heapless::Vec::from_slice: copies a slice that fits within the
/// capacity, and reports failure on one that does not.
#[verifier::external_body]
pub fn hist_from_slice(entries: &[u64]) -> (r: Result<History, ()>)
    ensures
        r is Ok <==> entries@.len() <= 150,
        r matches Ok(v) ==> hist_contents(v) == entries@,
{
    match heapless::Vec::from_slice(entries) {
        Ok(v) => Ok(v),
        Err(()) => Err(()),
    }
}

/// The number of entries in the buffer.
pub fn hist_len(v: &History) -> (r: usize)
    ensures
        r == hist_contents(*v).len(),
{
    hist_as_slice(v).len()
}

/// How many entries among the first `n` of `s` equal `h`.
pub open spec fn count_eq_to(s: Seq<u64>, h: u64, n: int) -> int
    decreases n,
{
    if n <= 0 {
        0
    } else {
        count_eq_to(s, h, n - 1) + if s[n - 1] == h {
            1int
        } else {
            0int
        }
    }
}

/// How many entries of `s` equal `h`.
pub open spec fn count_eq(s: Seq<u64>, h: u64) -> int {
    count_eq_to(s, h, s.len() as int)
}

/// Count how many entries of the buffer equal `h`.
pub fn hist_count(v: &History, h: u64) -> (r: usize)
    ensures
        r == count_eq(hist_contents(*v), h),
{
    let s = hist_as_slice(v);
    let mut n: usize = 0;
    let mut i: usize = 0;
    while i < s.len()
        invariant
            0 <= i <= s@.len(),
            n == count_eq_to(s@, h, i as int),
            n <= i,
        decreases s@.len() - i,
    {
        if s[i] == h {
            n = n + 1;
        }
        i = i + 1;
    }
    n
}

} // verus!
