//! Data-parallel maps.

use rayon::iter::{IntoParallelRefIterator, ParallelIterator};
use rayon::slice::ParallelSlice;
use vstd::prelude::*;

verus! {

/// rayon's `par_iter().map(f).collect()`: applies `f` to every item on the thread pool and returns
/// the results in the order of the items.
#[verifier::external_body]
pub(crate) fn par_map<T: Sync, U: Send, F: Fn(&T) -> U + Sync + Send>(items: &[T], f: F) -> (out:
    Vec<U>)
    requires
        forall|i: int| 0 <= i < items.len() ==> call_requires(f, (&#[trigger] items@[i],)),
    ensures
        out.len() == items.len(),
        forall|i: int| 0 <= i < out.len() ==> call_ensures(f, (&items@[i],), #[trigger] out@[i]),
{
    items.par_iter().map(f).collect()
}

/// The number of chunks of `size` items in `len` items, the last one perhaps shorter.
pub open spec fn chunk_count(len: nat, size: nat) -> nat {
    if len % size == 0 {
        len / size
    } else {
        len / size + 1
    }
}

/// The `i`-th chunk of `size` items, the last one perhaps shorter.
pub open spec fn chunk<T>(s: Seq<T>, size: nat, i: int) -> Seq<T> {
    s.subrange(
        i * size,
        if (i + 1) * size <= s.len() {
            (i + 1) * size
        } else {
            s.len() as int
        },
    )
}

/// rayon's `par_chunks(size).map(f).collect()`: applies `f` to every run of `size` items, the last
/// one perhaps shorter, and returns the results in order.
#[verifier::external_body]
pub(crate) fn par_chunk_map<T: Sync, U: Send, F: Fn(&[T]) -> U + Sync + Send>(
    items: &[T],
    size: usize,
    f: F,
) -> (out: Vec<U>)
    requires
        size > 0,
        forall|c: &[T]| 0 < c@.len() <= size ==> #[trigger] call_requires(f, (c,)),
    ensures
        out.len() == chunk_count(items@.len(), size as nat),
        forall|i: int|
            0 <= i < out.len() ==> exists|c: &[T]|
                c@ == chunk(items@, size as nat, i) && #[trigger] call_ensures(
                    f,
                    (c,),
                    #[trigger] out@[i],
                ),
{
    items.par_chunks(size).map(f).collect()
}

} // verus!
