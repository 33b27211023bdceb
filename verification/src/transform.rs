//! Transforming streams chunk by chunk.
//!
//! A transform reads a chunk from a source, maps it, and writes the result
//! to a sink, until the source has nothing more to give or the sink refuses.
//! The waiting is the executor's; what is decided and computed is here.

use vstd::prelude::*;

verus! {

/// What follows a read of a chunk: the number of items to map and send, or
/// `None` to stop, because the read failed or the source has ended.
pub fn next_chunk<E>(read: Result<usize, E>) -> (r: Option<usize>)
    ensures
        r matches Some(n) ==> read == Ok::<usize, E>(n) && n > 0,
        r is None <==> (read is Err || read == Ok::<usize, E>(0)),
{
    match read {
        Ok(n) => {
            if n > 0 {
                Some(n)
            } else {
                None
            }
        },
        Err(_) => None,
    }
}

/// Maps every item of `input` with `f`, in order.
pub fn map_chunk<T, U, F: Fn(&T) -> U>(input: &[T], f: &F) -> (r: Vec<U>)
    requires
        forall|i: int| 0 <= i < input@.len() ==> #[trigger] call_requires(*f, (&input@[i],)),
    ensures
        r@.len() == input@.len(),
        forall|i: int| 0 <= i < input@.len() ==> #[trigger] call_ensures(*f, (&input@[i],), r@[i]),
{
    let mut output: Vec<U> = Vec::new();
    let mut i: usize = 0;
    while i < input.len()
        invariant
            i <= input@.len(),
            output@.len() == i,
            forall|k: int| 0 <= k < input@.len() ==> #[trigger] call_requires(*f, (&input@[k],)),
            forall|k: int| 0 <= k < i ==> #[trigger] call_ensures(*f, (&input@[k],), output@[k]),
        decreases input@.len() - i,
    {
        let u = f(&input[i]);
        output.push(u);
        i = i + 1;
    }
    output
}

} // verus!
