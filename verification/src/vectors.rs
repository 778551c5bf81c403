//! Vectors whose elements cannot be copied.
use vstd::prelude::*;

verus! {

/// The elements of a vector in the opposite order.
pub fn reversed<T>(items: Vec<T>) -> (turned: Vec<T>)
    ensures
        turned@ == items@.reverse(),
{
    let ghost given = items@;
    let mut items = items;
    let mut turned: Vec<T> = Vec::new();
    while items.len() > 0
        invariant
            items@.len() + turned@.len() == given.len(),
            items@ == given.take(items@.len() as int),
            forall|k: int|
                0 <= k < turned@.len() ==> #[trigger] turned@[k] == given[given.len() - 1 - k],
        decreases items@.len(),
    {
        let item = items.pop().unwrap();
        turned.push(item);
    }
    assert(turned@ == given.reverse());
    turned
}

} // verus!
