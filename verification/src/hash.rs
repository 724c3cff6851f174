use core::hash::Hash;
use core::hash::Hasher;
use vstd::prelude::*;
use crate::list::List;

verus! {

/// Feeds `value` to the hasher `state`, by a call of `Hash::hash`.
///
/// What the call does to the hasher is the business of the value's type and
/// of the hasher: nothing is claimed of it.
#[verifier::external_body]
fn feed<V: Hash, H: Hasher>(value: &V, state: &mut H) {
    value.hash(state)
}

impl<T: Hash> Hash for List<T> {
    /// Feeds the length of the list and then each element, front to back.
    fn hash<H: Hasher>(&self, state: &mut H) {
        feed(&self.len(), state);
        let mut rest = self.iter();
        loop
            decreases rest@.len(),
        {
            match rest.next() {
                Some(item) => {
                    feed(item, state);
                },
                None => {
                    return ;
                },
            }
        }
    }
}

} // verus!
