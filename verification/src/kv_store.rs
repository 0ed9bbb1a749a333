use vstd::prelude::*;

verus! {

/// Key-value store abstraction with string keys of the form "prefix_id".
///
/// The store hands out textual keys; which numeric identifier a key
/// designates is the store's own affair, abstracted by `resolve`. The
/// stored values, indexed by those identifiers, are its `contents`.
pub trait KvStore<V>: Sized {
    /// Structural soundness of the store's bookkeeping.
    spec fn wf(&self) -> bool;

    /// Whether a further insertion is possible (identifiers not exhausted).
    spec fn can_insert(&self) -> bool;

    /// The stored values, by the numeric identifier embedded in their keys.
    spec fn contents(&self) -> Map<u64, V>;

    /// The numeric identifier a textual key designates in this store, if
    /// the key is well formed and carries this store's prefix.
    spec fn resolve(&self, key: Seq<char>) -> Option<u64>;

    /// The identifier the next insertion will take.
    spec fn fresh_id(&self) -> u64;

    /// Insert a value, returning the generated key as a String
    fn insert(&mut self, value: V) -> (key: String)
        requires
            old(self).wf(),
            old(self).can_insert(),
        ensures
            final(self).wf(),
            !old(self).contents().dom().contains(old(self).fresh_id()),
            final(self).contents() == old(self).contents().insert(old(self).fresh_id(), value),
            final(self).resolve(key@) == Some(old(self).fresh_id()),
            forall|k: Seq<char>| #[trigger] final(self).resolve(k) == old(self).resolve(k),
    ;

    /// Retrieve a value by id string of the form "prefix_id"
    fn get(&self, id: &str) -> (r: Option<&V>)
        ensures
            (match self.resolve(id@) {
                Some(num) => (match r {
                    Some(v) => self.contents().dom().contains(num) && *v == self.contents()[num],
                    None => !self.contents().dom().contains(num),
                }),
                None => r is None,
            }),
    ;

    /// Remove a value by id string of the form "prefix_id"
    fn remove(&mut self, id: &str) -> (r: bool)
        requires
            old(self).wf(),
        ensures
            final(self).wf(),
            final(self).fresh_id() == old(self).fresh_id(),
            forall|k: Seq<char>| #[trigger] final(self).resolve(k) == old(self).resolve(k),
            (match old(self).resolve(id@) {
                Some(num) => r == old(self).contents().dom().contains(num)
                    && final(self).contents() == old(self).contents().remove(num),
                None => r == false && final(self).contents() == old(self).contents(),
            }),
    ;
}

} // verus!
