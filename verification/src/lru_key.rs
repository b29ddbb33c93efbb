//! What the cache asks of its keys.
use std::collections::hash_map::DefaultHasher;
use std::hash::Hasher;
use vstd::prelude::*;
use vstd::std_specs::hash::DefaultHasherAdditionalSpecFns;

verus! {

/// A type whose values can be keys of a cache. Two keys are the same key if
/// and only if their views are equal, and then they have the same digest.
pub trait LruKey: View + Sized {
    /// The digest of the keys with this view.
    spec fn digest_of(identity: Self::V) -> u64;

    /// Whether the two are the same key.
    fn same_key(&self, other: &Self) -> (same: bool)
        ensures
            same == (self@ == other@),
    ;

    /// The digest that the key is filed under.
    fn digest(&self) -> (digest: u64)
        ensures
            digest == Self::digest_of(self@),
    ;
}

impl LruKey for u64 {
    open spec fn digest_of(identity: u64) -> u64 {
        identity
    }

    fn same_key(&self, other: &u64) -> (same: bool) {
        *self == *other
    }

    fn digest(&self) -> (digest: u64) {
        *self
    }
}

impl LruKey for String {
    /// The digest of the text's UTF-8 bytes, written as a whole.
    open spec fn digest_of(identity: Seq<char>) -> u64 {
        DefaultHasher::spec_finish(seq![vstd::utf8::encode_utf8(identity)])
    }

    fn same_key(&self, other: &String) -> (same: bool) {
        *self == *other
    }

    fn digest(&self) -> (digest: u64) {
        let mut hasher = DefaultHasher::new();
        hasher.write(self.as_str().as_bytes());
        assert(hasher@ =~= seq![vstd::utf8::encode_utf8(self@)]);
        hasher.finish()
    }
}

} // verus!
