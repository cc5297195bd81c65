//! The keys and the hasher of a randomly keyed hash map.

use core::hash::Hasher;
use vstd::prelude::*;
use vstd::std_specs::hash::DefaultHasherAdditionalSpecFns;

verus! {

/// The two keys of a keyed hash function, both taken from one random number.
pub struct RandomState {
    k0: u64,
    k1: u64,
}

impl View for RandomState {
    type V = (u64, u64);

    closed spec fn view(&self) -> (u64, u64) {
        (self.k0, self.k1)
    }
}

impl RandomState {
    /// Splits `random` into its high and its low half.
    pub fn from_random(random: u128) -> (s: RandomState)
        ensures
            s@.0 == random / 0x1_0000_0000_0000_0000,
            s@.1 == random % 0x1_0000_0000_0000_0000,
    {
        assert((random >> 64) as u64 == random / 0x1_0000_0000_0000_0000) by (bit_vector);
        assert(random as u64 == random % 0x1_0000_0000_0000_0000) by (bit_vector);
        RandomState { k0: (random >> 64) as u64, k1: random as u64 }
    }

    /// The two keys, the high half first.
    pub fn keys(&self) -> (k: (u64, u64))
        ensures
            k == self@,
    {
        (self.k0, self.k1)
    }
}

impl Clone for RandomState {
    fn clone(&self) -> (c: Self)
        ensures
            c@ == self@,
    {
        RandomState { k0: self.k0, k1: self.k1 }
    }
}

/// The standard library's hasher with its fixed keys.
///
/// Its state is the sequence of byte strings written to it so far; the
/// digest is a function of that sequence.
#[derive(Debug)]
pub struct DefaultHasher(std::collections::hash_map::DefaultHasher);

impl View for DefaultHasher {
    type V = Seq<Seq<u8>>;

    closed spec fn view(&self) -> Seq<Seq<u8>> {
        self.0@
    }
}

impl DefaultHasher {
    /// A hasher that nothing has been written to.
    pub fn new() -> (h: DefaultHasher)
        ensures
            h@ == Seq::<Seq<u8>>::empty(),
    {
        DefaultHasher(std::collections::hash_map::DefaultHasher::new())
    }
}

impl Default for DefaultHasher {
    /// The same as [`DefaultHasher::new`].
    fn default() -> (h: DefaultHasher)
        ensures
            h@ == Seq::<Seq<u8>>::empty(),
    {
        DefaultHasher::new()
    }
}

/// `clone` of the standard library's `DefaultHasher`: what has been written
/// to the hasher has been written to its copy.
pub assume_specification[ <std::collections::hash_map::DefaultHasher as Clone>::clone ](
    h: &std::collections::hash_map::DefaultHasher,
) -> (c: std::collections::hash_map::DefaultHasher)
    ensures
        c@ == h@,
;

impl Clone for DefaultHasher {
    fn clone(&self) -> (c: Self)
        ensures
            c@ == self@,
    {
        DefaultHasher(self.0.clone())
    }
}

impl Hasher for DefaultHasher {
    /// Writes `msg` after what has been written.
    fn write(&mut self, msg: &[u8])
        ensures
            final(self)@ == old(self)@.push(msg@),
    {
        self.0.write(msg)
    }

    /// The digest of what has been written.
    fn finish(&self) -> (digest: u64)
        ensures
            digest == std::collections::hash_map::DefaultHasher::spec_finish(self@),
    {
        self.0.finish()
    }
}

} // verus!
