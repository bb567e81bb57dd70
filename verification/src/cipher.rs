//! The engine: a borrowed key and a cursor into it.

use vstd::prelude::*;
use vstd::arithmetic::div_mod::lemma_small_mod;
use crate::keystream::{Keystream, lemma_advance_advance, lemma_advance_byte_at, lemma_advance_zero};

verus! {

/// XORs the bytes it is given with a repeating key, and remembers between calls
/// how far round the key it has come.
pub struct Xorcism<'a> {
    key: &'a [u8],
    key_idx: usize,
}

impl<'a> View for Xorcism<'a> {
    type V = Keystream;

    closed spec fn view(&self) -> Keystream {
        Keystream { key: self.key@, pos: self.key_idx as nat }
    }
}

impl<'a> Xorcism<'a> {
    #[verifier::type_invariant]
    spec fn cursor_in_key(self) -> bool {
        self.key_idx < self.key@.len()
    }

    /// An engine over `key` with its cursor on the key's first byte.
    ///
    /// An empty key has no byte for the cursor to stand on, so it is not accepted.
    pub fn new(key: &'a [u8]) -> (engine: Self)
        requires
            key@.len() > 0,
        ensures
            engine@ == Keystream::start(key@),
            engine@.wf(),
    {
        Xorcism { key, key_idx: 0 }
    }

    /// The key.
    pub fn key(&self) -> (key: &'a [u8])
        ensures
            key@ == self@.key,
    {
        self.key
    }

    /// The cursor: the index, inside the key, of the key byte that meets the next
    /// data byte.
    pub fn cursor(&self) -> (cursor: usize)
        ensures
            cursor == self@.pos,
            self@.wf(),
    {
        proof {
            use_type_invariant(self);
        }
        self.key_idx
    }

    /// XORs one byte with the key byte under the cursor, then moves the cursor on,
    /// back to the key's first byte after its last.
    fn step(&mut self, byte: u8) -> (out: u8)
        ensures
            old(self)@.wf(),
            out == byte ^ old(self)@.byte_at(0),
            final(self)@ == old(self)@.advance(1),
    {
        proof {
            use_type_invariant(&*self);
            lemma_small_mod(self.key_idx as nat, self.key@.len());
        }
        let out = byte ^ self.key[self.key_idx];
        self.key_idx = (self.key_idx + 1) % self.key.len();
        out
    }

    /// XORs each byte of `data`, in order, with the key byte that meets it; the
    /// cursor moves on by the length of `data`, so that an empty `data` leaves it
    /// where it was.
    pub fn munge_in_place(&mut self, data: &mut [u8])
        ensures
            old(self)@.wf(),
            final(self)@.wf(),
            final(data)@ == old(self)@.apply(old(data)@),
            final(self)@ == old(self)@.advance(old(data)@.len()),
            old(data)@.len() == 0 ==> final(self)@ == old(self)@,
    {
        proof {
            use_type_invariant(&*self);
        }
        let ghost start = self@;
        let len = data.len();
        let mut i: usize = 0;
        proof {
            lemma_advance_zero(start);
        }
        while i < len
            invariant
                i <= len,
                data@.len() == len,
                old(data)@.len() == len,
                start.wf(),
                self@ == start.advance(i as nat),
                forall|j: int| 0 <= j < i ==> data@[j] == old(data)@[j] ^ start.byte_at(j),
                forall|j: int| i <= j < len ==> data@[j] == old(data)@[j],
            decreases len - i,
        {
            proof {
                lemma_advance_advance(start, i as nat, 1);
                lemma_advance_byte_at(start, i as nat, 0);
            }
            let b = self.step(data[i]);
            data[i] = b;
            i += 1;
        }
        proof {
            lemma_advance_advance(start, 0, len as nat);
            assert(data@ =~= start.apply(old(data)@));
        }
    }

    /// XORs each byte of `data` with the key byte that meets it and returns the
    /// result, as long as `data`; the cursor moves on by the length of `data`.
    pub fn munge(&mut self, data: &[u8]) -> (out: Vec<u8>)
        ensures
            old(self)@.wf(),
            final(self)@.wf(),
            out@ == old(self)@.apply(data@),
            out@.len() == data@.len(),
            final(self)@ == old(self)@.advance(data@.len()),
    {
        proof {
            use_type_invariant(&*self);
        }
        let ghost start = self@;
        let mut out: Vec<u8> = Vec::new();
        let mut i: usize = 0;
        proof {
            lemma_advance_zero(start);
        }
        while i < data.len()
            invariant
                i <= data@.len(),
                start.wf(),
                self@ == start.advance(i as nat),
                out@.len() == i,
                forall|j: int| 0 <= j < i ==> out@[j] == data@[j] ^ start.byte_at(j),
            decreases data@.len() - i,
        {
            proof {
                lemma_advance_advance(start, i as nat, 1);
                lemma_advance_byte_at(start, i as nat, 0);
            }
            let b = self.step(data[i]);
            out.push(b);
            i += 1;
        }
        proof {
            lemma_advance_advance(start, 0, data@.len());
            assert(out@ =~= start.apply(data@));
        }
        out
    }
}

impl<'a> Clone for Xorcism<'a> {
    /// A second engine over the same key, its cursor where this one's is now; from
    /// then on each moves its own.
    fn clone(&self) -> (copy: Self)
        ensures
            copy@ == self@,
    {
        proof {
            use_type_invariant(self);
        }
        Xorcism { key: self.key, key_idx: self.key_idx }
    }
}

} // verus!
