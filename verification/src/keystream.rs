//! The model: a key and a position in its endless repetition.

use vstd::prelude::*;
use vstd::arithmetic::div_mod::{lemma_add_mod_noop_right, lemma_small_mod};

verus! {

/// A key together with the index of the key byte that meets the next data byte.
pub struct Keystream {
    pub key: Seq<u8>,
    pub pos: nat,
}

impl Keystream {
    /// The position lies inside the key; in particular the key is not empty.
    pub open spec fn wf(self) -> bool {
        self.pos < self.key.len()
    }

    /// The keystream of `key` before any byte has been transformed.
    pub open spec fn start(key: Seq<u8>) -> Keystream {
        Keystream { key, pos: 0 }
    }

    /// The key byte that meets the data byte `i` places ahead of the position.
    pub open spec fn byte_at(self, i: int) -> u8 {
        self.key[(self.pos + i) % (self.key.len() as int)]
    }

    /// The keystream after `n` more bytes have been transformed.
    pub open spec fn advance(self, n: nat) -> Keystream {
        Keystream { key: self.key, pos: (self.pos + n) % self.key.len() }
    }

    /// `data` with every byte XORed with the key byte that meets it.
    pub open spec fn apply(self, data: Seq<u8>) -> Seq<u8> {
        Seq::new(data.len(), |i: int| data[i] ^ self.byte_at(i))
    }
}

/// Advancing by no bytes leaves a keystream as it is.
pub proof fn lemma_advance_zero(ks: Keystream)
    requires
        ks.wf(),
    ensures
        ks.advance(0) == ks,
{
    lemma_small_mod(ks.pos, ks.key.len());
}

/// Advancing keeps the position inside the key, and advancing twice is advancing
/// once by the sum.
pub proof fn lemma_advance_advance(ks: Keystream, m: nat, n: nat)
    requires
        ks.wf(),
    ensures
        ks.advance(m).wf(),
        ks.advance(m).advance(n) == ks.advance(m + n),
{
    let len = ks.key.len() as int;
    let past = ks.pos as int + m as int;
    lemma_add_mod_noop_right(n as int, past, len);
    assert((past % len + n) % len == (past + n) % len);
}

/// The key byte `i` places ahead of a keystream advanced by `n` is the key byte
/// `n + i` places ahead of the keystream itself.
pub proof fn lemma_advance_byte_at(ks: Keystream, n: nat, i: int)
    requires
        ks.wf(),
    ensures
        ks.advance(n).byte_at(i) == ks.byte_at(n + i),
{
    let len = ks.key.len() as int;
    let past = ks.pos as int + n as int;
    lemma_add_mod_noop_right(i, past, len);
    assert((past % len + i) % len == (past + i) % len);
}

/// Transforming the same data twice from the same position gives the data back.
///
/// This is what makes the transform its own inverse: what one engine has
/// enciphered, a second engine made from the same key, standing where the first
/// one stood, deciphers.
pub proof fn lemma_apply_twice_restores(ks: Keystream, data: Seq<u8>)
    ensures
        ks.apply(data).len() == data.len(),
        ks.apply(ks.apply(data)) == data,
{
    assert forall|i: int| 0 <= i < data.len() implies ks.apply(ks.apply(data))[i] == data[i] by {
        let d = data[i];
        let k = ks.byte_at(i);
        assert((d ^ k) ^ k == d) by (bit_vector);
    }
    assert(ks.apply(ks.apply(data)) =~= data);
}

/// Where the data is cut into chunks makes no difference: transforming `head`
/// and then, from where that left the keystream, `tail`, gives the same bytes
/// and the same final position as transforming `head + tail` in one go.
pub proof fn lemma_apply_in_chunks(ks: Keystream, head: Seq<u8>, tail: Seq<u8>)
    requires
        ks.wf(),
    ensures
        ks.apply(head + tail) == ks.apply(head) + ks.advance(head.len()).apply(tail),
        ks.advance(head.len()).advance(tail.len()) == ks.advance((head + tail).len()),
{
    let whole = ks.apply(head + tail);
    let pieces = ks.apply(head) + ks.advance(head.len()).apply(tail);
    assert forall|i: int| 0 <= i < whole.len() implies whole[i] == pieces[i] by {
        if i >= head.len() {
            lemma_advance_byte_at(ks, head.len(), i - head.len());
        }
    }
    assert(whole =~= pieces);
    lemma_advance_advance(ks, head.len(), tail.len());
}

/// Transforming the same data a second time, from where the first time left the
/// keystream, gives the same output exactly when every byte meets the same key
/// byte both times. It does so whenever the data's length is a multiple of the
/// key's, since the keystream is then back where it was.
pub proof fn lemma_apply_again(ks: Keystream, data: Seq<u8>)
    requires
        ks.wf(),
    ensures
        ks.advance(data.len()).apply(data) == ks.apply(data) <==> (forall|i: int|
            0 <= i < data.len() ==> ks.byte_at(data.len() + i) == #[trigger] ks.byte_at(i)),
        data.len() % ks.key.len() == 0 ==> ks.advance(data.len()) == ks,
{
    let first = ks.apply(data);
    let second = ks.advance(data.len()).apply(data);
    if second == first {
        assert forall|i: int| 0 <= i < data.len() implies ks.byte_at(data.len() + i)
            == #[trigger] ks.byte_at(i) by {
            lemma_advance_byte_at(ks, data.len(), i);
            let d = data[i];
            let k1 = ks.byte_at(i);
            let k2 = ks.byte_at(data.len() + i);
            assert(second[i] == first[i]);
            assert(d ^ k2 == d ^ k1 ==> k2 == k1) by (bit_vector);
        }
    }
    if forall|i: int|
        0 <= i < data.len() ==> ks.byte_at(data.len() + i) == #[trigger] ks.byte_at(i) {
        assert forall|i: int| 0 <= i < data.len() implies second[i] == first[i] by {
            lemma_advance_byte_at(ks, data.len(), i);
            assert(ks.byte_at(data.len() + i) == ks.byte_at(i));
        }
        assert(second =~= first);
    }
    if data.len() % ks.key.len() == 0 {
        lemma_add_mod_noop_right(ks.pos as int, data.len() as int, ks.key.len() as int);
        lemma_small_mod(ks.pos, ks.key.len());
    }
}

/// Under a key of one byte every data byte meets that one byte, and the
/// position never leaves it.
pub proof fn lemma_single_byte_key(ks: Keystream, data: Seq<u8>, n: nat)
    requires
        ks.wf(),
        ks.key.len() == 1,
    ensures
        ks.apply(data) == Seq::new(data.len(), |i: int| data[i] ^ ks.key[0]),
        ks.advance(n) == ks,
        ks.pos == 0,
{
    assert(ks.apply(data) =~= Seq::new(data.len(), |i: int| data[i] ^ ks.key[0]));
}

} // verus!
