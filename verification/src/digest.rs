//! Digests that name cached files.

use crate::text::{fixed_digits, push_fixed};
use std::collections::hash_map::DefaultHasher;
use std::hash::Hasher;
use vstd::prelude::*;
use vstd::std_specs::hash::*;
use vstd::utf8::*;

verus! {

/// The `width` low bytes of `n`, lowest first.
pub open spec fn low_bytes(n: nat, width: nat) -> Seq<u8>
    decreases width,
{
    if width == 0 {
        Seq::empty()
    } else {
        seq![(n % 256) as u8] + low_bytes(n / 256, (width - 1) as nat)
    }
}

/// What a text adds to a digest: its bytes, and a byte that occurs in no text.
pub open spec fn text_material(s: Seq<char>) -> Seq<Seq<u8>> {
    seq![encode_utf8(s), seq![255u8]]
}

/// What a number of `width` bytes adds to a digest.
pub open spec fn number_material(n: nat, width: nat) -> Seq<Seq<u8>> {
    seq![low_bytes(n, width)]
}

/// What a flag adds to a digest.
pub open spec fn flag_material(b: bool) -> Seq<Seq<u8>> {
    number_material(
        if b {
            1
        } else {
            0
        },
        1,
    )
}

/// The digest of pieces of material.
pub open spec fn digest_of(material: Seq<Seq<u8>>) -> u64 {
    DefaultHasher::spec_finish(material)
}

/// A digest under way.
pub struct Digest {
    pub state: DefaultHasher,
}

impl Digest {
    /// The material that has gone in.
    pub open spec fn view(&self) -> Seq<Seq<u8>> {
        self.state@
    }

    /// A digest of nothing.
    pub fn new() -> (r: Digest)
        ensures
            r@ == Seq::<Seq<u8>>::empty(),
    {
        Digest { state: DefaultHasher::new() }
    }

    /// Adds a text.
    pub fn add_text(&mut self, s: &str)
        ensures
            final(self)@ == old(self)@ + text_material(s@),
    {
        let ghost before = self@;
        self.state.write(s.as_bytes());
        let mut end: Vec<u8> = Vec::new();
        end.push(255);
        self.state.write(end.as_slice());
        proof {
            assert(end@ =~= seq![255u8]);
            assert(self@ =~= before + text_material(s@));
        }
    }

    /// Adds the `width` low bytes of a number.
    pub fn add_low_bytes(&mut self, n: u64, width: u64)
        ensures
            final(self)@ == old(self)@ + number_material(n as nat, width as nat),
    {
        let ghost before = self@;
        let mut bytes: Vec<u8> = Vec::new();
        let mut rest: u64 = n;
        let mut left: u64 = width;
        proof {
            assert(bytes@ + low_bytes(n as nat, width as nat) =~= low_bytes(n as nat, width as nat));
        }
        while left > 0
            invariant
                bytes@ + low_bytes(rest as nat, left as nat) == low_bytes(n as nat, width as nat),
            decreases left,
        {
            let ghost b0 = bytes@;
            bytes.push((rest % 256) as u8);
            proof {
                assert(bytes@ + low_bytes((rest / 256) as nat, (left - 1) as nat) =~= b0 + low_bytes(
                    rest as nat,
                    left as nat,
                ));
            }
            rest = rest / 256;
            left = left - 1;
        }
        self.state.write(bytes.as_slice());
        proof {
            assert(bytes@ + low_bytes(rest as nat, 0) =~= bytes@);
            assert(self@ =~= before + number_material(n as nat, width as nat));
        }
    }

    /// Adds a number of eight bytes.
    pub fn add_number(&mut self, n: u64)
        ensures
            final(self)@ == old(self)@ + number_material(n as nat, 8),
    {
        self.add_low_bytes(n, 8);
    }

    /// Adds a flag.
    pub fn add_flag(&mut self, b: bool)
        ensures
            final(self)@ == old(self)@ + flag_material(b),
    {
        self.add_low_bytes(
            if b {
                1
            } else {
                0
            },
            1,
        );
    }

    /// The digest of what has gone in.
    pub fn finish(&self) -> (r: u64)
        ensures
            r == digest_of(self@),
    {
        self.state.finish()
    }
}

/// The digest of one text.
pub open spec fn text_digest(s: Seq<char>) -> u64 {
    digest_of(text_material(s))
}

/// The digest of one text.
pub fn digest_text(s: &str) -> (r: u64)
    ensures
        r == text_digest(s@),
{
    let mut d = Digest::new();
    d.add_text(s);
    proof {
        assert(d@ =~= text_material(s@));
    }
    d.finish()
}

/// A digest as 16 hexadecimal digits.
pub open spec fn hex16(n: u64) -> Seq<char> {
    fixed_digits(n as nat, 16, 16)
}

/// Appends a digest as 16 hexadecimal digits.
pub fn push_hex16(s: &mut String, n: u64)
    ensures
        final(s)@ == old(s)@ + hex16(n),
{
    push_fixed(s, n, 16, 16);
}

/// How many numbers `width` bytes can tell apart.
pub open spec fn room(width: nat) -> nat
    decreases width,
{
    if width == 0 {
        1
    } else {
        256 * room((width - 1) as nat)
    }
}

/// Numbers that fit are told apart by their low bytes.
pub proof fn lemma_low_bytes(a: nat, b: nat, width: nat)
    requires
        a < room(width),
        b < room(width),
        low_bytes(a, width) == low_bytes(b, width),
    ensures
        a == b,
    decreases width,
{
    if width > 0 {
        let w = (width - 1) as nat;
        let x = low_bytes(a, width);
        let y = low_bytes(b, width);
        assert(x[0] == (a % 256) as u8 && y[0] == (b % 256) as u8);
        assert(x.drop_first() =~= low_bytes(a / 256, w));
        assert(y.drop_first() =~= low_bytes(b / 256, w));
        lemma_low_bytes(a / 256, b / 256, w);
    }
}

/// The low bytes of a number are as many as asked for.
pub proof fn lemma_low_bytes_len(n: nat, width: nat)
    ensures
        low_bytes(n, width).len() == width,
    decreases width,
{
    if width > 0 {
        lemma_low_bytes_len(n / 256, (width - 1) as nat);
    }
}

/// Two numbers of eight bytes add the same to a digest only where they are the same.
pub proof fn lemma_number_told(a: u64, b: u64)
    ensures
        low_bytes(a as nat, 8) == low_bytes(b as nat, 8) ==> a == b,
{
    reveal_with_fuel(room, 9);
    if low_bytes(a as nat, 8) == low_bytes(b as nat, 8) {
        lemma_low_bytes(a as nat, b as nat, 8);
    }
}

/// Two numbers of four bytes add the same to a digest only where they are the same.
pub proof fn lemma_short_number_told(a: u32, b: u32)
    ensures
        low_bytes(a as nat, 4) == low_bytes(b as nat, 4) ==> a == b,
{
    reveal_with_fuel(room, 5);
    if low_bytes(a as nat, 4) == low_bytes(b as nat, 4) {
        lemma_low_bytes(a as nat, b as nat, 4);
    }
}

/// Two flags add the same to a digest only where they are the same.
pub proof fn lemma_flag_told(a: bool, b: bool)
    ensures
        flag_material(a)[0] == flag_material(b)[0] ==> a == b,
{
    assert(low_bytes(1, 1)[0] == 1u8);
    assert(low_bytes(0, 1)[0] == 0u8);
    assert(flag_material(true)[0] == low_bytes(1, 1));
    assert(flag_material(false)[0] == low_bytes(0, 1));
}

/// Two texts add the same to a digest only where they are the same.
pub proof fn lemma_text_told(a: Seq<char>, b: Seq<char>)
    ensures
        encode_utf8(a) == encode_utf8(b) ==> a == b,
{
    encode_utf8_decode_utf8(a);
    encode_utf8_decode_utf8(b);
}

} // verus!
