//! The symbols of a number in Crockford's base 32, and the sinks that take
//! them.

use vstd::prelude::*;
use crate::text::{char_of, is_digit, is_upper, lemma_text_of_injective, text_of};

verus! {

/// A destination that takes bytes one at a time.
///
/// What a sink holds is modelled as text, one character for each byte it has
/// taken. A sink may keep a byte in another form than the one it was given (a
/// formatter folds letters to one case), and it may hold only so many bytes.
pub trait Write {
    /// What the sink holds, read as text, in the order of arrival.
    spec fn written(&self) -> Seq<char>;

    /// The most bytes the sink can hold, or `None` where nothing bounds it.
    spec fn limit(&self) -> Option<nat>;

    /// The form in which the sink keeps the byte `u`.
    spec fn kept(&self, u: u8) -> u8;

    /// Appends `u`, in the form in which the sink keeps it. The sink must
    /// not be full.
    fn write(&mut self, u: u8)
        requires
            old(self).limit() matches Some(m) ==> old(self).written().len() < m,
        ensures
            final(self).written() == old(self).written().push(char_of(old(self).kept(u))),
            final(self).limit() == old(self).limit(),
            forall|b: u8| #[trigger] final(self).kept(b) == old(self).kept(b),
    ;
}

/// Whether `w` can take `k` more bytes.
pub open spec fn has_room<W: Write + ?Sized>(w: &W, k: nat) -> bool {
    w.limit() matches Some(m) ==> w.written().len() + k <= m
}

/// `bytes` as text, each byte in the form in which `w` keeps it.
pub open spec fn as_kept<W: Write + ?Sized>(w: &W, bytes: Seq<u8>) -> Seq<char> {
    bytes.map_values(|b: u8| char_of(w.kept(b)))
}

/// Whether `after` is what `before` becomes by taking `bytes` in order: it
/// holds what `before` held and then the bytes as kept, and it bounds and
/// keeps bytes as `before` did.
pub open spec fn took<W: Write + ?Sized>(after: &W, before: &W, bytes: Seq<u8>) -> bool {
    &&& after.written() =~= before.written() + as_kept(before, bytes)
    &&& after.limit() == before.limit()
    &&& forall|b: u8| #[trigger] after.kept(b) == before.kept(b)
}

/// A vector of bytes takes any number of bytes and keeps each as it is
/// given.
impl Write for Vec<u8> {
    open spec fn written(&self) -> Seq<char> {
        text_of(self@)
    }

    open spec fn limit(&self) -> Option<nat> {
        None
    }

    open spec fn kept(&self, u: u8) -> u8 {
        u
    }

    fn write(&mut self, u: u8)
        ensures
            final(self)@ == old(self)@.push(u),
    {
        self.push(u);
    }
}

/// A string takes any number of bytes and keeps each as the character whose
/// code point it is.
impl Write for String {
    open spec fn written(&self) -> Seq<char> {
        self@
    }

    open spec fn limit(&self) -> Option<nat> {
        None
    }

    open spec fn kept(&self, u: u8) -> u8 {
        u
    }

    fn write(&mut self, u: u8)
        ensures
            final(self)@ == old(self)@.push(char_of(u)),
    {
        self.push(u as char);
    }
}

/// The thirty-two symbols, in the order of their values: the ten digits, then
/// the capital letters without `I`, `L`, `O` and `U`.
pub const ALPHABET: [u8; 32] = [
    0x30, 0x31, 0x32, 0x33, 0x34, 0x35, 0x36, 0x37,  // 0 1 2 3 4 5 6 7
    0x38, 0x39, 0x41, 0x42, 0x43, 0x44, 0x45, 0x46,  // 8 9 A B C D E F
    0x47, 0x48, 0x4a, 0x4b, 0x4d, 0x4e, 0x50, 0x51,  // G H J K M N P Q
    0x52, 0x53, 0x54, 0x56, 0x57, 0x58, 0x59, 0x5a,  // R S T V W X Y Z
];

/// The symbol that stands for the value `d`, for `d` below 32.
pub open spec fn symbol(d: nat) -> u8
    recommends
        d < 32,
{
    ALPHABET@[d as int]
}

/// The symbols of `n`, most significant first: its digits in base 32, without
/// leading zeros, each written as its symbol. Zero is the single symbol `0`.
pub open spec fn symbols(n: nat) -> Seq<u8>
    decreases n,
{
    if n < 32 {
        seq![symbol(n)]
    } else {
        symbols(n / 32).push(symbol(n % 32))
    }
}

/// The symbol for the five bits of `n` that start `shift` bits up.
fn symbol_at(n: u64, shift: u32) -> (s: u8)
    requires
        shift <= 60,
    ensures
        s == symbol(((n >> shift) % 32) as nat),
{
    let d: u64 = (n >> shift) & 31;
    assert(d == (n >> shift) % 32 && d < 32) by (bit_vector)
        requires
            d == (n >> shift) & 31,
    ;
    ALPHABET[d as usize]
}

/// Writes the symbols of `n` to `w`, most significant first. The sink must
/// have room for them.
pub fn encode_into<W: Write>(n: u64, w: &mut W)
    requires
        has_room(old(w), symbols(n as nat).len()),
    ensures
        took(final(w), old(w), symbols(n as nat)),
{
    // Find the most significant symbol: step down over the leading groups
    // of five bits that are zero.
    let mut shift: u32 = 60;
    assert((n >> 60u32) >> 5u32 == 0) by (bit_vector);
    while shift > 0 && n >> shift == 0
        invariant
            shift <= 60,
            shift % 5 == 0,
            (n >> shift) >> 5u32 == 0,
        decreases shift,
    {
        assert((n >> ((shift - 5) as u32)) >> 5u32 == 0) by (bit_vector)
            requires
                5 <= shift <= 60,
                n >> shift == 0,
        ;
        shift -= 5;
    }
    proof {
        lemma_symbols_len_above(n, shift);
        assert((n >> shift) >> 5u32 == (n >> shift) / 32) by (bit_vector);
    }
    w.write(symbol_at(n, shift));
    // Then one symbol for each group of five bits below it.
    while shift > 0
        invariant
            shift <= 60,
            shift % 5 == 0,
            shift > 0 ==> n >> shift != 0,
            has_room(old(w), symbols(n as nat).len()),
            w.written().len() + shift / 5 == old(w).written().len() + symbols(n as nat).len(),
            took(w, old(w), symbols((n >> shift) as nat)),
        decreases shift,
    {
        assert((n >> ((shift - 5) as u32)) / 32 == n >> shift) by (bit_vector)
            requires
                5 <= shift <= 60,
        ;
        shift -= 5;
        w.write(symbol_at(n, shift));
    }
    assert(n >> 0u32 == n) by (bit_vector);
}

/// Where `shift` is a multiple of five and the bits of `n` from `shift` up
/// hold a value from 1 to 31, or `shift` is zero and `n` is below 32, `n`
/// has one symbol for those bits and one more for each five bits below.
proof fn lemma_symbols_len_above(n: u64, shift: u32)
    requires
        shift <= 60,
        shift % 5 == 0,
        (n >> shift) >> 5u32 == 0,
        shift > 0 ==> n >> shift != 0,
    ensures
        symbols(n as nat).len() == shift / 5 + 1,
{
    assert((n >> shift) >> 5u32 == (n >> shift) / 32) by (bit_vector);
    lemma_symbols_len_from(n, shift, 0);
    assert(n >> 0u32 == n) by (bit_vector);
}

/// With the same `shift`, the bits of `n` from `low` up have one symbol more
/// for each five bits between `low` and `shift`.
proof fn lemma_symbols_len_from(n: u64, shift: u32, low: u32)
    requires
        low <= shift <= 60,
        shift % 5 == 0,
        low % 5 == 0,
        (n >> shift) / 32 == 0,
        shift > 0 ==> n >> shift != 0,
    ensures
        symbols((n >> low) as nat).len() == (shift - low) / 5 + 1,
    decreases shift - low,
{
    if low < shift {
        let up: u32 = (low + 5) as u32;
        lemma_symbols_len_from(n, shift, up);
        assert((n >> low) / 32 == n >> up && (n >> shift != 0 ==> n >> up != 0)) by (bit_vector)
            requires
                up == low + 5,
                up <= shift <= 60,
        ;
    }
}

/// A 64-bit number has at least one symbol and at most thirteen.
pub proof fn lemma_symbols_len(n: u64)
    ensures
        1 <= symbols(n as nat).len() <= 13,
{
    reveal_with_fuel(symbols, 14);
}

/// Every symbol is a digit or a capital letter.
pub proof fn lemma_symbol_kind(d: nat)
    requires
        d < 32,
    ensures
        is_digit(char_of(symbol(d))) || is_upper(char_of(symbol(d))),
{
}

/// Every symbol of a number is a digit or a capital letter.
pub proof fn lemma_symbols_kind(n: nat)
    ensures
        forall|i: int|
            0 <= i < symbols(n).len() ==> {
                let c = char_of(#[trigger] symbols(n)[i]);
                is_digit(c) || is_upper(c)
            },
    decreases n,
{
    if n < 32 {
        lemma_symbol_kind(n);
    } else {
        let upper = symbols(n / 32);
        lemma_symbols_kind(n / 32);
        lemma_symbol_kind(n % 32);
        assert forall|i: int| 0 <= i < symbols(n).len() implies {
            let c = char_of(#[trigger] symbols(n)[i]);
            is_digit(c) || is_upper(c)
        } by {
            if i < upper.len() {
                assert(symbols(n)[i] == upper[i]);
            }
        }
    }
}

/// What a vector of bytes took stands at its end, byte for byte.
pub proof fn lemma_vec_took(after: &Vec<u8>, before: &Vec<u8>, bytes: Seq<u8>)
    requires
        took(after, before, bytes),
    ensures
        after@ == before@ + bytes,
{
    assert(as_kept(before, bytes) =~= text_of(bytes));
    assert(text_of(before@ + bytes) =~= text_of(before@) + text_of(bytes));
    lemma_text_of_injective(after@, before@ + bytes);
}

} // verus!
