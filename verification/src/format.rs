//! The encoder, which carries the choice of letter case, and the formatter,
//! which holds the symbols of one number in that case.

use vstd::prelude::*;
use vstd::utf8::{encode_utf8, is_ascii_chars};
use crate::encoding::{
    as_kept, encode_into, has_room, lemma_symbols_kind, lemma_symbols_len, lemma_vec_took, symbols,
    took, Write,
};
use crate::text::{
    char_of, is_digit, is_lower, is_upper, lemma_ascii_bytes, lemma_text_of_injective, lowercase,
    text_of,
};

verus! {

/// The case in which letters are written.
#[derive(Copy, Clone, Debug)]
pub enum Case {
    Upper,
    Lower,
}

impl Case {
    /// Whether this is [`Case::Upper`].
    pub fn is_uppercase(&self) -> (b: bool)
        ensures
            b == (*self is Upper),
    {
        match *self {
            Case::Upper => true,
            Case::Lower => false,
        }
    }

    /// The form that the byte `u` takes in this case. Symbols arrive as
    /// digits and capital letters: for uppercase a byte stays as it is, for
    /// lowercase it is folded to lowercase.
    pub open spec fn apply(self, u: u8) -> u8 {
        match self {
            Case::Upper => u,
            Case::Lower => lowercase(u),
        }
    }
}

/// An encoder with formatting options.
///
/// Values encoded with an `Encoder` are formatted as its options say. All of
/// its fields are public, so that one can be written down as a constant.
#[derive(Debug)]
pub struct Encoder {
    pub case: Case,
}

impl Encoder {
    /// What [`Encoder::new`] returns.
    pub open spec fn spec_new() -> Self {
        Encoder { case: Case::Lower }
    }

    /// What [`Encoder::with_case`] returns.
    pub open spec fn spec_with_case(case: Case) -> Self {
        Encoder { case }
    }

    /// An encoder that writes letters in lowercase.
    #[verifier::when_used_as_spec(spec_new)]
    pub fn new() -> (e: Self)
        ensures
            e == Self::spec_new(),
    {
        Self { case: Case::Lower }
    }

    /// An encoder that writes letters in `case`.
    #[verifier::when_used_as_spec(spec_with_case)]
    pub fn with_case(case: Case) -> (e: Self)
        ensures
            e == Self::spec_with_case(case),
    {
        Self { case }
    }

    /// The bytes that stand for `n` in this encoder's case: the symbols of
    /// `n`, most significant first, each in that case.
    pub open spec fn encoded(&self, n: u64) -> Seq<u8> {
        symbols(n as nat).map_values(|u: u8| self.case.apply(u))
    }

    /// Encodes `n`: the formatter returned holds the symbols of `n` in this
    /// encoder's case, at least one and at most [`CAPACITY`] of them.
    pub fn encode(&self, n: u64) -> (f: Formatter<'_>)
        ensures
            f.encoder() == *self,
            f@ == self.encoded(n),
            f.buffer() == padded(self.encoded(n)),
            1 <= f@.len() <= CAPACITY,
    {
        let mut f = Formatter::new(self);
        proof {
            lemma_symbols_len(n);
        }
        encode_into(n, &mut f);
        proof {
            assert(f.kept(0x41) == self.case.apply(0x41));
            assert(f.text() =~= text_of(self.encoded(n)));
            lemma_text_of_injective(f@, self.encoded(n));
            use_type_invariant(&f);
            assert(f.buffer() =~= padded(f@));
        }
        f
    }
}

impl Default for Encoder {
    /// The same as [`Encoder::new`]: an encoder for lowercase.
    fn default() -> (e: Self)
        ensures
            e == Encoder::new(),
    {
        Self::new()
    }
}

/// The most symbols that a 64-bit number has.
pub const CAPACITY: usize = 13;

/// `bytes` followed by as many zero bytes as fill it up to [`CAPACITY`]:
/// the buffer of a formatter that holds `bytes`.
pub open spec fn padded(bytes: Seq<u8>) -> Seq<u8> {
    bytes + Seq::new((CAPACITY - bytes.len()) as nat, |i: int| 0u8)
}

/// The symbols of one number, in the case of the encoder that made it.
pub struct Formatter<'e> {
    encoder: &'e Encoder,
    len: usize,
    data: [u8; CAPACITY],
}

impl<'e> Formatter<'e> {
    /// No more bytes are held than the buffer has, and the buffer is zero
    /// past the bytes held.
    #[verifier::type_invariant]
    spec fn inv(self) -> bool {
        &&& self.len <= CAPACITY
        &&& forall|i: int| self.len <= i < CAPACITY ==> self.data@[i] == 0
    }

    /// The encoder whose case this formatter applies.
    pub closed spec fn encoder(&self) -> Encoder {
        *self.encoder
    }

    /// The whole buffer, all [`CAPACITY`] bytes of it: the bytes held and,
    /// past them, the bytes not yet written.
    pub closed spec fn buffer(&self) -> Seq<u8> {
        self.data@
    }

    /// An empty formatter that applies the case of `encoder`. Its buffer is
    /// zero throughout.
    pub fn new(encoder: &'e Encoder) -> (f: Self)
        ensures
            f@ == Seq::<u8>::empty(),
            f.buffer() == padded(Seq::<u8>::empty()),
            f.encoder() == *encoder,
    {
        Formatter { encoder, len: 0, data: [0; CAPACITY] }
    }

    /// The bytes held, read as text: one character for each byte.
    pub open spec fn text(&self) -> Seq<char> {
        text_of(self@)
    }

    /// The bytes held, as a new string: each byte becomes the character
    /// whose code point it is, in the order of arrival.
    pub fn render(&self) -> (s: String)
        ensures
            s@ == self.text(),
            s@.len() <= CAPACITY,
    {
        proof {
            use_type_invariant(self);
        }
        let mut s = String::with_capacity(self.len);
        for idx in 0..self.len
            invariant
                self.len <= CAPACITY,
                s@ == text_of(self@.take(idx as int)),
        {
            s.push(self.data[idx] as char);
        }
        s
    }

    /// Hands the bytes held to `w`, one at a time, in the order of arrival.
    /// The formatter stays as it is.
    pub fn render_into<W: Write>(&self, w: &mut W)
        requires
            has_room(old(w), self@.len()),
        ensures
            took(final(w), old(w), self@),
    {
        proof {
            use_type_invariant(self);
        }
        for idx in 0..self.len
            invariant
                self.len <= CAPACITY,
                has_room(old(w), self@.len()),
                took(w, old(w), self@.take(idx as int)),
        {
            w.write(self.data[idx]);
        }
    }
}

impl<'e> Write for Formatter<'e> {
    /// A formatter holds the text of its bytes.
    open spec fn written(&self) -> Seq<char> {
        self.text()
    }

    /// A formatter holds at most [`CAPACITY`] bytes.
    open spec fn limit(&self) -> Option<nat> {
        Some(CAPACITY as nat)
    }

    /// A formatter keeps a byte in the case of its encoder.
    open spec fn kept(&self, u: u8) -> u8 {
        self.encoder().case.apply(u)
    }

    /// Appends `u` in the case of the encoder. The formatter must hold fewer
    /// than [`CAPACITY`] bytes.
    fn write(&mut self, mut u: u8)
        ensures
            final(self)@ == old(self)@.push(old(self).encoder().case.apply(u)),
            final(self).buffer() == old(self).buffer().update(
                old(self)@.len() as int,
                old(self).encoder().case.apply(u),
            ),
            final(self).buffer() == padded(final(self)@),
            final(self).encoder() == old(self).encoder(),
    {
        proof {
            use_type_invariant(&*self);
        }
        if !self.encoder.case.is_uppercase() {
            u = u.to_ascii_lowercase();
        }
        // The length goes first: the buffer is zero past the bytes held at
        // every step, so the new byte must count as held when it lands.
        let at: usize = self.len;
        self.len = at + 1;
        self.data[at] = u;
    }
}

impl<'e> View for Formatter<'e> {
    type V = Seq<u8>;

    /// The bytes held, in the order in which they arrived. The rest of a
    /// formatter is stated by [`Formatter::encoder`] and, for the buffer
    /// past these bytes, by [`Formatter::buffer`].
    closed spec fn view(&self) -> Seq<u8> {
        self.data@.subrange(0, self.len as int)
    }
}

/// The case of the output. Of the text that stands for `n`, an encoder for
/// lowercase gives no capital letter and an encoder for uppercase no small
/// letter; a letter is the symbol's own letter in the encoder's case, and a
/// digit is the symbol itself.
pub proof fn lemma_text_case(e: Encoder, n: u64)
    ensures
        e.encoded(n).len() == symbols(n as nat).len(),
        forall|i: int|
            0 <= i < e.encoded(n).len() ==> {
                let c = #[trigger] text_of(e.encoded(n))[i];
                let s = symbols(n as nat)[i];
                &&& e.case is Lower ==> !is_upper(c) && c == char_of(lowercase(s))
                &&& e.case is Upper ==> !is_lower(c) && c == char_of(s)
                &&& is_digit(c) || is_digit(char_of(s)) ==> c == char_of(s)
            },
{
    lemma_symbols_kind(n as nat);
    assert forall|i: int| 0 <= i < e.encoded(n).len() implies {
        let c = #[trigger] text_of(e.encoded(n))[i];
        let s = symbols(n as nat)[i];
        &&& e.case is Lower ==> !is_upper(c) && c == char_of(lowercase(s))
        &&& e.case is Upper ==> !is_lower(c) && c == char_of(s)
        &&& is_digit(c) || is_digit(char_of(s)) ==> c == char_of(s)
    } by {
        let s = symbols(n as nat)[i];
        assert(is_digit(char_of(s)) || is_upper(char_of(s)));
        assert(e.encoded(n)[i] == e.case.apply(s));
    }
}

/// Digits do not depend on the case. The texts that an encoder for lowercase
/// and one for uppercase give for `n` are equally long, and wherever one of
/// them holds a digit the other holds the same digit.
pub proof fn lemma_digits_in_both_cases(lower: Encoder, upper: Encoder, n: u64)
    requires
        lower.case is Lower,
        upper.case is Upper,
    ensures
        lower.encoded(n).len() == upper.encoded(n).len(),
        forall|i: int|
            0 <= i < lower.encoded(n).len() ==> {
                let l = #[trigger] text_of(lower.encoded(n))[i];
                let u = text_of(upper.encoded(n))[i];
                is_digit(l) || is_digit(u) ==> l == u
            },
{
    lemma_text_case(lower, n);
    lemma_text_case(upper, n);
    assert forall|i: int| 0 <= i < lower.encoded(n).len() implies {
        let l = #[trigger] text_of(lower.encoded(n))[i];
        let u = text_of(upper.encoded(n))[i];
        is_digit(l) || is_digit(u) ==> l == u
    } by {
        assert(text_of(upper.encoded(n))[i] == char_of(symbols(n as nat)[i]));
    }
}

/// `render` and `render_into` give the same. Whenever a sink that keeps
/// bytes as they are given has taken the bytes of `f`, as `render_into`
/// hands them over, it holds what it held before and then the very text
/// that `render` returns; so any two such sinks that were empty hold the
/// same.
pub proof fn lemma_render_into_gives_text<W: Write>(f: &Formatter, before: &W, after: &W)
    requires
        took(after, before, f@),
        forall|b: u8| #[trigger] before.kept(b) == b,
    ensures
        after.written() == before.written() + f.text(),
        before.written().len() == 0 ==> after.written() == f.text(),
{
    assert(as_kept(before, f@) =~= f.text());
}

/// Rendering again gives the same again. Two strings that `render` returned
/// for `f` hold the same text, and two sinks that held the same and keep
/// bytes alike hold the same after each has taken the bytes of `f`.
pub proof fn lemma_render_twice<W: Write>(
    f: &Formatter,
    first: &String,
    second: &String,
    before1: &W,
    after1: &W,
    before2: &W,
    after2: &W,
)
    requires
        first@ == f.text(),
        second@ == f.text(),
        took(after1, before1, f@),
        took(after2, before2, f@),
        before1.written() == before2.written(),
        forall|b: u8| #[trigger] before1.kept(b) == before2.kept(b),
    ensures
        first@ == second@,
        after1.written() == after2.written(),
{
    assert(as_kept(before1, f@) =~= as_kept(before2, f@));
}

/// The bytes that `render_into` hands to a vector are the bytes of the
/// formatter, and where these are all ASCII, as those of every encoded
/// number are, they are the bytes of the string that `render` returns.
pub proof fn lemma_render_into_gives_bytes(f: &Formatter, before: &Vec<u8>, after: &Vec<u8>)
    requires
        took(after, before, f@),
    ensures
        after@ == before@ + f@,
        is_ascii_chars(f.text()) ==> after@ == before@ + encode_utf8(f.text()),
{
    lemma_vec_took(after, before, f@);
    if is_ascii_chars(f.text()) {
        lemma_ascii_bytes(f@);
    }
}

/// The text that stands for a number is ASCII, at least one character long
/// and at most [`CAPACITY`]; zero is the single digit `0`.
pub proof fn lemma_text_bounds(e: Encoder, n: u64)
    ensures
        1 <= e.encoded(n).len() <= CAPACITY,
        is_ascii_chars(text_of(e.encoded(n))),
        n == 0 ==> text_of(e.encoded(n)) == seq!['0'],
{
    lemma_symbols_len(n);
    lemma_text_case(e, n);
    lemma_symbols_kind(n as nat);
    assert forall|i: int| 0 <= i < text_of(e.encoded(n)).len() implies '\0' <= #[trigger] text_of(
        e.encoded(n),
    )[i] <= '\u{7f}' by {
        let s = symbols(n as nat)[i];
        assert(is_digit(char_of(s)) || is_upper(char_of(s)));
    }
    if n == 0 {
        assert(text_of(e.encoded(n)) =~= seq!['0']);
    }
}

/// The encoder made by default is the one for lowercase: it gives for every
/// number what an encoder made with [`Case::Lower`] gives.
pub proof fn lemma_default_is_lowercase(d: Encoder, n: u64)
    requires
        d == Encoder::new(),
    ensures
        d == Encoder::with_case(Case::Lower),
        d.encoded(n) == Encoder::with_case(Case::Lower).encoded(n),
{
}

/// What an encoder gives for a number depends on its case and on the number
/// alone: two encoders of one case give the same for the same number.
pub proof fn lemma_same_case_same_text(a: Encoder, b: Encoder, n: u64)
    requires
        a.case == b.case,
    ensures
        a.encoded(n) == b.encoded(n),
        text_of(a.encoded(n)) == text_of(b.encoded(n)),
{
}

} // verus!
