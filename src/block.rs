use vstd::arithmetic::power2::{lemma2_to64, lemma2_to64_rest, pow2};
use vstd::prelude::*;

use crate::letters::{letter_of_ordinal, lemma_ordinal_in_alphabet, CodecError, Letter, LETTER_COUNT};

verus! {

/// Eight symbols, the unit of compression.
#[derive(Clone, Copy, Debug, PartialEq, Eq)]
pub struct ParsedLetters(pub [Letter; 8]);

/// Eight 5-bit ordinals packed into five bytes.
#[derive(Clone, Copy, Debug, PartialEq, Eq)]
pub struct CompressedLetters(pub [u8; 5]);

impl View for ParsedLetters {
    type V = Seq<Letter>;

    open spec fn view(&self) -> Seq<Letter> {
        self.0@
    }
}

impl View for CompressedLetters {
    type V = Seq<u8>;

    open spec fn view(&self) -> Seq<u8> {
        self.0@
    }
}

/// The 40-bit value of a group: symbol 0 in the most significant 5-bit
/// field, symbol 7 in the least significant one.
pub open spec fn group_value(g: Seq<Letter>) -> int {
    g[0].ordinal() * 0x8_0000_0000 + g[1].ordinal() * 0x4000_0000 + g[2].ordinal() * 0x200_0000
        + g[3].ordinal() * 0x10_0000 + g[4].ordinal() * 0x8000 + g[5].ordinal() * 0x400
        + g[6].ordinal() * 0x20 + g[7].ordinal() as int
}

/// The five bytes of a value, least significant byte first.
pub open spec fn bytes_of_value(v: int) -> Seq<u8> {
    seq![
        (v % 0x100) as u8,
        (v / 0x100 % 0x100) as u8,
        (v / 0x1_0000 % 0x100) as u8,
        (v / 0x100_0000 % 0x100) as u8,
        (v / 0x1_0000_0000 % 0x100) as u8,
    ]
}

/// The value that five bytes hold, least significant byte first.
pub open spec fn value_of_bytes(b: Seq<u8>) -> int {
    b[0] + b[1] * 0x100 + b[2] * 0x1_0000 + b[3] * 0x100_0000 + b[4] * 0x1_0000_0000
}

/// The `i`-th 5-bit field of a 40-bit value, counted from the most
/// significant one.
pub open spec fn field_of(v: int, i: int) -> int {
    (v / pow2((5 * (7 - i)) as nat) as int) % 32
}

/// The block that a group packs to.
pub open spec fn packed(g: Seq<Letter>) -> Seq<u8> {
    bytes_of_value(group_value(g))
}

/// The group that a block unpacks to, or the error for a field that names
/// no symbol.
pub open spec fn unpacked(b: Seq<u8>) -> Result<Seq<Letter>, CodecError> {
    let v = value_of_bytes(b);
    if forall|i: int| 0 <= i < 8 ==> #[trigger] field_of(v, i) < LETTER_COUNT {
        Ok(Seq::new(8, |i: int| letter_of_ordinal(field_of(v, i))->Some_0))
    } else {
        Err(CodecError::InvalidSymbolOrdinal(LETTER_COUNT))
    }
}

proof fn lemma_or_of_fields(o0: u64, o1: u64, o2: u64, o3: u64, o4: u64, o5: u64, o6: u64, o7: u64)
    by (bit_vector)
    requires
        o0 < 32, o1 < 32, o2 < 32, o3 < 32, o4 < 32, o5 < 32, o6 < 32, o7 < 32,
    ensures
        (o0 << 35) | (o1 << 30) | (o2 << 25) | (o3 << 20) | (o4 << 15) | (o5 << 10) | (o6 << 5) | o7
            == o0 * 0x8_0000_0000 + o1 * 0x4000_0000 + o2 * 0x200_0000 + o3 * 0x10_0000 + o4
            * 0x8000 + o5 * 0x400 + o6 * 0x20 + o7,
{
}

proof fn lemma_fields_of_sum(o0: u64, o1: u64, o2: u64, o3: u64, o4: u64, o5: u64, o6: u64, o7: u64)
    by (bit_vector)
    requires
        o0 < 32, o1 < 32, o2 < 32, o3 < 32, o4 < 32, o5 < 32, o6 < 32, o7 < 32,
    ensures
        ({
            let v = o0 * 0x8_0000_0000 + o1 * 0x4000_0000 + o2 * 0x200_0000 + o3 * 0x10_0000 + o4
                * 0x8000 + o5 * 0x400 + o6 * 0x20 + o7;
            &&& v < 0x100_0000_0000
            &&& v / 0x8_0000_0000 % 32 == o0
            &&& v / 0x4000_0000 % 32 == o1
            &&& v / 0x200_0000 % 32 == o2
            &&& v / 0x10_0000 % 32 == o3
            &&& v / 0x8000 % 32 == o4
            &&& v / 0x400 % 32 == o5
            &&& v / 0x20 % 32 == o6
            &&& v / 1 % 32 == o7
        }),
{
}

proof fn lemma_bytes_of_word(v: u64)
    by (bit_vector)
    requires
        v < 0x100_0000_0000,
    ensures
        v & 0xff == v % 0x100,
        (v >> 8) & 0xff == v / 0x100 % 0x100,
        (v >> 16) & 0xff == v / 0x1_0000 % 0x100,
        (v >> 24) & 0xff == v / 0x100_0000 % 0x100,
        (v >> 32) & 0xff == v / 0x1_0000_0000 % 0x100,
        v % 0x100 + (v / 0x100 % 0x100) * 0x100 + (v / 0x1_0000 % 0x100) * 0x1_0000 + (v
            / 0x100_0000 % 0x100) * 0x100_0000 + (v / 0x1_0000_0000 % 0x100) * 0x1_0000_0000 == v,
{
}

proof fn lemma_word_of_bytes(b0: u64, b1: u64, b2: u64, b3: u64, b4: u64)
    by (bit_vector)
    requires
        b0 < 0x100, b1 < 0x100, b2 < 0x100, b3 < 0x100, b4 < 0x100,
    ensures
        b0 | (b1 << 8) | (b2 << 16) | (b3 << 24) | (b4 << 32) == b0 + b1 * 0x100 + b2 * 0x1_0000
            + b3 * 0x100_0000 + b4 * 0x1_0000_0000,
{
}

proof fn lemma_fields_of_word(v: u64)
    by (bit_vector)
    ensures
        (v >> 35) & 0x1f == v / 0x8_0000_0000 % 32,
        (v >> 30) & 0x1f == v / 0x4000_0000 % 32,
        (v >> 25) & 0x1f == v / 0x200_0000 % 32,
        (v >> 20) & 0x1f == v / 0x10_0000 % 32,
        (v >> 15) & 0x1f == v / 0x8000 % 32,
        (v >> 10) & 0x1f == v / 0x400 % 32,
        (v >> 5) & 0x1f == v / 0x20 % 32,
        v & 0x1f == v / 1 % 32,
{
}

proof fn lemma_field_weights()
    ensures
        pow2(35) == 0x8_0000_0000,
        pow2(30) == 0x4000_0000,
        pow2(25) == 0x200_0000,
        pow2(20) == 0x10_0000,
        pow2(15) == 0x8000,
        pow2(10) == 0x400,
        pow2(5) == 0x20,
        pow2(0) == 1,
{
    lemma2_to64();
    lemma2_to64_rest();
}

/// The fields of a word, as the unpacker extracts them with shifts and masks.
proof fn lemma_fields_by_shifts(v: u64)
    ensures
        field_of(v as int, 0) == (v >> 35) & 0x1f,
        field_of(v as int, 1) == (v >> 30) & 0x1f,
        field_of(v as int, 2) == (v >> 25) & 0x1f,
        field_of(v as int, 3) == (v >> 20) & 0x1f,
        field_of(v as int, 4) == (v >> 15) & 0x1f,
        field_of(v as int, 5) == (v >> 10) & 0x1f,
        field_of(v as int, 6) == (v >> 5) & 0x1f,
        field_of(v as int, 7) == v & 0x1f,
{
    lemma_fields_of_word(v);
    lemma_field_weights();
}

/// The symbol that a field names, or `InvalidSymbolOrdinal`.
fn letter_of_field(field: u8) -> (r: Result<Letter, CodecError>)
    ensures
        match letter_of_ordinal(field as int) {
            Some(l) => r == Ok::<Letter, CodecError>(l),
            None => r == Err::<Letter, CodecError>(CodecError::InvalidSymbolOrdinal(field)),
        },
{
    match Letter::from_code(field) {
        Some(l) => Ok(l),
        None => Err(CodecError::InvalidSymbolOrdinal(field)),
    }
}

impl CompressedLetters {
    /// Packs a group of eight symbols into five bytes.
    #[verifier::rlimit(50)]
    pub fn from_parsed_words(value: &ParsedLetters) -> (r: Self)
        ensures
            r@ == packed(value@),
    {
        let g = &value.0;
        let o0 = g[0].code() as u64;
        let o1 = g[1].code() as u64;
        let o2 = g[2].code() as u64;
        let o3 = g[3].code() as u64;
        let o4 = g[4].code() as u64;
        let o5 = g[5].code() as u64;
        let o6 = g[6].code() as u64;
        let o7 = g[7].code() as u64;
        let v: u64 = (o0 << 35) | (o1 << 30) | (o2 << 25) | (o3 << 20) | (o4 << 15) | (o5 << 10)
            | (o6 << 5) | o7;
        proof {
            lemma_or_of_fields(o0, o1, o2, o3, o4, o5, o6, o7);
            lemma_fields_of_sum(o0, o1, o2, o3, o4, o5, o6, o7);
            lemma_bytes_of_word(v);
        }
        let ghost gv = group_value(value@);
        assert(v == gv);
        let r = CompressedLetters(
            [
                (v & 0xff) as u8,
                ((v >> 8) & 0xff) as u8,
                ((v >> 16) & 0xff) as u8,
                ((v >> 24) & 0xff) as u8,
                ((v >> 32) & 0xff) as u8,
            ],
        );
        assert(r@ =~= bytes_of_value(gv));
        r
    }
}

impl ParsedLetters {
    /// Unpacks five bytes into eight symbols; fails with
    /// `InvalidSymbolOrdinal` where a field names no symbol.
    pub fn from_compressed_words(value: &CompressedLetters) -> (r: Result<Self, CodecError>)
        ensures
            match unpacked(value@) {
                Ok(g) => r is Ok && r->Ok_0@ == g,
                Err(e) => r == Err::<Self, CodecError>(e),
            },
    {
        let b = &value.0;
        let b0 = b[0] as u64;
        let b1 = b[1] as u64;
        let b2 = b[2] as u64;
        let b3 = b[3] as u64;
        let b4 = b[4] as u64;
        let v: u64 = b0 | (b1 << 8) | (b2 << 16) | (b3 << 24) | (b4 << 32);
        proof {
            lemma_word_of_bytes(b0, b1, b2, b3, b4);
            lemma_fields_by_shifts(v);
        }
        let ghost gv = value_of_bytes(value@);
        assert(v == gv);
        let l0 = letter_of_field(((v >> 35) & 0x1f) as u8);
        let l1 = letter_of_field(((v >> 30) & 0x1f) as u8);
        let l2 = letter_of_field(((v >> 25) & 0x1f) as u8);
        let l3 = letter_of_field(((v >> 20) & 0x1f) as u8);
        let l4 = letter_of_field(((v >> 15) & 0x1f) as u8);
        let l5 = letter_of_field(((v >> 10) & 0x1f) as u8);
        let l6 = letter_of_field(((v >> 5) & 0x1f) as u8);
        let l7 = letter_of_field((v & 0x1f) as u8);
        match (l0, l1, l2, l3, l4, l5, l6, l7) {
            (Ok(a0), Ok(a1), Ok(a2), Ok(a3), Ok(a4), Ok(a5), Ok(a6), Ok(a7)) => {
                let r = ParsedLetters([a0, a1, a2, a3, a4, a5, a6, a7]);
                assert(r@ =~= Seq::new(8, |i: int| letter_of_ordinal(field_of(gv, i))->Some_0));
                Ok(r)
            },
            _ => {
                Err(CodecError::InvalidSymbolOrdinal(LETTER_COUNT))
            },
        }
    }
}

/// Unpacking a packed group gives the group back.
pub proof fn lemma_unpack_pack(g: Seq<Letter>)
    requires
        g.len() == 8,
    ensures
        unpacked(packed(g)) == Ok::<Seq<Letter>, CodecError>(g),
{
    let o0 = g[0].ordinal() as u64;
    let o1 = g[1].ordinal() as u64;
    let o2 = g[2].ordinal() as u64;
    let o3 = g[3].ordinal() as u64;
    let o4 = g[4].ordinal() as u64;
    let o5 = g[5].ordinal() as u64;
    let o6 = g[6].ordinal() as u64;
    let o7 = g[7].ordinal() as u64;
    assert forall|i: int| 0 <= i < 8 implies #[trigger] g[i].ordinal() < 31 by {
        lemma_ordinal_in_alphabet(g[i]);
    }
    lemma_fields_of_sum(o0, o1, o2, o3, o4, o5, o6, o7);
    let v = group_value(g);
    let w = v as u64;
    lemma_bytes_of_word(w);
    lemma_field_weights();
    assert(value_of_bytes(packed(g)) == v);
    assert forall|i: int| 0 <= i < 8 implies #[trigger] field_of(v, i) == g[i].ordinal() by {
        if i == 0 {
        } else if i == 1 {
        } else if i == 2 {
        } else if i == 3 {
        } else if i == 4 {
        } else if i == 5 {
        } else if i == 6 {
        } else {
        }
    }
    assert forall|i: int| 0 <= i < 8 implies #[trigger] letter_of_ordinal(field_of(v, i))->Some_0
        == g[i] by {
        lemma_ordinal_in_alphabet(g[i]);
    }
    assert(Seq::new(8, |i: int| letter_of_ordinal(field_of(v, i))->Some_0) =~= g);
}

} // verus!
