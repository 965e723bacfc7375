//! A lossless codec for a small alphabet: Latin letters, space, newline,
//! comma and period, a set of Czech accented letters and a chord marker.
//! Each symbol takes 5 bits and eight symbols pack into a 5-byte block.
use vstd::prelude::*;

pub mod block;
pub mod laws;
pub mod letters;
pub mod render;
pub mod stream;

pub use block::{CompressedLetters, ParsedLetters};
pub use letters::{CodecError, Letter};

use block::packed;
use letters::letters_of_char;
use render::{prefixed, render_letters, rendered, step_at};
use stream::{
    decode_from, decoded, encoded, grouped, in_alphabet, lemma_symbols_push, letter_or_space, stream_of,
    symbols_of, unpacked_all,
};
use vstd::std_specs::iter::IteratorSpec;

verus! {

/// The compressed form of a text: its packed blocks, in text order.
#[derive(Debug, PartialEq, Eq)]
pub struct CompressedArr(pub Vec<CompressedLetters>);

/// The parsed form of a text: its groups of eight symbols, in text order.
#[derive(Debug, PartialEq, Eq)]
pub struct ParsedArr(pub Vec<ParsedLetters>);

impl View for CompressedArr {
    type V = Seq<Seq<u8>>;

    open spec fn view(&self) -> Seq<Seq<u8>> {
        self.0@.map_values(|b: CompressedLetters| b@)
    }
}

impl View for ParsedArr {
    type V = Seq<Seq<Letter>>;

    open spec fn view(&self) -> Seq<Seq<Letter>> {
        self.0@.map_values(|g: ParsedLetters| g@)
    }
}

/// Relies on `String`'s `FromIterator<&char>`, reached through `collect`:
/// the string holds the given characters, in order.
#[verifier::external_body]
fn string_of_chars(chars: &Vec<char>) -> (r: String)
    ensures
        r@ == chars@,
{
    chars.iter().collect()
}

/// The symbol at `base + j` of `letters`, or the padding `Space` past its end.
fn letter_or_space_at(letters: &Vec<Letter>, base: usize, j: usize) -> (r: Letter)
    requires
        base < letters.len(),
    ensures
        r == letter_or_space(letters@, base + j),
{
    if j < letters.len() - base {
        letters[base + j]
    } else {
        Letter::Space
    }
}

impl ParsedArr {
    /// Parses a text into groups of eight symbols: the symbols of each
    /// character, a closing `Enter`, and `Space` padding in the last group.
    /// Fails with `UnknownCharacter` on the first character outside the
    /// alphabet.
    pub fn new(src: &str) -> (r: Result<Self, CodecError>)
        ensures
            r is Ok <==> in_alphabet(src@),
            r is Ok ==> r->Ok_0@ == grouped(stream_of(src@)),
            r is Err ==> exists|i: int|
                0 <= i < src@.len() && letters_of_char(#[trigger] src@[i]) is None && in_alphabet(
                    src@.take(i),
                ) && r == Err::<Self, CodecError>(CodecError::UnknownCharacter(src@[i])),
    {
        broadcast use vstd::string::group_string_axioms;

        let mut letters: Vec<Letter> = Vec::new();
        let mut chars = src.chars();
        let ghost mut seen: Seq<char> = Seq::empty();
        loop
            invariant
                src@ == seen + chars.remaining(),
                in_alphabet(seen),
                letters@ == symbols_of(seen),
                chars.decrease() is Some,
            ensures
                seen == src@,
            decreases chars.decrease()->0,
        {
            let ghost before = chars;
            match chars.next() {
                None => {
                    assert(seen =~= src@);
                    break ;
                },
                Some(c) => {
                    assert(before.remaining()[0] == src@[seen.len() as int]);
                    match Letter::new(c) {
                        Ok(mut more) => {
                            letters.append(&mut more);
                            proof {
                                lemma_symbols_push(seen, c);
                                seen = seen.push(c);
                                assert(src@ =~= seen + chars.remaining());
                            }
                        },
                        Err(e) => {
                            assert(src@.take(seen.len() as int) =~= seen);
                            return Err(e);
                        },
                    }
                },
            }
        }
        letters.push(Letter::Enter);
        let n = letters.len();
        let count = if n % 8 == 0 {
            n / 8
        } else {
            n / 8 + 1
        };
        let mut groups: Vec<ParsedLetters> = Vec::new();
        let mut k: usize = 0;
        while k < count
            invariant
                letters@ == stream_of(src@),
                n == letters.len(),
                count == grouped(letters@).len(),
                k <= count,
                groups@.len() == k,
                forall|g: int| 0 <= g < k ==> (#[trigger] groups@[g])@ == grouped(letters@)[g],
            decreases count - k,
        {
            let base = 8 * k;
            let group = ParsedLetters(
                [
                    letter_or_space_at(&letters, base, 0),
                    letter_or_space_at(&letters, base, 1),
                    letter_or_space_at(&letters, base, 2),
                    letter_or_space_at(&letters, base, 3),
                    letter_or_space_at(&letters, base, 4),
                    letter_or_space_at(&letters, base, 5),
                    letter_or_space_at(&letters, base, 6),
                    letter_or_space_at(&letters, base, 7),
                ],
            );
            assert(group@ =~= grouped(letters@)[k as int]);
            groups.push(group);
            k = k + 1;
        }
        let r = ParsedArr(groups);
        assert(r@ =~= grouped(stream_of(src@)));
        Ok(r)
    }
}

impl ParsedArr {
    /// Unpacks every block of a compressed artifact; fails with
    /// `InvalidSymbolOrdinal` at the first block with a field that names no
    /// symbol.
    pub fn from_compressed(compressed: &CompressedArr) -> (r: Result<Self, CodecError>)
        ensures
            match unpacked_all(compressed@) {
                Ok(gs) => r is Ok && r->Ok_0@ == gs,
                Err(e) => r == Err::<Self, CodecError>(e),
            },
    {
        let blocks = &compressed.0;
        let mut groups: Vec<ParsedLetters> = Vec::new();
        let mut k: usize = 0;
        assert(compressed@.take(0) =~= Seq::<Seq<u8>>::empty());
        assert(groups@.map_values(|g: ParsedLetters| g@) =~= Seq::<Seq<Letter>>::empty());
        while k < blocks.len()
            invariant
                k <= blocks.len(),
                compressed@ == blocks@.map_values(|b: CompressedLetters| b@),
                unpacked_all(compressed@.take(k as int)) == Ok::<Seq<Seq<Letter>>, CodecError>(
                    groups@.map_values(|g: ParsedLetters| g@),
                ),
            decreases blocks.len() - k,
        {
            assert(compressed@.take(k + 1).drop_last() =~= compressed@.take(k as int));
            assert(compressed@.take(k + 1).last() == blocks@[k as int]@);
            match ParsedLetters::from_compressed_words(&blocks[k]) {
                Ok(g) => {
                    let ghost before = groups@;
                    groups.push(g);
                    assert(groups@.map_values(|g: ParsedLetters| g@) =~= before.map_values(
                        |g: ParsedLetters| g@,
                    ).push(g@));
                },
                Err(e) => {
                    proof {
                        lemma_unpacked_all_prefix_err(compressed@, (k + 1) as int);
                    }
                    return Err(e);
                },
            }
            k = k + 1;
        }
        assert(compressed@.take(k as int) =~= compressed@);
        Ok(ParsedArr(groups))
    }

    /// Renders the groups back to text, in order.
    pub fn render(&self) -> (r: Result<String, CodecError>)
        ensures
            match rendered(self@.flatten()) {
                Ok(t) => r is Ok && r->Ok_0@ == t,
                Err(e) => r == Err::<String, CodecError>(e),
            },
    {
        broadcast use vstd::seq_lib::group_seq_properties;

        let mut letters: Vec<Letter> = Vec::new();
        let mut k: usize = 0;
        while k < self.0.len()
            invariant
                k <= self.0.len(),
                letters@ == self@.take(k as int).flatten(),
            decreases self.0.len() - k,
        {
            let group = &self.0[k];
            let ghost before = letters@;
            for j in 0..8
                invariant
                    letters@ == before + group@.take(j as int),
            {
                letters.push(group.0[j]);
                assert(before + group@.take(j + 1) =~= (before + group@.take(j as int)).push(
                    group@[j as int],
                ));
            }
            assert(group@.take(8) =~= group@);
            assert(self@.take(k + 1) =~= self@.take(k as int).push(self@[k as int]));
            proof {
                self@.take(k as int).lemma_flatten_push(self@[k as int]);
            }
            k = k + 1;
        }
        assert(self@.take(k as int) =~= self@);
        match render_letters(&letters) {
            Ok(chars) => Ok(string_of_chars(&chars)),
            Err(e) => Err(e),
        }
    }
}

/// An error in the first `k` blocks is the error of all of them.
proof fn lemma_unpacked_all_prefix_err(blocks: Seq<Seq<u8>>, k: int)
    requires
        0 <= k <= blocks.len(),
        unpacked_all(blocks.take(k)) is Err,
    ensures
        unpacked_all(blocks) == unpacked_all(blocks.take(k)),
    decreases blocks.len() - k,
{
    if k < blocks.len() {
        assert(blocks.take(k + 1).drop_last() =~= blocks.take(k));
        lemma_unpacked_all_prefix_err(blocks, k + 1);
    } else {
        assert(blocks.take(k) =~= blocks);
    }
}

impl CompressedArr {
    /// Parses and compresses a text; fails with `UnknownCharacter` on the
    /// first character outside the alphabet.
    pub fn new(src: &str) -> (r: Result<Self, CodecError>)
        ensures
            r is Ok <==> in_alphabet(src@),
            r is Ok ==> r->Ok_0@ == encoded(src@),
            r is Err ==> exists|i: int|
                0 <= i < src@.len() && letters_of_char(#[trigger] src@[i]) is None && in_alphabet(
                    src@.take(i),
                ) && r == Err::<Self, CodecError>(CodecError::UnknownCharacter(src@[i])),
    {
        match ParsedArr::new(src) {
            Ok(parsed) => {
                let r = CompressedArr::from_parsed(&parsed);
                assert(r@ =~= encoded(src@));
                Ok(r)
            },
            Err(e) => Err(e),
        }
    }

    /// Packs each group of a parsed artifact into its block.
    pub fn from_parsed(parsed: &ParsedArr) -> (r: Self)
        ensures
            r@ == parsed@.map_values(|g: Seq<Letter>| packed(g)),
    {
        let mut blocks: Vec<CompressedLetters> = Vec::new();
        let mut k: usize = 0;
        while k < parsed.0.len()
            invariant
                k <= parsed.0.len(),
                blocks@.len() == k,
                forall|i: int| 0 <= i < k ==> (#[trigger] blocks@[i])@ == packed(parsed@[i]),
            decreases parsed.0.len() - k,
        {
            blocks.push(CompressedLetters::from_parsed_words(&parsed.0[k]));
            k = k + 1;
        }
        let r = CompressedArr(blocks);
        assert(r@ =~= parsed@.map_values(|g: Seq<Letter>| packed(g)));
        r
    }

    /// Decodes the blocks back to text. Symbols are queued block by block:
    /// whenever fewer than eight remain unconsumed and blocks are left, the
    /// next block is unpacked; otherwise the renderer takes one step at the
    /// front of the queue. An error is reported where it is met, so a block
    /// that names no symbol fails the decode only once rendering reaches it.
    /// The closing `Enter` and the padding come back as a newline and spaces.
    pub fn decode(&self) -> (r: Result<String, CodecError>)
        ensures
            match decoded(self@) {
                Ok(t) => r is Ok && r->Ok_0@ == t,
                Err(e) => r == Err::<String, CodecError>(e),
            },
    {
        let blocks = &self.0;
        let mut letters: Vec<Letter> = Vec::new();
        let mut pos: usize = 0;
        let mut k: usize = 0;
        let mut out: Vec<char> = Vec::new();
        assert(letters@.skip(0) =~= Seq::<Letter>::empty());
        assert(out@ + Seq::<char>::empty() =~= Seq::<char>::empty());
        loop
            invariant
                k <= blocks.len(),
                pos <= letters.len(),
                self@ == blocks@.map_values(|b: CompressedLetters| b@),
                decoded(self@) == prefixed(
                    out@,
                    decode_from(self@, k as int, letters@.skip(pos as int)),
                ),
            ensures
                decoded(self@) == Ok::<Seq<char>, CodecError>(out@),
            decreases blocks.len() - k, letters.len() - pos,
        {
            let ghost queue = letters@.skip(pos as int);
            if letters.len() - pos < 8 && k < blocks.len() {
                match ParsedLetters::from_compressed_words(&blocks[k]) {
                    Ok(group) => {
                        let ghost before = letters@;
                        for j in 0..8
                            invariant
                                letters@ == before + group@.take(j as int),
                        {
                            letters.push(group.0[j]);
                            assert(before + group@.take(j + 1) =~= (before + group@.take(
                                j as int,
                            )).push(group@[j as int]));
                        }
                        assert(group@.take(8) =~= group@);
                        assert(letters@.skip(pos as int) =~= queue + group@);
                        k = k + 1;
                    },
                    Err(e) => {
                        return Err(e);
                    },
                }
            } else if pos == letters.len() {
                assert(out@ + Seq::<char>::empty() =~= out@);
                break ;
            } else {
                match step_at(&letters, pos) {
                    Ok((c, n)) => {
                        let ghost before = out@;
                        assert(queue.skip(n as int) =~= letters@.skip(pos + n));
                        out.push(c);
                        pos = pos + n;
                        proof {
                            match decode_from(self@, k as int, letters@.skip(pos as int)) {
                                Ok(t) => {
                                    assert(before + (seq![c] + t) =~= out@ + t);
                                },
                                Err(_) => {},
                            }
                        }
                    },
                    Err(e) => {
                        return Err(e);
                    },
                }
            }
        }
        Ok(string_of_chars(&out))
    }

    /// The blocks laid end to end: five bytes each, no header.
    pub fn to_bytes(&self) -> (r: Vec<u8>)
        ensures
            r@ == self@.flatten(),
            r@.len() == 5 * self@.len(),
    {
        broadcast use vstd::seq_lib::group_seq_properties;

        let mut bytes: Vec<u8> = Vec::new();
        let mut k: usize = 0;
        while k < self.0.len()
            invariant
                k <= self.0.len(),
                bytes@ == self@.take(k as int).flatten(),
                bytes@.len() == 5 * k,
            decreases self.0.len() - k,
        {
            let block = &self.0[k];
            let ghost before = bytes@;
            for j in 0..5
                invariant
                    bytes@ == before + block@.take(j as int),
            {
                bytes.push(block.0[j]);
                assert(before + block@.take(j + 1) =~= (before + block@.take(j as int)).push(
                    block@[j as int],
                ));
            }
            assert(block@.take(5) =~= block@);
            assert(self@.take(k + 1) =~= self@.take(k as int).push(self@[k as int]));
            proof {
                self@.take(k as int).lemma_flatten_push(self@[k as int]);
            }
            k = k + 1;
        }
        assert(self@.take(k as int) =~= self@);
        bytes
    }

    /// Cuts a byte string into 5-byte blocks; `None` where its length is not
    /// a multiple of five.
    pub fn from_bytes(bytes: &[u8]) -> (r: Option<Self>)
        ensures
            r is Some <==> bytes@.len() % 5 == 0,
            r is Some ==> r->Some_0@ == Seq::new(
                (bytes@.len() / 5) as nat,
                |k: int| bytes@.subrange(5 * k, 5 * k + 5),
            ),
    {
        if bytes.len() % 5 != 0 {
            return None;
        }
        let len = bytes.len();
        let count = len / 5;
        let mut blocks: Vec<CompressedLetters> = Vec::new();
        let mut k: usize = 0;
        while k < count
            invariant
                len == bytes@.len(),
                count == bytes@.len() / 5,
                bytes@.len() % 5 == 0,
                k <= count,
                blocks@.len() == k,
                forall|i: int|
                    0 <= i < k ==> (#[trigger] blocks@[i])@ == bytes@.subrange(5 * i, 5 * i + 5),
            decreases count - k,
        {
            assert(5 * k + 5 <= len) by (nonlinear_arith)
                requires
                    k < count,
                    count == len / 5,
            ;
            assert(bytes@.len() == len);
            let base = 5 * k;
            let block = CompressedLetters(
                [bytes[base], bytes[base + 1], bytes[base + 2], bytes[base + 3], bytes[base + 4]],
            );
            assert(block@ =~= bytes@.subrange(5 * k, 5 * k + 5));
            blocks.push(block);
            k = k + 1;
        }
        let r = CompressedArr(blocks);
        assert(r@ =~= Seq::new((bytes@.len() / 5) as nat, |k: int| bytes@.subrange(5 * k, 5 * k + 5)));
        Some(r)
    }
}

} // verus!
