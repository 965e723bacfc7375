use vstd::prelude::*;
use vstd::utf8::encode_utf8;

use crate::block::{lemma_unpack_pack, unpacked};
use crate::letters::{letters_of_char, CodecError, Letter};
use crate::render::{prefixed, render_step, rendered};
use crate::stream::{
    decoded, encoded, group_count, grouped, lemma_decode_from_unpacked, letter_or_space, stream_of,
    symbols_of,
};

verus! {

/// An accented letter that the renderer gives back as it was written.
pub open spec fn is_accented(c: char) -> bool {
    c == 'ě' || c == 'š' || c == 'č' || c == 'ř' || c == 'ž' || c == 'ď' || c == 'ý' || c == 'í'
        || c == 'ó' || c == 'ú'
}

/// A character that decodes back to itself: a lower-case letter, space,
/// newline, comma, period, or an accented letter of [`is_accented`].
pub open spec fn renders_back(c: char) -> bool {
    ('a' <= c && c <= 'z') || c == ' ' || c == '\n' || c == ',' || c == '.' || is_accented(c)
}

/// Two neighbours whose symbols the renderer reads as one glyph: a comma
/// before a comma or a period, and `ě` before an accented letter.
pub open spec fn merges_with(c: char, d: char) -> bool {
    (c == ',' && (d == ',' || d == '.')) || (c == 'ě' && is_accented(d))
}

/// The whitespace of the alphabet.
pub open spec fn is_whitespace(c: char) -> bool {
    c == ' ' || c == '\n'
}

/// `t` without the whitespace at its end.
pub open spec fn trim_trailing_whitespace(t: Seq<char>) -> Seq<char>
    decreases t.len(),
{
    if t.len() > 0 && is_whitespace(t.last()) {
        trim_trailing_whitespace(t.drop_last())
    } else {
        t
    }
}

/// Every character renders back and no two neighbours merge.
pub open spec fn renders_back_text(t: Seq<char>) -> bool {
    &&& forall|i: int| 0 <= i < t.len() ==> renders_back(#[trigger] t[i])
    &&& forall|i: int| 0 <= i < t.len() - 1 ==> !merges_with(#[trigger] t[i], t[i + 1])
}

/// A text that comes back from an encode and a decode: it renders back and
/// ends in no whitespace.
pub open spec fn round_trips(t: Seq<char>) -> bool {
    &&& renders_back_text(t)
    &&& t.len() > 0 ==> !is_whitespace(t.last())
}

/// `n` padding spaces.
pub open spec fn spaces(n: nat) -> Seq<Letter> {
    Seq::new(n, |i: int| Letter::Space)
}

/// `n` space characters.
pub open spec fn space_chars(n: nat) -> Seq<char> {
    Seq::new(n, |i: int| ' ')
}

proof fn lemma_symbols_cons(t: Seq<char>)
    requires
        t.len() > 0,
        letters_of_char(t[0]) is Some,
    ensures
        symbols_of(t) == letters_of_char(t[0])->Some_0 + symbols_of(t.drop_first()),
        letters_of_char(t[0])->Some_0.len() > 0,
{
}

/// The renderer's step on the symbols of one character that renders back,
/// followed by anything that does not start with a comma or an accent
/// marker when the character is a comma or `ě`.
proof fn lemma_step_of_char(c: char, u: Seq<Letter>)
    requires
        renders_back(c),
        u.len() > 0,
        c == ',' ==> u[0] != Letter::Comma,
        c == 'ě' ==> u[0] != Letter::NextIsAccented,
    ensures
        letters_of_char(c) is Some,
        render_step(letters_of_char(c)->Some_0 + u) == Ok::<(char, int), CodecError>(
            (c, letters_of_char(c)->Some_0.len() as int),
        ),
{
    let l = letters_of_char(c)->Some_0;
    let s = l + u;
    assert(s.len() > l.len());
    assert(forall|i: int| 0 <= i < l.len() ==> s[i] == l[i]);
    assert(s[l.len() as int] == u[0]);
}

/// The symbols of a text that renders back render to the text, in front of
/// whatever the rest renders to.
proof fn lemma_render_symbols(t: Seq<char>, tail: Seq<Letter>)
    requires
        renders_back_text(t),
        tail.len() > 0,
        tail[0] != Letter::Comma,
        tail[0] != Letter::NextIsAccented,
    ensures
        rendered(symbols_of(t) + tail) == prefixed(t, rendered(tail)),
    decreases t.len(),
{
    if t.len() == 0 {
        assert(symbols_of(t) + tail =~= tail);
        match rendered(tail) {
            Ok(x) => assert(t + x =~= x),
            Err(_) => {},
        }
    } else {
        let c = t[0];
        let rest = t.drop_first();
        assert(renders_back(t[0]));
        lemma_step_of_char(c, seq![Letter::Enter]);
        lemma_symbols_cons(t);
        assert(renders_back_text(rest)) by {
            assert(forall|i: int| 0 <= i < rest.len() ==> rest[i] == t[i + 1]);
        }
        lemma_render_symbols(rest, tail);
        let l = letters_of_char(c)->Some_0;
        let u = symbols_of(rest) + tail;
        if rest.len() > 0 {
            assert(renders_back(t[1]));
            assert(rest[0] == t[1]);
            lemma_step_of_char(rest[0], seq![Letter::Enter]);
            lemma_symbols_cons(rest);
            assert(u[0] == letters_of_char(rest[0])->Some_0[0]);
            assert(!merges_with(t[0], t[1]));
        } else {
            assert(symbols_of(rest) =~= Seq::<Letter>::empty());
            assert(u[0] == tail[0]);
        }
        lemma_step_of_char(c, u);
        let s = symbols_of(t) + tail;
        assert(s =~= l + u);
        assert(s.skip(l.len() as int) =~= u);
        match rendered(tail) {
            Ok(x) => assert(seq![c] + (rest + x) =~= t + x),
            Err(_) => {},
        }
    }
}

/// Padding spaces render to spaces.
proof fn lemma_render_spaces(n: nat)
    ensures
        rendered(spaces(n)) == Ok::<Seq<char>, CodecError>(space_chars(n)),
    decreases n,
{
    if n == 0 {
        assert(space_chars(0) =~= Seq::<char>::empty());
    } else {
        assert(spaces(n)[0] == Letter::Space);
        lemma_render_spaces((n - 1) as nat);
        assert(spaces(n).skip(1) =~= spaces((n - 1) as nat));
        assert(seq![' '] + space_chars((n - 1) as nat) =~= space_chars(n));
    }
}

/// Trimming a newline and padding spaces off a text that ends in no
/// whitespace gives the text.
proof fn lemma_trim_padding(t: Seq<char>, n: nat)
    requires
        t.len() > 0 ==> !is_whitespace(t.last()),
    ensures
        trim_trailing_whitespace(t + seq!['\n'] + space_chars(n)) == t,
    decreases n,
{
    let x = t + seq!['\n'] + space_chars(n);
    if n == 0 {
        assert(x.last() == '\n');
        assert(x.drop_last() =~= t);
        assert(trim_trailing_whitespace(t) == t);
    } else {
        assert(x.last() == ' ');
        assert(x.drop_last() =~= t + seq!['\n'] + space_chars((n - 1) as nat));
        lemma_trim_padding(t, (n - 1) as nat);
    }
}

/// The groups of a stream, laid end to end, are the stream and its padding.
proof fn lemma_flatten_grouped(s: Seq<Letter>)
    ensures
        grouped(s).flatten() == s + spaces((8 * group_count(s.len() as int) - s.len()) as nat),
{
    broadcast use vstd::seq_lib::group_seq_properties;

    let gs = grouped(s);
    let c = gs.len() as int;
    assert forall|k: int| 0 <= k <= c implies #[trigger] gs.take(k).flatten() == Seq::new(
        (8 * k) as nat,
        |i: int| letter_or_space(s, i),
    ) by {
        lemma_flatten_grouped_prefix(s, k);
    }
    assert(gs.take(c) =~= gs);
    assert(Seq::new((8 * c) as nat, |i: int| letter_or_space(s, i)) =~= s + spaces(
        (8 * group_count(s.len() as int) - s.len()) as nat,
    ));
}

proof fn lemma_flatten_grouped_prefix(s: Seq<Letter>, k: int)
    requires
        0 <= k <= grouped(s).len(),
    ensures
        grouped(s).take(k).flatten() == Seq::new((8 * k) as nat, |i: int| letter_or_space(s, i)),
    decreases k,
{
    let gs = grouped(s);
    if k == 0 {
        assert(gs.take(0) =~= Seq::<Seq<Letter>>::empty());
        assert(Seq::new(0, |i: int| letter_or_space(s, i)) =~= Seq::<Letter>::empty());
    } else {
        lemma_flatten_grouped_prefix(s, k - 1);
        assert(gs.take(k) =~= gs.take(k - 1).push(gs[k - 1]));
        gs.take(k - 1).lemma_flatten_push(gs[k - 1]);
        assert(Seq::new((8 * (k - 1)) as nat, |i: int| letter_or_space(s, i)) + gs[k - 1]
            =~= Seq::new((8 * k) as nat, |i: int| letter_or_space(s, i)));
    }
}

/// Text round trip: a text that renders back and ends in no whitespace is
/// what decoding its encoding gives, once the trailing whitespace (the
/// closing newline and the padding) is trimmed.
pub proof fn lemma_text_round_trip(t: Seq<char>)
    requires
        round_trips(t),
    ensures
        decoded(encoded(t)) is Ok,
        trim_trailing_whitespace(decoded(encoded(t))->Ok_0) == t,
{
    let s = stream_of(t);
    let gs = grouped(s);
    let pad = (8 * group_count(s.len() as int) - s.len()) as nat;
    let blocks = encoded(t);
    assert forall|j: int| 0 <= j < blocks.len() implies unpacked(#[trigger] blocks[j]) == Ok::<
        Seq<Letter>,
        CodecError,
    >(gs[j]) by {
        lemma_unpack_pack(gs[j]);
    }
    lemma_decode_from_unpacked(blocks, gs, 0, Seq::empty());
    assert(gs.skip(0) =~= gs);
    assert(Seq::<Letter>::empty() + gs.flatten() =~= gs.flatten());
    lemma_flatten_grouped(s);
    let tail = seq![Letter::Enter] + spaces(pad);
    assert(gs.flatten() =~= symbols_of(t) + tail);
    lemma_render_symbols(t, tail);
    lemma_render_spaces(pad);
    assert(tail.skip(1) =~= spaces(pad));
    assert(render_step(tail) == Ok::<(char, int), CodecError>(('\n', 1)));
    assert(rendered(tail) == Ok::<Seq<char>, CodecError>(seq!['\n'] + space_chars(pad)));
    assert(t + (seq!['\n'] + space_chars(pad)) =~= t + seq!['\n'] + space_chars(pad));
    lemma_trim_padding(t, pad);
}

/// Size reduction: a text of at least eleven UTF-8 bytes that has no more
/// symbols than bytes encodes to fewer bytes (five per block) than it has.
pub proof fn lemma_size_reduction(t: Seq<char>)
    requires
        symbols_of(t).len() <= encode_utf8(t).len(),
        encode_utf8(t).len() >= 11,
    ensures
        5 * encoded(t).len() < encode_utf8(t).len(),
{
    let m = symbols_of(t).len() as int;
    let b = encode_utf8(t).len() as int;
    assert(encoded(t).len() == (m + 8) / 8);
    assert(5 * ((m + 8) / 8) < b) by (nonlinear_arith)
        requires
            m <= b,
            b >= 11,
            m >= 0,
    {
        assert((m + 8) / 8 <= (b + 8) / 8);
        if b < 16 {
            assert((b + 8) / 8 <= 2);
        } else {
            assert(8 * ((b + 8) / 8) <= b + 8);
        }
    }
}

/// Fixed block size: every group of a text's encoding holds eight symbols,
/// and every block five bytes.
pub proof fn lemma_fixed_sizes(t: Seq<char>)
    ensures
        forall|k: int| 0 <= k < grouped(stream_of(t)).len() ==> (#[trigger] grouped(stream_of(t))[k]).len() == 8,
        forall|k: int| 0 <= k < encoded(t).len() ==> (#[trigger] encoded(t)[k]).len() == 5,
{
}

} // verus!
