use vstd::prelude::*;

use crate::block::{packed, unpacked};
use crate::letters::{letters_of_char, CodecError, Letter};
use crate::render::{render_step, rendered};

verus! {

/// Every character of `t` has symbols in the alphabet.
pub open spec fn in_alphabet(t: Seq<char>) -> bool {
    forall|i: int| 0 <= i < t.len() ==> letters_of_char(#[trigger] t[i]) is Some
}

/// The symbols of the characters of `t`, in order (characters outside the
/// alphabet contribute nothing).
pub open spec fn symbols_of(t: Seq<char>) -> Seq<Letter>
    decreases t.len(),
{
    if t.len() == 0 {
        Seq::empty()
    } else {
        match letters_of_char(t[0]) {
            Some(l) => l + symbols_of(t.drop_first()),
            None => symbols_of(t.drop_first()),
        }
    }
}

/// The symbol stream of a text: its symbols and a closing `Enter`.
pub open spec fn stream_of(t: Seq<char>) -> Seq<Letter> {
    symbols_of(t).push(Letter::Enter)
}

/// The `i`-th symbol of `s`, or the padding `Space` past its end.
pub open spec fn letter_or_space(s: Seq<Letter>, i: int) -> Letter {
    if i < s.len() {
        s[i]
    } else {
        Letter::Space
    }
}

/// Number of groups of eight that `n` symbols fill.
pub open spec fn group_count(n: int) -> int {
    (n + 7) / 8
}

/// `s` cut into consecutive groups of eight, the last one padded with
/// `Space`.
pub open spec fn grouped(s: Seq<Letter>) -> Seq<Seq<Letter>> {
    Seq::new(group_count(s.len() as int) as nat, |k: int| Seq::new(8, |j: int| letter_or_space(s, 8 * k + j)))
}

/// The blocks that a text encodes to.
pub open spec fn encoded(t: Seq<char>) -> Seq<Seq<u8>> {
    grouped(stream_of(t)).map_values(|g: Seq<Letter>| packed(g))
}

/// The groups that a sequence of blocks unpacks to, or the error of the
/// first block that names no symbol.
pub open spec fn unpacked_all(blocks: Seq<Seq<u8>>) -> Result<Seq<Seq<Letter>>, CodecError>
    decreases blocks.len(),
{
    if blocks.len() == 0 {
        Ok(Seq::empty())
    } else {
        match unpacked_all(blocks.drop_last()) {
            Err(e) => Err(e),
            Ok(gs) => match unpacked(blocks.last()) {
                Ok(g) => Ok(gs.push(g)),
                Err(e) => Err(e),
            },
        }
    }
}

/// The decoder's state machine. `queue` holds the unpacked symbols not yet
/// consumed and `k` is the next block to unpack. Whenever fewer than eight
/// symbols are queued and blocks remain, the next block is unpacked and
/// appended; otherwise the renderer takes one step at the front of the queue.
/// A block is thus unpacked, and its error reported, only once rendering
/// reaches it.
pub open spec fn decode_from(blocks: Seq<Seq<u8>>, k: int, queue: Seq<Letter>) -> Result<
    Seq<char>,
    CodecError,
>
    decreases blocks.len() - k, queue.len(),
{
    if queue.len() < 8 && 0 <= k < blocks.len() {
        match unpacked(blocks[k]) {
            Ok(g) => decode_from(blocks, k + 1, queue + g),
            Err(e) => Err(e),
        }
    } else if queue.len() == 0 {
        Ok(Seq::empty())
    } else {
        match render_step(queue) {
            Ok((c, n)) => match decode_from(blocks, k, queue.skip(n)) {
                Ok(t) => Ok(seq![c] + t),
                Err(e) => Err(e),
            },
            Err(e) => Err(e),
        }
    }
}

/// The text that a sequence of blocks decodes to, starting with an empty
/// queue at the first block.
pub open spec fn decoded(blocks: Seq<Seq<u8>>) -> Result<Seq<char>, CodecError> {
    decode_from(blocks, 0, Seq::empty())
}

/// Where every block unpacks, the decoder renders its queue followed by the
/// groups of the blocks not yet unpacked, as if all were unpacked at once.
pub proof fn lemma_decode_from_unpacked(
    blocks: Seq<Seq<u8>>,
    gs: Seq<Seq<Letter>>,
    k: int,
    queue: Seq<Letter>,
)
    requires
        blocks.len() == gs.len(),
        0 <= k <= blocks.len(),
        forall|j: int|
            0 <= j < blocks.len() ==> unpacked(#[trigger] blocks[j]) == Ok::<
                Seq<Letter>,
                CodecError,
            >(gs[j]),
    ensures
        decode_from(blocks, k, queue) == rendered(queue + gs.skip(k).flatten()),
    decreases blocks.len() - k, queue.len(),
{
    let r = gs.skip(k).flatten();
    if queue.len() < 8 && k < blocks.len() {
        lemma_decode_from_unpacked(blocks, gs, k + 1, queue + gs[k]);
        assert(gs.skip(k).drop_first() =~= gs.skip(k + 1));
        assert(gs.skip(k).first() == gs[k]);
        assert(queue + gs[k] + gs.skip(k + 1).flatten() =~= queue + r);
    } else if queue.len() == 0 {
        assert(gs.skip(k) =~= Seq::<Seq<Letter>>::empty());
        assert(queue + r =~= Seq::<Letter>::empty());
    } else {
        let s = queue + r;
        if k == blocks.len() {
            assert(gs.skip(k) =~= Seq::<Seq<Letter>>::empty());
            assert(s =~= queue);
        } else {
            assert(s[0] == queue[0] && s[1] == queue[1] && s[2] == queue[2]);
        }
        assert(render_step(s) == render_step(queue));
        match render_step(queue) {
            Ok((c, n)) => {
                lemma_decode_from_unpacked(blocks, gs, k, queue.skip(n));
                assert(s.skip(n) =~= queue.skip(n) + r);
            },
            Err(_) => {},
        }
    }
}

/// Appending an in-alphabet character appends its symbols.
pub proof fn lemma_symbols_push(t: Seq<char>, c: char)
    requires
        letters_of_char(c) is Some,
    ensures
        symbols_of(t.push(c)) == symbols_of(t) + letters_of_char(c)->Some_0,
    decreases t.len(),
{
    let l = letters_of_char(c)->Some_0;
    if t.len() == 0 {
        assert(t.push(c).drop_first() =~= Seq::<char>::empty());
        assert(t.push(c)[0] == c);
        assert(symbols_of(Seq::<char>::empty()) =~= Seq::<Letter>::empty());
        assert(l + Seq::<Letter>::empty() =~= l);
        assert(symbols_of(t.push(c)) =~= l);
        assert(symbols_of(t) + l =~= l);
    } else {
        assert(t.push(c).drop_first() =~= t.drop_first().push(c));
        lemma_symbols_push(t.drop_first(), c);
        match letters_of_char(t[0]) {
            Some(h) => {
                assert(h + (symbols_of(t.drop_first()) + l) =~= (h + symbols_of(t.drop_first())) + l);
            },
            None => {},
        }
    }
}

} // verus!
