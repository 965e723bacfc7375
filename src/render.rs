use vstd::prelude::*;

use crate::letters::{char_of_letter, CodecError, Letter};

verus! {

/// The glyph that an accent marker makes of a base letter other than `E`.
pub open spec fn accented_char(base: Letter) -> Option<char> {
    match base {
        Letter::S => Some('š'),
        Letter::C => Some('č'),
        Letter::R => Some('ř'),
        Letter::Z => Some('ž'),
        Letter::D => Some('ď'),
        Letter::Y => Some('ý'),
        Letter::I => Some('í'),
        Letter::O => Some('ó'),
        Letter::U => Some('ú'),
        _ => None,
    }
}

/// What the renderer does at the front of a non-empty symbol sequence: the
/// character it emits and how many symbols that takes, or why it stops.
pub open spec fn render_step(s: Seq<Letter>) -> Result<(char, int), CodecError> {
    match s[0] {
        Letter::Comma => {
            if s.len() > 1 && s[1] == Letter::Comma {
                Ok(('.', 2))
            } else {
                Ok((',', 1))
            }
        },
        Letter::Chord => {
            if s.len() < 2 {
                Err(CodecError::NotDirectlyRenderable(Letter::Chord))
            } else {
                match char_of_letter(s[1]) {
                    Some(c) => Ok((c, 2)),
                    None => Err(CodecError::NotDirectlyRenderable(s[1])),
                }
            }
        },
        Letter::NextIsAccented => {
            if s.len() < 2 {
                Err(CodecError::NotDirectlyRenderable(Letter::NextIsAccented))
            } else if s[1] == Letter::E {
                if s.len() > 2 && s[2] == Letter::NextIsAccented {
                    Ok(('é', 3))
                } else {
                    Ok(('ě', 2))
                }
            } else {
                match accented_char(s[1]) {
                    Some(c) => Ok((c, 2)),
                    None => Err(CodecError::UnsupportedAccentBase(s[1])),
                }
            }
        },
        l => match char_of_letter(l) {
            Some(c) => Ok((c, 1)),
            None => Err(CodecError::NotDirectlyRenderable(l)),
        },
    }
}

/// The text that a symbol sequence renders to, or the first error met
/// from the left.
pub open spec fn rendered(s: Seq<Letter>) -> Result<Seq<char>, CodecError>
    decreases s.len(),
{
    if s.len() == 0 {
        Ok(Seq::empty())
    } else {
        match render_step(s) {
            Err(e) => Err(e),
            Ok((c, n)) => match rendered(s.skip(n)) {
                Ok(t) => Ok(seq![c] + t),
                Err(e) => Err(e),
            },
        }
    }
}

/// `r` with `p` put in front of its text.
pub open spec fn prefixed(p: Seq<char>, r: Result<Seq<char>, CodecError>) -> Result<
    Seq<char>,
    CodecError,
> {
    match r {
        Ok(t) => Ok(p + t),
        Err(e) => Err(e),
    }
}

/// The renderer's step at position `i` of `s`.
pub(crate) fn step_at(s: &Vec<Letter>, i: usize) -> (r: Result<(char, usize), CodecError>)
    requires
        i < s.len(),
    ensures
        match render_step(s@.skip(i as int)) {
            Ok((c, n)) => r == Ok::<(char, usize), CodecError>((c, n as usize)),
            Err(e) => r == Err::<(char, usize), CodecError>(e),
        },
{
    let ghost rest = s@.skip(i as int);
    assert(rest[0] == s@[i as int]);
    let len = s.len();
    match s[i] {
        Letter::Comma => {
            if i + 1 < len && s[i + 1] == Letter::Comma {
                assert(rest[1] == s@[i + 1]);
                Ok(('.', 2))
            } else {
                assert(i + 1 < len ==> rest[1] == s@[i + 1]);
                Ok((',', 1))
            }
        },
        Letter::Chord => {
            if i + 1 >= len {
                Err(CodecError::NotDirectlyRenderable(Letter::Chord))
            } else {
                assert(rest[1] == s@[i + 1]);
                match s[i + 1].to_char() {
                    Ok(c) => Ok((c, 2)),
                    Err(e) => Err(e),
                }
            }
        },
        Letter::NextIsAccented => {
            if i + 1 >= len {
                Err(CodecError::NotDirectlyRenderable(Letter::NextIsAccented))
            } else {
                let base = s[i + 1];
                assert(rest[1] == base);
                match base {
                    Letter::E => {
                        if i + 2 < len && s[i + 2] == Letter::NextIsAccented {
                            assert(rest[2] == s@[i + 2]);
                            Ok(('é', 3))
                        } else {
                            assert(i + 2 < len ==> rest[2] == s@[i + 2]);
                            Ok(('ě', 2))
                        }
                    },
                    Letter::S => Ok(('š', 2)),
                    Letter::C => Ok(('č', 2)),
                    Letter::R => Ok(('ř', 2)),
                    Letter::Z => Ok(('ž', 2)),
                    Letter::D => Ok(('ď', 2)),
                    Letter::Y => Ok(('ý', 2)),
                    Letter::I => Ok(('í', 2)),
                    Letter::O => Ok(('ó', 2)),
                    Letter::U => Ok(('ú', 2)),
                    _ => Err(CodecError::UnsupportedAccentBase(base)),
                }
            }
        },
        l => match l.to_char() {
            Ok(c) => Ok((c, 1)),
            Err(e) => Err(e),
        },
    }
}

/// Renders a symbol sequence to the characters of its text, collapsing
/// comma pairs and accent sequences; fails with the first error from the
/// left.
pub fn render_letters(s: &Vec<Letter>) -> (r: Result<Vec<char>, CodecError>)
    ensures
        match rendered(s@) {
            Ok(t) => r is Ok && r->Ok_0@ == t,
            Err(e) => r == Err::<Vec<char>, CodecError>(e),
        },
{
    let mut out: Vec<char> = Vec::new();
    let mut i: usize = 0;
    assert(s@.skip(0) =~= s@);
    while i < s.len()
        invariant
            i <= s.len(),
            rendered(s@) == prefixed(out@, rendered(s@.skip(i as int))),
        decreases s.len() - i,
    {
        let ghost rest = s@.skip(i as int);
        match step_at(s, i) {
            Ok((c, n)) => {
                assert(rest.skip(n as int) =~= s@.skip(i + n));
                let ghost before = out@;
                assert(rendered(rest) == prefixed(seq![c], rendered(rest.skip(n as int))));
                out.push(c);
                i = i + n;
                proof {
                    match rendered(s@.skip(i as int)) {
                        Ok(t) => {
                            assert(before + (seq![c] + t) =~= out@ + t);
                        },
                        Err(_) => {},
                    }
                }
            },
            Err(e) => {
                return Err(e);
            },
        }
    }
    assert(s@.skip(i as int) =~= Seq::<Letter>::empty());
    assert(out@ + Seq::<char>::empty() =~= out@);
    Ok(out)
}

} // verus!
