//! Character classes and small string helpers shared by the planner.

use vstd::prelude::*;
use vstd::string::*;

verus! {

pub open spec fn is_ascii_letter(c: char) -> bool {
    ('a' <= c && c <= 'z') || ('A' <= c && c <= 'Z')
}

pub open spec fn is_ascii_digit(c: char) -> bool {
    '0' <= c && c <= '9'
}

/// What `char::is_alphabetic` answers for `c`.
pub uninterp spec fn unicode_alphabetic(c: char) -> bool;

/// What `char::is_alphanumeric` answers for `c`.
pub uninterp spec fn unicode_alphanumeric(c: char) -> bool;

/// Calls `char::is_alphabetic`. Its result is named `unicode_alphabetic`; the
/// contract adds what std documents for ASCII input: exactly the letters are
/// alphabetic. What it answers for other code points (the Unicode tables) is
/// left unsaid.
#[verifier::external_body]
pub(crate) fn char_is_alphabetic(c: char) -> (r: bool)
    ensures
        r == unicode_alphabetic(c),
        (c as int) < 128 ==> (r == is_ascii_letter(c)),
{
    c.is_alphabetic()
}

/// Calls `char::is_alphanumeric`. Its result is named `unicode_alphanumeric`;
/// the contract adds what std documents for ASCII input: exactly the letters
/// and the decimal digits are alphanumeric. Other code points are left unsaid.
#[verifier::external_body]
pub(crate) fn char_is_alphanumeric(c: char) -> (r: bool)
    ensures
        r == unicode_alphanumeric(c),
        (c as int) < 128 ==> (r == (is_ascii_letter(c) || is_ascii_digit(c))),
{
    c.is_alphanumeric()
}

/// A character that may start a Go name.
pub open spec fn starts_name(c: char) -> bool {
    unicode_alphabetic(c) || c == '_'
}

/// A character that may continue a Go name.
pub open spec fn continues_name(c: char) -> bool {
    unicode_alphanumeric(c) || c == '_'
}

/// One Go name: a letter or `_`, then letters, digits or `_`.
pub open spec fn is_plain_identifier(s: Seq<char>) -> bool {
    &&& s.len() > 0
    &&& starts_name(s[0])
    &&& forall|i: int| 1 <= i < s.len() ==> continues_name(#[trigger] s[i])
}

/// The pieces of `s` between characters that cannot continue a name, the way
/// `str::split` cuts them (empty pieces included), with `current` the piece
/// already begun.
pub open spec fn pieces_from(s: Seq<char>, current: Seq<char>) -> Seq<Seq<char>>
    decreases s.len(),
{
    if s.len() == 0 {
        seq![current]
    } else if continues_name(s[0]) {
        pieces_from(s.drop_first(), current.push(s[0]))
    } else {
        seq![current].add(pieces_from(s.drop_first(), Seq::empty()))
    }
}

pub open spec fn is_name_token(piece: Seq<char>) -> bool {
    piece.len() > 0 && starts_name(piece[0])
}

/// The pieces of `pieces` that start like a name, in order.
pub open spec fn name_tokens_of(pieces: Seq<Seq<char>>) -> Seq<Seq<char>>
    decreases pieces.len(),
{
    if pieces.len() == 0 {
        Seq::empty()
    } else if is_name_token(pieces[0]) {
        seq![pieces[0]].add(name_tokens_of(pieces.drop_first()))
    } else {
        name_tokens_of(pieces.drop_first())
    }
}

/// The names a piece of Go text reads: its name-like tokens, in order.
pub open spec fn name_tokens(s: Seq<char>) -> Seq<Seq<char>> {
    name_tokens_of(pieces_from(s, Seq::empty()))
}

pub proof fn lemma_name_tokens_of_add(a: Seq<Seq<char>>, b: Seq<Seq<char>>)
    ensures
        name_tokens_of(a.add(b)) == name_tokens_of(a).add(name_tokens_of(b)),
    decreases a.len(),
{
    if a.len() == 0 {
        assert(a.add(b) =~= b);
    } else {
        assert(a.add(b).drop_first() =~= a.drop_first().add(b));
        lemma_name_tokens_of_add(a.drop_first(), b);
        assert(a.add(b)[0] == a[0]);
        if is_name_token(a[0]) {
            assert(seq![a[0]].add(name_tokens_of(a.drop_first())).add(name_tokens_of(b))
                =~= seq![a[0]].add(name_tokens_of(a.drop_first()).add(name_tokens_of(b))));
        }
    }
}

/// `String::push`: appends the character to the end of the string.
#[verifier::external_body]
pub(crate) fn push_char(text: &mut String, c: char)
    ensures
        final(text)@ == old(text)@.push(c),
{
    text.push(c);
}

/// Whether two pieces of text are the same characters.
pub fn same_text(a: &str, b: &str) -> (r: bool)
    ensures
        r == (a@ == b@),
{
    let n = a.unicode_len();
    if n != b.unicode_len() {
        return false;
    }
    let mut i: usize = 0;
    while i < n
        invariant
            n == a@.len(),
            n == b@.len(),
            i <= n,
            forall|j: int| 0 <= j < i ==> a@[j] == b@[j],
        decreases n - i,
    {
        if a.get_char(i) != b.get_char(i) {
            return false;
        }
        i = i + 1;
    }
    assert(a@ =~= b@);
    true
}

/// Whether `s` is exactly one Go name.
pub fn is_plain_identifier_text(s: &str) -> (r: bool)
    ensures
        r == is_plain_identifier(s@),
{
    let n = s.unicode_len();
    if n == 0 {
        return false;
    }
    let first = s.get_char(0);
    if !(char_is_alphabetic(first) || first == '_') {
        return false;
    }
    let mut i: usize = 1;
    while i < n
        invariant
            n == s@.len(),
            1 <= i <= n,
            forall|j: int| 1 <= j < i ==> continues_name(#[trigger] s@[j]),
        decreases n - i,
    {
        let c = s.get_char(i);
        if !(char_is_alphanumeric(c) || c == '_') {
            return false;
        }
        i = i + 1;
    }
    true
}

/// The name-like tokens of `s`, in order, appended to `out`.
pub fn push_name_tokens(s: &str, out: &mut Vec<String>)
    ensures
        final(out)@.len() == old(out)@.len() + name_tokens(s@).len(),
        forall|i: int| 0 <= i < old(out)@.len() ==> final(out)@[i] == old(out)@[i],
        forall|i: int|
            0 <= i < name_tokens(s@).len() ==> #[trigger] final(out)@[old(out)@.len() + i]@
                == name_tokens(s@)[i],
{
    let n = s.unicode_len();
    let ghost text = s@;
    let ghost start_len = out@.len();
    let mut start: usize = 0;
    let mut i: usize = 0;
    let ghost mut emitted: Seq<Seq<char>> = Seq::empty();
    proof {
        assert(text.subrange(0, 0) =~= Seq::<char>::empty());
        assert(text.skip(0) =~= text);
    }
    while i < n
        invariant
            n == text.len(),
            text == s@,
            start <= i <= n,
            forall|j: int| start <= j < i ==> continues_name(#[trigger] text[j]),
            name_tokens(text) == emitted.add(
                name_tokens_of(pieces_from(text.skip(i as int), text.subrange(start as int, i as int))),
            ),
            out@.len() == start_len + emitted.len(),
            forall|k: int| 0 <= k < start_len ==> out@[k] == old(out)@[k],
            old(out)@.len() == start_len,
            forall|k: int| 0 <= k < emitted.len() ==> #[trigger] out@[start_len + k]@ == emitted[k],
        decreases n - i,
    {
        let c = s.get_char(i);
        let ghost rest = text.skip(i as int);
        let ghost current = text.subrange(start as int, i as int);
        proof {
            assert(rest[0] == c);
            assert(rest.drop_first() =~= text.skip(i + 1));
        }
        if char_is_alphanumeric(c) || c == '_' {
            proof {
                assert(current.push(c) =~= text.subrange(start as int, i + 1));
            }
        } else {
            let piece = s.substring_char(start, i);
            proof {
                lemma_name_tokens_of_add(seq![current], pieces_from(text.skip(i + 1), Seq::empty()));
                assert(text.subrange((i + 1) as int, (i + 1) as int) =~= Seq::<char>::empty());
            }
            if piece.unicode_len() > 0 {
                let first = piece.get_char(0);
                if char_is_alphabetic(first) || first == '_' {
                    out.push(piece.to_owned());
                    proof {
                        reveal_with_fuel(name_tokens_of, 2);
                        assert(name_tokens_of(seq![current]) =~= seq![current]);
                        emitted = emitted.push(current);
                        assert(emitted.add(name_tokens_of(pieces_from(text.skip(i + 1), Seq::empty())))
                            =~= emitted.drop_last().add(seq![current]).add(
                                name_tokens_of(pieces_from(text.skip(i + 1), Seq::empty())),
                            ));
                    }
                } else {
                    proof {
                        reveal_with_fuel(name_tokens_of, 2);
                        assert(name_tokens_of(seq![current]) =~= Seq::<Seq<char>>::empty());
                        assert(Seq::<Seq<char>>::empty().add(name_tokens_of(pieces_from(text.skip(i + 1), Seq::empty())))
                            =~= name_tokens_of(pieces_from(text.skip(i + 1), Seq::empty())));
                    }
                }
            } else {
                proof {
                    reveal_with_fuel(name_tokens_of, 2);
                    assert(name_tokens_of(seq![current]) =~= Seq::<Seq<char>>::empty());
                    assert(Seq::<Seq<char>>::empty().add(name_tokens_of(pieces_from(text.skip(i + 1), Seq::empty())))
                        =~= name_tokens_of(pieces_from(text.skip(i + 1), Seq::empty())));
                }
            }
            start = i + 1;
        }
        i = i + 1;
    }
    let piece = s.substring_char(start, n);
    let ghost current = text.subrange(start as int, n as int);
    proof {
        assert(text.skip(n as int) =~= Seq::<char>::empty());
        reveal_with_fuel(name_tokens_of, 2);
    }
    if piece.unicode_len() > 0 {
        let first = piece.get_char(0);
        if char_is_alphabetic(first) || first == '_' {
            out.push(piece.to_owned());
            proof {
                emitted = emitted.push(current);
            }
        }
    }
    proof {
        assert(name_tokens(text) =~= emitted);
    }
}

} // verus!
