//! The bytes a string literal holds at run time.
//!
//! A literal's text arrives with its escapes as written; a raw literal
//! keeps its backslashes. The escapes read here are the lexer's: `\a \b \f
//! \n \r \t \v \\ \" \'`, `\xHH`, `\u{H..}` (one to six digits), `\UHHHHHHHH`
//! and octal `\ooo` (one to three digits, at most 255). Any other escape, or
//! one cut short, leaves the literal without a reading.
//!
//! Pattern checks compare a string literal with a target by these bytes, so
//! that two spellings of one value match.

use crate::framing::chars_of;
use crate::text::same_text;
use vstd::prelude::*;
use vstd::string::*;
use vstd::utf8::{encode_scalar, encode_utf8, is_scalar};

verus! {

/// The value of a hexadecimal digit.
pub open spec fn hex_value(c: char) -> Option<nat> {
    if '0' <= c && c <= '9' {
        Some(((c as u32) - ('0' as u32)) as nat)
    } else if 'a' <= c && c <= 'f' {
        Some(((c as u32) - ('a' as u32) + 10) as nat)
    } else if 'A' <= c && c <= 'F' {
        Some(((c as u32) - ('A' as u32) + 10) as nat)
    } else {
        None
    }
}

/// The value of an octal digit.
pub open spec fn octal_value(c: char) -> Option<nat> {
    if '0' <= c && c <= '7' {
        Some(((c as u32) - ('0' as u32)) as nat)
    } else {
        None
    }
}

/// The byte a one-letter escape stands for.
pub open spec fn simple_escape(c: char) -> Option<u8> {
    if c == 'a' {
        Some(7u8)
    } else if c == 'b' {
        Some(8u8)
    } else if c == 'f' {
        Some(12u8)
    } else if c == 'n' {
        Some(10u8)
    } else if c == 'r' {
        Some(13u8)
    } else if c == 't' {
        Some(9u8)
    } else if c == 'v' {
        Some(11u8)
    } else if c == '\\' {
        Some(92u8)
    } else if c == '"' {
        Some(34u8)
    } else if c == '\'' {
        Some(39u8)
    } else {
        None
    }
}

/// How many hexadecimal digits run from `i`, counting no further than `limit`.
pub open spec fn hex_run(cs: Seq<char>, i: int, limit: nat) -> nat
    decreases limit,
{
    if limit == 0 || i < 0 || i >= cs.len() || hex_value(cs[i]) is None {
        0
    } else {
        1 + hex_run(cs, i + 1, (limit - 1) as nat)
    }
}

/// The number the `count` hexadecimal digits from `i` spell.
pub open spec fn hex_number(cs: Seq<char>, i: int, count: nat) -> nat
    decreases count,
{
    if count == 0 {
        0
    } else {
        hex_number(cs, i, (count - 1) as nat) * 16 + hex_value(cs[i + count - 1]).unwrap()
    }
}

/// How many octal digits follow the first one at `i`, at most two.
pub open spec fn octal_more(cs: Seq<char>, i: int) -> nat {
    if i + 1 < cs.len() && octal_value(cs[i + 1]) is Some {
        if i + 2 < cs.len() && octal_value(cs[i + 2]) is Some {
            2
        } else {
            1
        }
    } else {
        0
    }
}

/// The number the `count` octal digits from `i` spell.
pub open spec fn octal_number(cs: Seq<char>, i: int, count: nat) -> nat
    decreases count,
{
    if count == 0 {
        0
    } else {
        octal_number(cs, i, (count - 1) as nat) * 8 + octal_value(cs[i + count - 1]).unwrap()
    }
}

/// The UTF-8 bytes of the character numbered `value`, if it names one.
pub open spec fn scalar_bytes(value: nat) -> Option<Seq<u8>> {
    if value <= u32::MAX && is_scalar(value as u32) {
        Some(encode_scalar(value as u32))
    } else {
        None
    }
}

/// The bytes of the escape whose letter is at `j` (just past the
/// backslash), and where the text goes on after it.
pub open spec fn escape_at(cs: Seq<char>, j: int) -> Option<(Seq<u8>, int)> {
    let e = cs[j];
    if simple_escape(e) is Some {
        Some((seq![simple_escape(e).unwrap()], j + 1))
    } else if e == 'x' {
        if hex_run(cs, j + 1, 2) == 2 {
            Some((seq![hex_number(cs, j + 1, 2) as u8], j + 3))
        } else {
            None
        }
    } else if e == 'u' {
        let count = hex_run(cs, j + 2, 7);
        if j + 1 < cs.len() && cs[j + 1] == '{' && 1 <= count <= 6 && j + 2 + count < cs.len() && cs[j + 2 + count]
            == '}' {
            match scalar_bytes(hex_number(cs, j + 2, count)) {
                Some(bytes) => Some((bytes, j + 3 + count)),
                None => None,
            }
        } else {
            None
        }
    } else if e == 'U' {
        if hex_run(cs, j + 1, 8) == 8 {
            match scalar_bytes(hex_number(cs, j + 1, 8)) {
                Some(bytes) => Some((bytes, j + 9)),
                None => None,
            }
        } else {
            None
        }
    } else if octal_value(e) is Some {
        let more = octal_more(cs, j);
        let value = octal_number(cs, j, more + 1);
        if value <= 255 {
            Some((seq![value as u8], j + 1 + more))
        } else {
            None
        }
    } else {
        None
    }
}

/// The bytes `found`, followed by the rest's, if the rest has a reading.
pub open spec fn prefixed(found: Seq<u8>, rest: Option<Seq<u8>>) -> Option<Seq<u8>> {
    match rest {
        Some(more) => Some(found + more),
        None => None,
    }
}

pub proof fn lemma_hex_run(cs: Seq<char>, i: int, limit: nat)
    requires
        0 <= i,
    ensures
        hex_run(cs, i, limit) <= limit,
        i + hex_run(cs, i, limit) <= cs.len() || hex_run(cs, i, limit) == 0,
        forall|k: int| 0 <= k < hex_run(cs, i, limit) ==> hex_value(#[trigger] cs[i + k]) is Some,
        hex_run(cs, i, limit) < limit ==> (i + hex_run(cs, i, limit) >= cs.len() || hex_value(cs[i + hex_run(cs, i, limit)]) is None),
    decreases limit,
{
    if !(limit == 0 || i >= cs.len() || hex_value(cs[i]) is None) {
        lemma_hex_run(cs, i + 1, (limit - 1) as nat);
        let n = hex_run(cs, i, limit);
        assert forall|k: int| 0 <= k < n implies hex_value(#[trigger] cs[i + k]) is Some by {
            if k > 0 {
                assert(cs[(i + 1) + (k - 1)] == cs[i + k]);
            }
        }
    }
}

/// The reading of the text from `i` on.
pub open spec fn decoded_from(cs: Seq<char>, i: int) -> Option<Seq<u8>>
    decreases cs.len() - i,
{
    if i < 0 || i >= cs.len() {
        Some(Seq::empty())
    } else if cs[i] != '\\' {
        prefixed(encode_scalar(cs[i] as u32), decoded_from(cs, i + 1))
    } else if i + 1 >= cs.len() {
        None
    } else {
        match escape_at(cs, i + 1) {
            None => None,
            Some((bytes, next)) => if i < next <= cs.len() {
                prefixed(bytes, decoded_from(cs, next))
            } else {
                None
            },
        }
    }
}

/// The bytes a literal holds at run time: a raw literal, or one without a
/// backslash, as written; any other with its escapes read.
pub open spec fn runtime_bytes_of(text: Seq<char>, raw: bool) -> Option<Seq<u8>> {
    if raw || !text.contains('\\') {
        Some(encode_utf8(text))
    } else {
        decoded_from(text, 0)
    }
}

/// The value of a hexadecimal digit.
fn hex_digit(c: char) -> (value: Option<u32>)
    ensures
        match value {
            Some(v) => hex_value(c) == Some(v as nat) && v < 16,
            None => hex_value(c) is None,
        },
{
    if '0' <= c && c <= '9' {
        Some((c as u32) - ('0' as u32))
    } else if 'a' <= c && c <= 'f' {
        Some((c as u32) - ('a' as u32) + 10)
    } else if 'A' <= c && c <= 'F' {
        Some((c as u32) - ('A' as u32) + 10)
    } else {
        None
    }
}

/// The value of an octal digit.
fn octal_digit(c: char) -> (value: Option<u32>)
    ensures
        match value {
            Some(v) => octal_value(c) == Some(v as nat) && v < 8,
            None => octal_value(c) is None,
        },
{
    if '0' <= c && c <= '7' {
        Some((c as u32) - ('0' as u32))
    } else {
        None
    }
}

/// `char::from_u32`: the character numbered `value`, if it is a Unicode
/// scalar value (at most `0x10FFFF` and not a surrogate).
#[verifier::external_body]
fn char_from_u32(value: u32) -> (c: Option<char>)
    ensures
        match c {
            Some(c) => is_scalar(value) && c as u32 == value,
            None => !is_scalar(value),
        },
{
    char::from_u32(value)
}

/// Appends the UTF-8 bytes of the character.
fn push_utf8(out: &mut Vec<u8>, c: char)
    ensures
        final(out)@ == old(out)@ + encode_scalar(c as u32),
{
    let u = c as u32;
    proof {
        vstd::utf8::char_is_scalar(c);
    }
    if u <= 0x7F {
        out.push((u & 0x7F) as u8);
    } else if u <= 0x7FF {
        out.push(0xC0 | ((u >> 6) & 0x1F) as u8);
        out.push(0x80 | (u & 0x3F) as u8);
    } else if u <= 0xFFFF {
        out.push(0xE0 | ((u >> 12) & 0x0F) as u8);
        out.push(0x80 | ((u >> 6) & 0x3F) as u8);
        out.push(0x80 | (u & 0x3F) as u8);
    } else {
        out.push(0xF0 | ((u >> 18) & 0x7) as u8);
        out.push(0x80 | ((u >> 12) & 0x3F) as u8);
        out.push(0x80 | ((u >> 6) & 0x3F) as u8);
        out.push(0x80 | (u & 0x3F) as u8);
    }
}

/// Reads up to `limit` hexadecimal digits from `i`: how many there are and
/// the number they spell.
fn read_hex(cs: &Vec<char>, i: usize, limit: usize) -> (run: (usize, u64))
    requires
        i <= cs@.len(),
        limit <= 8,
    ensures
        run.0 == hex_run(cs@, i as int, limit as nat),
        run.1 == hex_number(cs@, i as int, run.0 as nat),
        run.1 < pow16(run.0 as nat),
{
    proof {
        lemma_hex_run(cs@, i as int, limit as nat);
    }
    let mut count: usize = 0;
    let mut value: u64 = 0;
    let mut going = true;
    while going && count < limit && count < cs.len() - i
        invariant
            i <= cs@.len(),
            limit <= 8,
            count <= limit,
            i + count <= cs@.len(),
            count <= hex_run(cs@, i as int, limit as nat),
            value == hex_number(cs@, i as int, count as nat),
            value < pow16(count as nat),
            hex_run(cs@, i as int, limit as nat) == count + hex_run(cs@, i + count, (limit - count) as nat),
            !going ==> count < limit && i + count < cs@.len() && hex_value(cs@[i + count]) is None,
        decreases limit - count + if going { 1int } else { 0int },
    {
        match hex_digit(cs[i + count]) {
            Some(d) => {
                proof {
                    lemma_pow16_step(count as nat);
                    assert(value * 16 + d < pow16(count as nat + 1)) by (nonlinear_arith)
                        requires
                            value < pow16(count as nat),
                            d < 16,
                            pow16(count as nat + 1) == pow16(count as nat) * 16;
                    lemma_pow16_bound(count as nat + 1);
                }
                value = value * 16 + d as u64;
                count = count + 1;
            },
            None => {
                going = false;
            },
        }
    }
    (count, value)
}

/// Sixteen to the power `n`.
pub open spec fn pow16(n: nat) -> nat
    decreases n,
{
    if n == 0 {
        1
    } else {
        pow16((n - 1) as nat) * 16
    }
}

proof fn lemma_pow16_step(n: nat)
    ensures
        pow16(n + 1) == pow16(n) * 16,
{
}

proof fn lemma_pow16_bound(n: nat)
    requires
        n <= 8,
    ensures
        pow16(n) <= 0x1_0000_0000,
    decreases n,
{
    reveal_with_fuel(pow16, 9);
}

/// The bytes of the escape whose letter is at `j`, and where the text goes
/// on after it.
fn read_escape(cs: &Vec<char>, j: usize) -> (escape: Option<(Vec<u8>, usize)>)
    requires
        j < cs@.len(),
    ensures
        match escape {
            Some((bytes, next)) => escape_at(cs@, j as int) == Some((bytes@, next as int)) && j < next <= cs@.len(),
            None => escape_at(cs@, j as int) is None,
        },
{
    let n = cs.len();
    let e = cs[j];
    let mut bytes: Vec<u8> = Vec::new();
    let simple: Option<u8> = if e == 'a' {
        Some(7)
    } else if e == 'b' {
        Some(8)
    } else if e == 'f' {
        Some(12)
    } else if e == 'n' {
        Some(10)
    } else if e == 'r' {
        Some(13)
    } else if e == 't' {
        Some(9)
    } else if e == 'v' {
        Some(11)
    } else if e == '\\' {
        Some(92)
    } else if e == '"' {
        Some(34)
    } else if e == '\'' {
        Some(39)
    } else {
        None
    };
    assert(simple == simple_escape(e));
    if let Some(byte) = simple {
        bytes.push(byte);
        proof {
            assert(bytes@ =~= seq![byte]);
        }
        return Some((bytes, j + 1));
    }
    if e == 'x' {
        let (count, value) = read_hex(cs, j + 1, 2);
        if count != 2 {
            return None;
        }
        proof {
            lemma_hex_run(cs@, j + 1, 2);
            reveal_with_fuel(hex_number, 3);
            assert(value < 256);
        }
        bytes.push(value as u8);
        proof {
            assert(bytes@ =~= seq![hex_number(cs@, j + 1, 2) as u8]);
        }
        return Some((bytes, j + 3));
    }
    if e == 'u' {
        if j + 1 >= cs.len() || cs[j + 1] != '{' {
            return None;
        }
        let (count, value) = read_hex(cs, j + 2, 7);
        proof {
            lemma_hex_run(cs@, j + 2, 7);
        }
        if count < 1 || count > 6 || count >= cs.len() - (j + 2) || cs[j + 2 + count] != '}' {
            return None;
        }
        proof {
            reveal_with_fuel(pow16, 8);
            assert(value < pow16(count as nat));
            assert(pow16(count as nat) <= 0x1_000_000) by {
                lemma_pow16_bound(6);
                lemma_pow16_monotone(count as nat, 6);
            }
        }
        match char_from_u32(value as u32) {
            Some(c) => {
                push_utf8(&mut bytes, c);
                proof {
                    assert(bytes@ =~= encode_scalar(c as u32));
                }
                Some((bytes, j + 3 + count))
            },
            None => None,
        }
    } else if e == 'U' {
        let (count, value) = read_hex(cs, j + 1, 8);
        if count != 8 {
            return None;
        }
        proof {
            lemma_hex_run(cs@, j + 1, 8);
            lemma_pow16_bound(8);
            assert(value < 0x1_0000_0000);
        }
        match char_from_u32(value as u32) {
            Some(c) => {
                push_utf8(&mut bytes, c);
                proof {
                    assert(bytes@ =~= encode_scalar(c as u32));
                }
                Some((bytes, j + 9))
            },
            None => None,
        }
    } else {
        match octal_digit(e) {
            None => None,
            Some(first) => {
                let mut value = first;
                let mut more: usize = 0;
                if j + 1 < cs.len() {
                    if let Some(second) = octal_digit(cs[j + 1]) {
                        value = value * 8 + second;
                        more = 1;
                        if j + 2 < cs.len() {
                            if let Some(third) = octal_digit(cs[j + 2]) {
                                value = value * 8 + third;
                                more = 2;
                            }
                        }
                    }
                }
                proof {
                    assert(more == octal_more(cs@, j as int));
                    reveal_with_fuel(octal_number, 4);
                    assert(value == octal_number(cs@, j as int, more as nat + 1));
                }
                if value > 255 {
                    return None;
                }
                bytes.push(value as u8);
                proof {
                    assert(bytes@ =~= seq![value as u8]);
                }
                Some((bytes, j + 1 + more))
            },
        }
    }
}

proof fn lemma_pow16_monotone(a: nat, b: nat)
    requires
        a <= b,
    ensures
        pow16(a) <= pow16(b),
    decreases b - a,
{
    if a < b {
        lemma_pow16_monotone(a, (b - 1) as nat);
    }
}

/// The bytes a literal holds at run time, unless an escape in it cannot be
/// read.
pub fn runtime_bytes(text: &str, raw: bool) -> (bytes: Option<Vec<u8>>)
    ensures
        match bytes {
            Some(found) => runtime_bytes_of(text@, raw) == Some(found@),
            None => runtime_bytes_of(text@, raw) is None,
        },
{
    let cs = chars_of(text);
    let mut has_escape = false;
    let mut k: usize = 0;
    while k < cs.len()
        invariant
            k <= cs@.len(),
            cs@ == text@,
            has_escape == cs@.take(k as int).contains('\\'),
        decreases cs@.len() - k,
    {
        proof {
            let seen = cs@.take(k as int);
            let next = cs@.take(k + 1);
            assert(next =~= seen.push(cs@[k as int]));
            if seen.contains('\\') {
                let j = choose|j: int| 0 <= j < seen.len() && #[trigger] seen[j] == '\\';
                assert(next[j] == '\\');
            }
            if next.contains('\\') {
                let j = choose|j: int| 0 <= j < next.len() && #[trigger] next[j] == '\\';
                if j < k {
                    assert(seen[j] == '\\');
                }
            }
        }
        if cs[k] == '\\' {
            proof {
                assert(cs@.take(k + 1)[k as int] == '\\');
            }
            has_escape = true;
        }
        k = k + 1;
    }
    proof {
        assert(cs@.take(k as int) =~= text@);
    }
    if raw || !has_escape {
        return Some(text.as_bytes_vec());
    }
    let mut out: Vec<u8> = Vec::new();
    let mut i: usize = 0;
    while i < cs.len()
        invariant
            i <= cs@.len(),
            cs@ == text@,
            !raw,
            text@.contains('\\'),
            decoded_from(cs@, 0) == prefixed(out@, decoded_from(cs@, i as int)),
        decreases cs@.len() - i,
    {
        if cs[i] != '\\' {
            let ghost before = out@;
            push_utf8(&mut out, cs[i]);
            proof {
                match decoded_from(cs@, i + 1) {
                    Some(rest) => {
                        assert(before + (encode_scalar(cs@[i as int] as u32) + rest) =~= (before + encode_scalar(
                            cs@[i as int] as u32,
                        )) + rest);
                    },
                    None => {},
                }
            }
            i = i + 1;
            continue;
        }
        if i + 1 >= cs.len() {
            return None;
        }
        match read_escape(&cs, i + 1) {
            None => {
                return None;
            },
            Some((bytes, next)) => {
                let ghost before = out@;
                let ghost found = bytes@;
                let mut bytes = bytes;
                out.append(&mut bytes);
                proof {
                    match decoded_from(cs@, next as int) {
                        Some(rest) => {
                            assert(before + (found + rest) =~= (before + found) + rest);
                        },
                        None => {},
                    }
                }
                i = next;
            },
        }
    }
    proof {
        assert(out@ + Seq::<u8>::empty() =~= out@);
    }
    Some(out)
}

/// A literal as the pattern checks compare it: a string literal with its
/// text as written and whether it is raw, or any other literal by its text.
#[derive(Debug, PartialEq, Eq)]
pub enum Literal {
    String { value: String, raw: bool },
    Other { text: String },
}

/// Whether two literals are the same as written.
pub open spec fn same_literal(a: Literal, b: Literal) -> bool {
    match (a, b) {
        (Literal::String { value: av, raw: ar }, Literal::String { value: bv, raw: br }) => av@ == bv@ && ar == br,
        (Literal::Other { text: at }, Literal::Other { text: bt }) => at@ == bt@,
        _ => false,
    }
}

/// The run-time bytes of a string literal; none for other literals.
pub open spec fn literal_bytes(literal: Literal) -> Option<Seq<u8>> {
    match literal {
        Literal::String { value, raw } => runtime_bytes_of(value@, raw),
        Literal::Other { .. } => None,
    }
}

/// Whether `candidate` matches `target`: the same literal as written, or,
/// for two string literals, the same bytes at run time where the target's
/// bytes are given and the candidate's can be read.
pub open spec fn matches_target(candidate: Literal, target: Literal, target_bytes: Option<Seq<u8>>) -> bool {
    if same_literal(candidate, target) {
        true
    } else if candidate is String && target is String && target_bytes is Some && literal_bytes(candidate) is Some {
        literal_bytes(candidate) == target_bytes
    } else {
        false
    }
}

/// The run-time bytes of a string literal.
pub fn literal_runtime_bytes(literal: &Literal) -> (bytes: Option<Vec<u8>>)
    ensures
        match bytes {
            Some(found) => literal_bytes(*literal) == Some(found@),
            None => literal_bytes(*literal) is None,
        },
{
    match literal {
        Literal::String { value, raw } => runtime_bytes(value.as_str(), *raw),
        Literal::Other { .. } => None,
    }
}

fn same_bytes(a: &Vec<u8>, b: &Vec<u8>) -> (same: bool)
    ensures
        same == (a@ == b@),
{
    if a.len() != b.len() {
        return false;
    }
    let mut i: usize = 0;
    while i < a.len()
        invariant
            a@.len() == b@.len(),
            i <= a@.len(),
            forall|j: int| 0 <= j < i ==> a@[j] == b@[j],
        decreases a@.len() - i,
    {
        if a[i] != b[i] {
            return false;
        }
        i = i + 1;
    }
    assert(a@ =~= b@);
    true
}

/// Whether the candidate literal matches the target literal, whose
/// run-time bytes are `target_bytes` where they were read.
pub fn equals_target(candidate: &Literal, target: &Literal, target_bytes: Option<&Vec<u8>>) -> (equal: bool)
    ensures
        equal == matches_target(
            *candidate,
            *target,
            match target_bytes {
                Some(b) => Some(b@),
                None => None,
            },
        ),
{
    if let Literal::String { value: cv, raw: cr } = candidate {
        if let Literal::String { value: tv, raw: tr } = target {
            if *cr == *tr && same_text(cv.as_str(), tv.as_str()) {
                return true;
            }
            if let Some(wanted) = target_bytes {
                if let Some(found) = runtime_bytes(cv.as_str(), *cr) {
                    return same_bytes(&found, wanted);
                }
            }
            return false;
        }
    }
    match (candidate, target) {
        (Literal::Other { text: a }, Literal::Other { text: b }) => same_text(a.as_str(), b.as_str()),
        _ => false,
    }
}

/// Escapes read as Go reads them: each one-letter escape stands for its
/// control or quote byte (`\a`=7, `\b`=8, `\f`=12, `\n`=10, `\r`=13,
/// `\t`=9, `\v`=11, and the backslash and quotes for themselves); `\xHL`
/// is the byte `16*H + L`; three octal digits `\abc` are the byte
/// `64*a + 8*b + c`; an unknown escape or a lone backslash at the end has
/// no reading. A raw literal, or one without a backslash, holds the UTF-8
/// bytes of its text.
pub proof fn law_escapes_read_as_go_does(cs: Seq<char>, i: int, text: Seq<char>)
    requires
        0 <= i,
    ensures
        runtime_bytes_of(text, true) == Some(encode_utf8(text)),
        !text.contains('\\') ==> runtime_bytes_of(text, false) == Some(encode_utf8(text)),
        i + 1 < cs.len() && cs[i] == '\\' && cs[i + 1] == 'a' ==> decoded_from(cs, i) == prefixed(seq![7u8], decoded_from(cs, i + 2)),
        i + 1 < cs.len() && cs[i] == '\\' && cs[i + 1] == 'b' ==> decoded_from(cs, i) == prefixed(seq![8u8], decoded_from(cs, i + 2)),
        i + 1 < cs.len() && cs[i] == '\\' && cs[i + 1] == 'f' ==> decoded_from(cs, i) == prefixed(seq![12u8], decoded_from(cs, i + 2)),
        i + 1 < cs.len() && cs[i] == '\\' && cs[i + 1] == 'n' ==> decoded_from(cs, i) == prefixed(seq![10u8], decoded_from(cs, i + 2)),
        i + 1 < cs.len() && cs[i] == '\\' && cs[i + 1] == 'r' ==> decoded_from(cs, i) == prefixed(seq![13u8], decoded_from(cs, i + 2)),
        i + 1 < cs.len() && cs[i] == '\\' && cs[i + 1] == 't' ==> decoded_from(cs, i) == prefixed(seq![9u8], decoded_from(cs, i + 2)),
        i + 1 < cs.len() && cs[i] == '\\' && cs[i + 1] == 'v' ==> decoded_from(cs, i) == prefixed(seq![11u8], decoded_from(cs, i + 2)),
        i + 1 < cs.len() && cs[i] == '\\' && cs[i + 1] == '\\' ==> decoded_from(cs, i) == prefixed(seq![92u8], decoded_from(cs, i + 2)),
        i + 1 < cs.len() && cs[i] == '\\' && cs[i + 1] == '"' ==> decoded_from(cs, i) == prefixed(seq![34u8], decoded_from(cs, i + 2)),
        i + 1 < cs.len() && cs[i] == '\\' && cs[i + 1] == '\'' ==> decoded_from(cs, i) == prefixed(seq![39u8], decoded_from(cs, i + 2)),
        i + 3 < cs.len() && cs[i] == '\\' && cs[i + 1] == 'x' && hex_value(cs[i + 2]) is Some && hex_value(cs[i + 3]) is Some
            ==> decoded_from(cs, i) == prefixed(
            seq![(16 * hex_value(cs[i + 2]).unwrap() + hex_value(cs[i + 3]).unwrap()) as u8],
            decoded_from(cs, i + 4),
        ),
        i + 3 < cs.len() && cs[i] == '\\' && octal_value(cs[i + 1]) is Some && octal_value(cs[i + 2]) is Some
            && octal_value(cs[i + 3]) is Some && 64 * octal_value(cs[i + 1]).unwrap() + 8 * octal_value(cs[i + 2]).unwrap()
            + octal_value(cs[i + 3]).unwrap() <= 255 ==> decoded_from(cs, i) == prefixed(
            seq![(64 * octal_value(cs[i + 1]).unwrap() + 8 * octal_value(cs[i + 2]).unwrap() + octal_value(cs[i + 3]).unwrap()) as u8],
            decoded_from(cs, i + 4),
        ),
        i + 1 < cs.len() && cs[i] == '\\' && cs[i + 1] == 'q' ==> decoded_from(cs, i) is None,
        i + 1 == cs.len() && cs[i] == '\\' ==> decoded_from(cs, i) is None,
        hex_value('0') == Some(0nat) && hex_value('9') == Some(9nat) && hex_value('a') == Some(10nat)
            && hex_value('f') == Some(15nat) && hex_value('A') == Some(10nat) && hex_value('F') == Some(15nat)
            && hex_value('g') is None,
        octal_value('0') == Some(0nat) && octal_value('7') == Some(7nat) && octal_value('8') is None,
{
    reveal_with_fuel(hex_run, 3);
    reveal_with_fuel(hex_number, 3);
    reveal_with_fuel(octal_number, 4);
}

} // verus!
