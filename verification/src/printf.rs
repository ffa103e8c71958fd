//! Reading a `printf`-style format string the way Go's `fmt` does, to count
//! the arguments it consumes.
//!
//! A directive is `%`, flags (`+ - # space 0`), a width (`*` or digits), an
//! optional precision (`.` then `*` or digits) and a verb. A `*` takes an
//! argument, and so does every verb but `%`. Explicit argument indexes
//! (`[n]`) and a format that ends inside a directive are not modelled: the
//! format then has no answer.

use vstd::prelude::*;
use vstd::std_specs::iter::IteratorSpec;

verus! {

/// What takes an argument in a format string.
#[derive(Debug, Clone, Copy, PartialEq, Eq, Structural)]
pub enum PrintfOperand {
    /// A `*` width.
    StarWidth,
    /// A `*` precision.
    StarPrecision,
    /// A verb other than `%`.
    Verb(char),
}

pub open spec fn is_flag(b: u8) -> bool {
    b == 43 || b == 45 || b == 35 || b == 32 || b == 48
}

/// An ASCII letter.
pub open spec fn is_letter(b: u8) -> bool {
    (65 <= b <= 90) || (97 <= b <= 122)
}

pub open spec fn is_digit_byte(b: u8) -> bool {
    48 <= b <= 57
}

/// The position past the flags that start at `p`.
pub open spec fn past_flags(format: Seq<u8>, p: int) -> int
    decreases format.len() - p,
{
    if 0 <= p < format.len() && is_flag(format[p]) {
        past_flags(format, p + 1)
    } else {
        p
    }
}

/// The position past the digits that start at `p`.
pub open spec fn past_digits(format: Seq<u8>, p: int) -> int
    decreases format.len() - p,
{
    if 0 <= p < format.len() && is_digit_byte(format[p]) {
        past_digits(format, p + 1)
    } else {
        p
    }
}

/// The verb at the start of `tail` and how many bytes it takes: an ASCII
/// byte is itself; otherwise the first of 2, 3 or 4 bytes that are one
/// whole UTF-8 character; failing that, U+FFFD over one byte. An empty
/// tail has no verb.
pub open spec fn verb_at(tail: Seq<u8>) -> Option<(char, int)> {
    if tail.len() == 0 {
        None
    } else if tail[0] < 0x80 {
        Some((tail[0] as char, 1int))
    } else if tail.len() >= 2 && vstd::utf8::valid_utf8(tail.take(2)) {
        Some((vstd::utf8::decode_utf8(tail.take(2))[0], 2int))
    } else if tail.len() >= 3 && vstd::utf8::valid_utf8(tail.take(3)) {
        Some((vstd::utf8::decode_utf8(tail.take(3))[0], 3int))
    } else if tail.len() >= 4 && vstd::utf8::valid_utf8(tail.take(4)) {
        Some((vstd::utf8::decode_utf8(tail.take(4))[0], 4int))
    } else {
        Some(('\u{fffd}', 1int))
    }
}

/// The width part of a directive from `p`: what it takes and where it ends.
pub open spec fn width_part(format: Seq<u8>, p: int) -> (Seq<PrintfOperand>, int) {
    if p < format.len() && format[p] == 42 {
        (seq![PrintfOperand::StarWidth], p + 1)
    } else {
        (Seq::empty(), past_digits(format, p))
    }
}

/// The precision part of a directive from `p`, unless it holds an explicit
/// argument index.
pub open spec fn precision_part(format: Seq<u8>, p: int) -> Option<(Seq<PrintfOperand>, int)> {
    if p < format.len() && format[p] == 46 {
        let q = p + 1;
        if q < format.len() && format[q] == 91 {
            None
        } else if q < format.len() && format[q] == 42 {
            Some((seq![PrintfOperand::StarPrecision], q + 1))
        } else {
            Some((Seq::empty(), past_digits(format, q)))
        }
    } else {
        Some((Seq::empty(), p))
    }
}

/// The directive whose `%` stands just before `p`: what it takes and where
/// it ends, unless it holds an argument index or has no verb.
pub open spec fn directive(format: Seq<u8>, p: int) -> Option<(Seq<PrintfOperand>, int)> {
    let flagged = past_flags(format, p);
    if flagged < format.len() && format[flagged] == 91 {
        None
    } else {
        let (width, after_width) = width_part(format, flagged);
        match precision_part(format, after_width) {
            None => None,
            Some((precision, after_precision)) => if after_precision < format.len() && format[after_precision] == 91 {
                None
            } else {
                match verb_at(format.subrange(after_precision, format.len() as int)) {
                    None => None,
                    Some((verb, length)) => Some((
                        width + precision + if verb == '%' {
                            Seq::<PrintfOperand>::empty()
                        } else {
                            seq![PrintfOperand::Verb(verb)]
                        },
                        after_precision + length,
                    )),
                }
            },
        }
    }
}

pub proof fn lemma_past_flags(format: Seq<u8>, p: int)
    requires
        0 <= p <= format.len(),
    ensures
        p <= past_flags(format, p) <= format.len(),
    decreases format.len() - p,
{
    if p < format.len() && is_flag(format[p]) {
        lemma_past_flags(format, p + 1);
    }
}

pub proof fn lemma_past_digits(format: Seq<u8>, p: int)
    requires
        0 <= p <= format.len(),
    ensures
        p <= past_digits(format, p) <= format.len(),
    decreases format.len() - p,
{
    if p < format.len() && is_digit_byte(format[p]) {
        lemma_past_digits(format, p + 1);
    }
}

/// A directive ends past where it starts, and within the format.
pub proof fn lemma_directive_ends(format: Seq<u8>, p: int)
    requires
        0 <= p <= format.len(),
    ensures
        directive(format, p) matches Some((_, next)) ==> p < next <= format.len(),
{
    lemma_past_flags(format, p);
    let flagged = past_flags(format, p);
    lemma_past_digits(format, flagged);
    let after_width = width_part(format, flagged).1;
    if after_width < format.len() && format[after_width] == 46 {
        lemma_past_digits(format, after_width + 1);
    }
}

/// The operands of the format from position `p` on, unless a directive
/// there is not modelled.
pub open spec fn operands_from(format: Seq<u8>, p: int) -> Option<Seq<PrintfOperand>>
    decreases format.len() - p,
{
    if p < 0 || p >= format.len() {
        Some(Seq::empty())
    } else if format[p] != 37 {
        operands_from(format, p + 1)
    } else {
        match directive(format, p + 1) {
            None => None,
            Some((taken, next)) => {
                proof {
                    lemma_directive_ends(format, p + 1);
                }
                match operands_from(format, next) {
                    None => None,
                    Some(rest) => Some(taken + rest),
                }
            },
        }
    }
}

/// The operands found so far, followed by those the rest of the format
/// holds, if it can be read.
pub open spec fn followed(found: Seq<PrintfOperand>, rest: Option<Seq<PrintfOperand>>) -> Option<Seq<PrintfOperand>> {
    match rest {
        Some(more) => Some(found + more),
        None => None,
    }
}

/// `std::str::from_utf8`: the text the bytes encode when they are valid
/// UTF-8; its error case, for invalid bytes, becomes `None`.
#[verifier::external_body]
fn text_of_utf8(bytes: &[u8]) -> (text: Option<&str>)
    ensures
        match text {
            Some(t) => vstd::utf8::valid_utf8(bytes@) && vstd::utf8::encode_utf8(t@) == bytes@,
            None => !vstd::utf8::valid_utf8(bytes@),
        },
{
    std::str::from_utf8(bytes).ok()
}

/// The first `width` bytes from `at`.
fn bytes_from(format: &[u8], at: usize, width: usize) -> (piece: Vec<u8>)
    requires
        at + width <= format@.len(),
    ensures
        piece@ == format@.subrange(at as int, at + width),
{
    let mut piece: Vec<u8> = Vec::new();
    let n = format.len();
    let mut k: usize = 0;
    while k < width
        invariant
            k <= width,
            n == format@.len(),
            at + width <= n,
            piece@ == format@.subrange(at as int, at + k),
        decreases width - k,
    {
        piece.push(format[at + k]);
        proof {
            assert(format@.subrange(at as int, at + k + 1) =~= format@.subrange(at as int, at + k).push(format@[at + k]));
        }
        k = k + 1;
    }
    piece
}

/// The verb at `at` and how many bytes it takes.
fn read_verb(format: &[u8], at: usize) -> (verb: Option<(char, usize)>)
    requires
        at <= format@.len(),
    ensures
        match verb {
            Some((c, w)) => verb_at(format@.subrange(at as int, format@.len() as int)) == Some((c, w as int)),
            None => verb_at(format@.subrange(at as int, format@.len() as int)) is None,
        },
{
    let ghost tail = format@.subrange(at as int, format@.len() as int);
    if at >= format.len() {
        return None;
    }
    let first = format[at];
    if first < 0x80 {
        return Some((first as char, 1));
    }
    let mut width: usize = 2;
    while width <= 4
        invariant
            2 <= width <= 5,
            at < format@.len(),
            tail == format@.subrange(at as int, format@.len() as int),
            tail[0] >= 0x80,
            forall|w: int| 2 <= w < width ==> !(tail.len() >= w && vstd::utf8::valid_utf8(#[trigger] tail.take(w))),
        decreases 5 - width,
    {
        if width <= format.len() - at {
            let piece = bytes_from(format, at, width);
            proof {
                assert(piece@ =~= tail.take(width as int));
            }
            match text_of_utf8(piece.as_slice()) {
                Some(text) => {
                    proof {
                        vstd::utf8::encode_utf8_decode_utf8(text@);
                        if text@.len() == 0 {
                            assert(vstd::utf8::encode_utf8(text@) =~= Seq::<u8>::empty());
                        }
                    }
                    let mut chars = text.chars();
                    match chars.next() {
                        Some(c) => {
                            return Some((c, width));
                        },
                        None => {},
                    }
                },
                None => {},
            }
        }
        width = width + 1;
    }
    Some(('\u{fffd}', 1))
}

/// The position past the flags from `p`.
fn skip_flags(format: &[u8], p: usize) -> (q: usize)
    requires
        p <= format@.len(),
    ensures
        q == past_flags(format@, p as int),
{
    let mut q = p;
    while q < format.len() && (format[q] == 43 || format[q] == 45 || format[q] == 35 || format[q] == 32 || format[q] == 48)
        invariant
            p <= q <= format@.len(),
            past_flags(format@, p as int) == past_flags(format@, q as int),
        decreases format@.len() - q,
    {
        q = q + 1;
    }
    q
}

/// The position past the digits from `p`.
fn skip_digits(format: &[u8], p: usize) -> (q: usize)
    requires
        p <= format@.len(),
    ensures
        q == past_digits(format@, p as int),
{
    let mut q = p;
    while q < format.len() && 48 <= format[q] && format[q] <= 57
        invariant
            p <= q <= format@.len(),
            past_digits(format@, p as int) == past_digits(format@, q as int),
        decreases format@.len() - q,
    {
        q = q + 1;
    }
    q
}

/// The directive whose `%` stands just before `p`.
fn read_directive(format: &[u8], p: usize) -> (found: Option<(Vec<PrintfOperand>, usize)>)
    requires
        p <= format@.len(),
    ensures
        match found {
            Some((taken, next)) => directive(format@, p as int) == Some((taken@, next as int)),
            None => directive(format@, p as int) is None,
        },
{
    proof {
        lemma_past_flags(format@, p as int);
    }
    let mut cursor = skip_flags(format, p);
    if cursor < format.len() && format[cursor] == 91 {
        return None;
    }
    let mut taken: Vec<PrintfOperand> = Vec::new();
    if cursor < format.len() && format[cursor] == 42 {
        taken.push(PrintfOperand::StarWidth);
        cursor = cursor + 1;
    } else {
        proof {
            lemma_past_digits(format@, cursor as int);
        }
        cursor = skip_digits(format, cursor);
    }
    let ghost width = taken@;
    let ghost after_width = cursor as int;
    assert(width_part(format@, past_flags(format@, p as int)) == (width, after_width));
    if cursor < format.len() && format[cursor] == 46 {
        cursor = cursor + 1;
        if cursor < format.len() && format[cursor] == 91 {
            return None;
        }
        if cursor < format.len() && format[cursor] == 42 {
            taken.push(PrintfOperand::StarPrecision);
            cursor = cursor + 1;
        } else {
            proof {
                lemma_past_digits(format@, cursor as int);
            }
            cursor = skip_digits(format, cursor);
        }
    }
    let ghost precision = taken@.skip(width.len() as int);
    assert(taken@ =~= width + precision);
    assert(precision_part(format@, after_width) == Some((precision, cursor as int)));
    if cursor < format.len() && format[cursor] == 91 {
        return None;
    }
    match read_verb(format, cursor) {
        None => None,
        Some((verb, length)) => {
            if verb != '%' {
                taken.push(PrintfOperand::Verb(verb));
            }
            proof {
                if verb == '%' {
                    assert(taken@ =~= width + precision + Seq::<PrintfOperand>::empty());
                } else {
                    assert(taken@ =~= width + precision + seq![PrintfOperand::Verb(verb)]);
                }
            }
            Some((taken, cursor + length))
        },
    }
}

/// The arguments the format consumes, in order, unless it holds an explicit
/// argument index or ends inside a directive.
pub fn format_operands(format: &[u8]) -> (operands: Option<Vec<PrintfOperand>>)
    ensures
        match operands {
            Some(found) => operands_from(format@, 0) == Some(found@),
            None => operands_from(format@, 0) is None,
        },
{
    let mut operands: Vec<PrintfOperand> = Vec::new();
    let mut cursor: usize = 0;
    while cursor < format.len()
        invariant
            cursor <= format@.len(),
            operands_from(format@, 0) == followed(operands@, operands_from(format@, cursor as int)),
        decreases format@.len() - cursor,
    {
        if format[cursor] != 37 {
            cursor = cursor + 1;
            continue;
        }
        proof {
            lemma_directive_ends(format@, cursor + 1);
        }
        match read_directive(format, cursor + 1) {
            None => {
                return None;
            },
            Some((taken, next)) => {
                let ghost before = operands@;
                let ghost found = taken@;
                let mut taken = taken;
                operands.append(&mut taken);
                proof {
                    match operands_from(format@, next as int) {
                        Some(rest) => {
                            assert(before + (found + rest) =~= (before + found) + rest);
                        },
                        None => {},
                    }
                }
                cursor = next;
            },
        }
    }
    proof {
        assert(operands@ + Seq::<PrintfOperand>::empty() =~= operands@);
    }
    Some(operands)
}

/// The position of the format-string argument of the `printf`-style
/// functions the check knows, by package and function name.
pub open spec fn printf_target_spec(package: Seq<char>, function: Seq<char>) -> Option<usize> {
    if package == "go:fmt"@ {
        if function == "Appendf"@ || function == "Fprintf"@ {
            Some(1usize)
        } else if function == "Errorf"@ || function == "Printf"@ || function == "Sprintf"@ {
            Some(0usize)
        } else {
            None
        }
    } else if package == "go:log"@ {
        if function == "Fatalf"@ || function == "Panicf"@ || function == "Printf"@ {
            Some(0usize)
        } else {
            None
        }
    } else {
        None
    }
}

/// Where the format string stands among the arguments of `package.function`,
/// if it is a `printf`-style function the check knows.
pub fn printf_target(package: &str, function: &str) -> (index: Option<usize>)
    ensures
        index == printf_target_spec(package@, function@),
{
    if crate::text::same_text(package, "go:fmt") {
        if crate::text::same_text(function, "Appendf") || crate::text::same_text(function, "Fprintf") {
            Some(1)
        } else if crate::text::same_text(function, "Errorf") || crate::text::same_text(function, "Printf")
            || crate::text::same_text(function, "Sprintf") {
            Some(0)
        } else {
            None
        }
    } else if crate::text::same_text(package, "go:log") {
        if crate::text::same_text(function, "Fatalf") || crate::text::same_text(function, "Panicf")
            || crate::text::same_text(function, "Printf") {
            Some(0)
        } else {
            None
        }
    } else {
        None
    }
}

/// The count of arguments that follow the format string, when it differs
/// from the count the format consumes; `None` when they agree.
pub fn verb_count_mismatch(consumed: usize, argument_count: usize, format_index: usize) -> (supplied: Option<usize>)
    requires
        format_index < argument_count,
    ensures
        supplied == if consumed == argument_count - format_index - 1 {
            None::<usize>
        } else {
            Some((argument_count - format_index - 1) as usize)
        },
{
    let supplied = argument_count - format_index - 1;
    if consumed == supplied {
        None
    } else {
        Some(supplied)
    }
}

/// The `printf`-style functions the check knows, with where their format
/// string stands: `fmt.Appendf` and `fmt.Fprintf` take it second (after the
/// buffer or the writer); `fmt.Errorf`, `fmt.Printf`, `fmt.Sprintf`,
/// `log.Fatalf`, `log.Panicf` and `log.Printf` take it first. No other
/// function is checked.
pub proof fn law_printf_functions_the_check_knows(package: Seq<char>, function: Seq<char>)
    ensures
        printf_target_spec("go:fmt"@, "Appendf"@) == Some(1usize),
        printf_target_spec("go:fmt"@, "Fprintf"@) == Some(1usize),
        printf_target_spec("go:fmt"@, "Errorf"@) == Some(0usize),
        printf_target_spec("go:fmt"@, "Printf"@) == Some(0usize),
        printf_target_spec("go:fmt"@, "Sprintf"@) == Some(0usize),
        printf_target_spec("go:log"@, "Fatalf"@) == Some(0usize),
        printf_target_spec("go:log"@, "Panicf"@) == Some(0usize),
        printf_target_spec("go:log"@, "Printf"@) == Some(0usize),
        printf_target_spec(package, function) is Some ==> {
            ||| package == "go:fmt"@ && (function == "Appendf"@ || function == "Fprintf"@ || function
                == "Errorf"@ || function == "Printf"@ || function == "Sprintf"@)
            ||| package == "go:log"@ && (function == "Fatalf"@ || function == "Panicf"@ || function
                == "Printf"@)
        },
{
    reveal_strlit("go:fmt");
    reveal_strlit("go:log");
    reveal_strlit("Appendf");
    reveal_strlit("Fprintf");
    reveal_strlit("Errorf");
    reveal_strlit("Printf");
    reveal_strlit("Sprintf");
    reveal_strlit("Fatalf");
    reveal_strlit("Panicf");
    assert("go:log"@[3] != "go:fmt"@[3]);
    assert("Errorf"@.len() != "Appendf"@.len() && "Errorf"@.len() != "Fprintf"@.len());
    assert("Printf"@.len() != "Appendf"@.len() && "Printf"@.len() != "Fprintf"@.len());
    assert("Sprintf"@[0] != "Appendf"@[0] && "Sprintf"@[0] != "Fprintf"@[0]);
    assert("Errorf"@[0] != "Printf"@[0]);
    assert("Fatalf"@[0] != "Panicf"@[0] && "Fatalf"@[0] != "Printf"@[0] && "Panicf"@[1] != "Printf"@[1]);
    assert(printf_target_spec("go:fmt"@, "Sprintf"@) == Some(0usize));
    assert(printf_target_spec("go:log"@, "Fatalf"@) == Some(0usize));
    assert(printf_target_spec("go:log"@, "Panicf"@) == Some(0usize));
    assert(printf_target_spec("go:log"@, "Printf"@) == Some(0usize));
}

/// How a format string is read, one step at a time: text other than `%`
/// takes no argument; `%%` takes none; `%` and a letter take one argument
/// for that verb; `%*` and a letter take one for the width and one for the
/// verb; `%.*` and a letter take one for the precision and one for the
/// verb; past the end there is nothing more to take.
pub proof fn law_format_strings_read_as_printf_does(format: Seq<u8>, p: int)
    requires
        0 <= p,
    ensures
        p >= format.len() ==> operands_from(format, p) == Some(Seq::<PrintfOperand>::empty()),
        p < format.len() && format[p] != 37 ==> operands_from(format, p) == operands_from(format, p + 1),
        p + 1 < format.len() && format[p] == 37 && format[p + 1] == 37 ==> operands_from(format, p)
            == operands_from(format, p + 2),
        p + 1 < format.len() && format[p] == 37 && is_letter(format[p + 1]) ==> operands_from(format, p)
            == followed(seq![PrintfOperand::Verb(format[p + 1] as char)], operands_from(format, p + 2)),
        p + 2 < format.len() && format[p] == 37 && format[p + 1] == 42 && is_letter(format[p + 2])
            ==> operands_from(format, p) == followed(
            seq![PrintfOperand::StarWidth, PrintfOperand::Verb(format[p + 2] as char)],
            operands_from(format, p + 3),
        ),
        p + 3 < format.len() && format[p] == 37 && format[p + 1] == 46 && format[p + 2] == 42 && is_letter(
            format[p + 3],
        ) ==> operands_from(format, p) == followed(
            seq![PrintfOperand::StarPrecision, PrintfOperand::Verb(format[p + 3] as char)],
            operands_from(format, p + 4),
        ),
{
    if p + 1 < format.len() && format[p] == 37 {
        let q = p + 1;
        assert(past_flags(format, q) == q ==> width_part(format, q).1 == past_digits(format, q) || format[q] == 42);
        if format[q] == 37 || is_letter(format[q]) {
            let tail = format.subrange(q, format.len() as int);
            assert(tail[0] == format[q]);
            assert(verb_at(tail) == Some((format[q] as char, 1int)));
        }
        if p + 2 < format.len() && format[q] == 42 && is_letter(format[p + 2]) {
            let tail = format.subrange(p + 2, format.len() as int);
            assert(tail[0] == format[p + 2]);
            assert(seq![PrintfOperand::StarWidth] + Seq::<PrintfOperand>::empty() + seq![
                PrintfOperand::Verb(format[p + 2] as char),
            ] =~= seq![PrintfOperand::StarWidth, PrintfOperand::Verb(format[p + 2] as char)]);
        }
        if p + 3 < format.len() && format[q] == 46 && format[p + 2] == 42 && is_letter(format[p + 3]) {
            let tail = format.subrange(p + 3, format.len() as int);
            assert(tail[0] == format[p + 3]);
            assert(Seq::<PrintfOperand>::empty() + seq![PrintfOperand::StarPrecision] + seq![
                PrintfOperand::Verb(format[p + 3] as char),
            ] =~= seq![PrintfOperand::StarPrecision, PrintfOperand::Verb(format[p + 3] as char)]);
        }
        if is_letter(format[q]) {
            assert(Seq::<PrintfOperand>::empty() + Seq::<PrintfOperand>::empty() + seq![
                PrintfOperand::Verb(format[q] as char),
            ] =~= seq![PrintfOperand::Verb(format[q] as char)]);
        }
        if format[q] == 37 {
            assert(Seq::<PrintfOperand>::empty() + Seq::<PrintfOperand>::empty() + Seq::<PrintfOperand>::empty()
                =~= Seq::<PrintfOperand>::empty());
        }
    }
}

} // verus!
