//! Converting between byte offsets into a document and editor positions.
//!
//! Offsets count the bytes of the document's UTF-8 text; a position is a
//! line number and a column counted in UTF-16 code units, as the editor
//! protocol has it. Both are `u32`, so a document holds at most `u32::MAX`
//! bytes.

use vstd::prelude::*;
use vstd::std_specs::iter::IteratorSpec;

verus! {

/// A place in a document: a line, and a column in UTF-16 code units.
#[derive(Debug, Clone, Copy, PartialEq, Eq, Structural)]
pub struct Position {
    pub line: u32,
    pub character: u32,
}

/// The stretch of a document between two positions.
#[derive(Debug, Clone, Copy, PartialEq, Eq, Structural)]
pub struct Range {
    pub start: Position,
    pub end: Position,
}

/// How many bytes the character takes in UTF-8.
pub open spec fn width8(c: char) -> nat {
    if (c as u32) < 0x80 {
        1
    } else if (c as u32) < 0x800 {
        2
    } else if (c as u32) < 0x10000 {
        3
    } else {
        4
    }
}

/// How many code units the character takes in UTF-16.
pub open spec fn width16(c: char) -> nat {
    if (c as u32) < 0x10000 {
        1
    } else {
        2
    }
}

/// How many bytes the characters take in UTF-8.
pub open spec fn bytes_of(cs: Seq<char>) -> nat
    decreases cs.len(),
{
    if cs.len() == 0 {
        0
    } else {
        bytes_of(cs.drop_last()) + width8(cs.last())
    }
}

/// How many code units the characters take in UTF-16.
pub open spec fn units_of(cs: Seq<char>) -> nat
    decreases cs.len(),
{
    if cs.len() == 0 {
        0
    } else {
        units_of(cs.drop_last()) + width16(cs.last())
    }
}

/// The byte offsets at which the lines of `text` start: 0, then the offset
/// just past each newline.
pub open spec fn line_starts_of(text: Seq<char>) -> Seq<int>
    decreases text.len(),
{
    if text.len() == 0 {
        seq![0int]
    } else if text.last() == '\n' {
        line_starts_of(text.drop_last()).push(bytes_of(text) as int)
    } else {
        line_starts_of(text.drop_last())
    }
}

/// The number of bytes the character takes in UTF-8.
pub fn utf8_width(c: char) -> (w: usize)
    ensures
        w == width8(c),
{
    let u = c as u32;
    if u < 0x80 {
        1
    } else if u < 0x800 {
        2
    } else if u < 0x10000 {
        3
    } else {
        4
    }
}

/// The number of code units the character takes in UTF-16.
pub fn utf16_width(c: char) -> (w: u32)
    ensures
        w == width16(c),
{
    if (c as u32) < 0x10000 {
        1
    } else {
        2
    }
}

pub proof fn lemma_bytes_concat(a: Seq<char>, b: Seq<char>)
    ensures
        bytes_of(a + b) == bytes_of(a) + bytes_of(b),
        units_of(a + b) == units_of(a) + units_of(b),
    decreases b.len(),
{
    if b.len() == 0 {
        assert(a + b =~= a);
    } else {
        assert((a + b).drop_last() =~= a + b.drop_last());
        lemma_bytes_concat(a, b.drop_last());
    }
}

pub proof fn lemma_take_step(s: Seq<char>, k: int)
    requires
        0 <= k < s.len(),
    ensures
        bytes_of(s.take(k + 1)) == bytes_of(s.take(k)) + width8(s[k]),
        units_of(s.take(k + 1)) == units_of(s.take(k)) + width16(s[k]),
{
    assert(s.take(k + 1).drop_last() =~= s.take(k));
}

pub proof fn lemma_units_within_bytes(cs: Seq<char>)
    ensures
        units_of(cs) <= bytes_of(cs),
        cs.len() <= bytes_of(cs),
    decreases cs.len(),
{
    if cs.len() > 0 {
        lemma_units_within_bytes(cs.drop_last());
    }
}

/// Every line start lies within the text, the first is 0, and each is past
/// the one before.
pub proof fn lemma_line_starts_ordered(text: Seq<char>)
    ensures
        line_starts_of(text).len() >= 1,
        line_starts_of(text)[0] == 0,
        line_starts_of(text).len() <= bytes_of(text) + 1,
        forall|j: int| 0 <= j < line_starts_of(text).len() ==> 0 <= #[trigger] line_starts_of(text)[j] <= bytes_of(text),
        forall|i: int, j: int| 0 <= i < j < line_starts_of(text).len() ==> line_starts_of(text)[i] < line_starts_of(text)[j],
    decreases text.len(),
{
    if text.len() > 0 {
        lemma_line_starts_ordered(text.drop_last());
    }
}

/// The UTF-8 encoding of a character takes `width8` bytes.
pub proof fn lemma_scalar_width(c: char)
    ensures
        vstd::utf8::encode_scalar(c as u32).len() == width8(c),
{
    vstd::utf8::char_is_scalar(c);
}

pub proof fn lemma_encode_len(cs: Seq<char>)
    ensures
        vstd::utf8::encode_utf8(cs).len() == bytes_of(cs),
    decreases cs.len(),
{
    if cs.len() > 0 {
        lemma_encode_len(cs.drop_first());
        lemma_scalar_width(cs[0]);
        lemma_bytes_concat(seq![cs[0]], cs.drop_first());
        assert(seq![cs[0]] + cs.drop_first() =~= cs);
        let one = seq![cs[0]];
        assert(one.drop_last() =~= Seq::<char>::empty());
        assert(bytes_of(one.drop_last()) == 0);
        assert(one.last() == cs[0]);
        assert(bytes_of(one) == width8(cs[0]));
        assert(vstd::utf8::encode_utf8(cs) == vstd::utf8::encode_scalar(cs[0] as u32) + vstd::utf8::encode_utf8(cs.drop_first()));
    }
}

pub proof fn lemma_encode_concat(a: Seq<char>, b: Seq<char>)
    ensures
        vstd::utf8::encode_utf8(a + b) == vstd::utf8::encode_utf8(a) + vstd::utf8::encode_utf8(b),
    decreases a.len(),
{
    if a.len() == 0 {
        assert(a + b =~= b);
        assert(vstd::utf8::encode_utf8(a) + vstd::utf8::encode_utf8(b) =~= vstd::utf8::encode_utf8(b));
    } else {
        assert((a + b).drop_first() =~= a.drop_first() + b);
        assert((a + b)[0] == a[0]);
        lemma_encode_concat(a.drop_first(), b);
        assert(vstd::utf8::encode_scalar(a[0] as u32) + (vstd::utf8::encode_utf8(a.drop_first()) + vstd::utf8::encode_utf8(b))
            =~= (vstd::utf8::encode_scalar(a[0] as u32) + vstd::utf8::encode_utf8(a.drop_first())) + vstd::utf8::encode_utf8(b));
    }
}

/// The end of the encoding of `a` is a character boundary of the encoding
/// of `a + b`.
pub proof fn lemma_boundary(a: Seq<char>, b: Seq<char>)
    ensures
        vstd::utf8::is_char_boundary(vstd::utf8::encode_utf8(a + b), vstd::utf8::encode_utf8(a).len() as int),
    decreases a.len(),
{
    broadcast use vstd::utf8::encode_utf8_valid_utf8;

    if a.len() > 0 {
        let whole = a + b;
        vstd::utf8::encode_utf8_first_scalar(whole);
        assert(whole.drop_first() =~= a.drop_first() + b);
        assert(whole[0] == a[0]);
        assert(vstd::utf8::pop_first_scalar(vstd::utf8::encode_utf8(whole)) =~= vstd::utf8::encode_utf8(whole.drop_first()));
        lemma_boundary(a.drop_first(), b);
        lemma_encode_concat(a, b);
    }
}

pub proof fn lemma_bytes_grow(text: Seq<char>, i: int, j: int)
    requires
        0 <= i < j <= text.len(),
    ensures
        bytes_of(text.take(i)) < bytes_of(text.take(j)),
        units_of(text.take(i)) < units_of(text.take(j)),
    decreases j - i,
{
    lemma_take_step(text, j - 1);
    if i < j - 1 {
        lemma_bytes_grow(text, i, j - 1);
    }
}

/// Each line start is the offset of a character boundary.
pub proof fn lemma_starts_are_boundaries(text: Seq<char>, j: int)
    requires
        0 <= j < line_starts_of(text).len(),
    ensures
        exists|k: int| 0 <= k <= text.len() && #[trigger] bytes_of(text.take(k)) == line_starts_of(text)[j],
    decreases text.len(),
{
    if text.len() == 0 {
        assert(text.take(0).len() == 0);
        assert(bytes_of(text.take(0)) == 0);
    } else {
        let prefix = text.drop_last();
        if j < line_starts_of(prefix).len() {
            lemma_starts_are_boundaries(prefix, j);
            let k = choose|k: int| 0 <= k <= prefix.len() && #[trigger] bytes_of(prefix.take(k)) == line_starts_of(prefix)[j];
            assert(prefix.take(k) =~= text.take(k));
            assert(line_starts_of(text)[j] == line_starts_of(prefix)[j]);
        } else {
            assert(text.take(text.len() as int) =~= text);
            assert(bytes_of(text.take(text.len() as int)) == line_starts_of(text)[j]);
        }
    }
}

pub proof fn lemma_part_bytes(text: Seq<char>, i: int, j: int)
    requires
        0 <= i <= j <= text.len(),
    ensures
        bytes_of(text.take(i)) + bytes_of(text.subrange(i, j)) == bytes_of(text.take(j)),
        bytes_of(text.take(j)) <= bytes_of(text),
{
    assert(text.take(i) + text.subrange(i, j) =~= text.take(j));
    lemma_bytes_concat(text.take(i), text.subrange(i, j));
    assert(text.take(j) + text.skip(j) =~= text);
    lemma_bytes_concat(text.take(j), text.skip(j));
}

/// The character index whose preceding characters take `offset` bytes.
pub open spec fn boundary_index(text: Seq<char>, offset: int) -> int {
    choose|k: int| 0 <= k <= text.len() && bytes_of(text.take(k)) == offset
}

pub proof fn lemma_boundary_index(text: Seq<char>, k: int)
    requires
        0 <= k <= text.len(),
    ensures
        boundary_index(text, bytes_of(text.take(k)) as int) == k,
{
    let offset = bytes_of(text.take(k)) as int;
    let c = boundary_index(text, offset);
    assert(0 <= c <= text.len() && bytes_of(text.take(c)) == offset);
    if c < k {
        lemma_bytes_grow(text, c, k);
    } else if k < c {
        lemma_bytes_grow(text, k, c);
    }
}

/// How many characters of `cs`, from the `j`th on, the first `n` UTF-16
/// code units reach into: the first count whose units come to `n`, or all.
pub open spec fn reached_from(cs: Seq<char>, n: int, j: int) -> int
    decreases cs.len() - j,
{
    if j >= cs.len() || units_of(cs.take(j)) >= n {
        j
    } else {
        reached_from(cs, n, j + 1)
    }
}

/// The byte offset of a position, if the document has its line: the line's
/// start, then the characters of the line that the column reaches into.
pub open spec fn position_offset(text: Seq<char>, position: Position) -> Option<u32> {
    let starts = line_starts_of(text);
    let line = position.line as int;
    if line >= starts.len() {
        None
    } else {
        let first = boundary_index(text, starts[line]);
        let last = if line + 1 < starts.len() {
            boundary_index(text, starts[line + 1])
        } else {
            text.len() as int
        };
        let chars = text.subrange(first, last);
        Some((starts[line] + bytes_of(chars.take(reached_from(chars, position.character as int, 0)))) as u32)
    }
}

/// Whether `offset` is a character boundary of `text`, or lies at or past
/// its end.
pub open spec fn offset_in_reach(text: Seq<char>, offset: int) -> bool {
    offset >= bytes_of(text) || exists|k: int| 0 <= k <= text.len() && #[trigger] bytes_of(text.take(k)) == offset
}

/// Whether `line` is the line `offset` falls on: the last line starting at
/// or before it.
pub open spec fn is_line_of(starts: Seq<int>, offset: int, line: int) -> bool {
    &&& 0 <= line < starts.len()
    &&& starts[line] <= offset
    &&& (line + 1 == starts.len() || starts[line + 1] > offset)
}

/// The position of a byte offset: its line, and the UTF-16 code units from
/// the line's start to the offset, or to the end of the text for an offset
/// past it.
pub open spec fn offset_position(text: Seq<char>, offset: int) -> Position {
    let starts = line_starts_of(text);
    let line = choose|line: int| is_line_of(starts, offset, line);
    let end = if offset < bytes_of(text) {
        offset
    } else {
        bytes_of(text) as int
    };
    Position {
        line: line as u32,
        character: units_of(text.subrange(boundary_index(text, starts[line]), boundary_index(text, end))) as u32,
    }
}

/// The part of `text` between two character boundaries, given by their
/// byte offsets.
fn slice_between<'a>(text: &'a str, from: usize, to: usize, Ghost(i): Ghost<int>, Ghost(j): Ghost<int>) -> (part: &'a str)
    requires
        0 <= i <= j <= text@.len(),
        from == bytes_of(text@.take(i)),
        to == bytes_of(text@.take(j)),
    ensures
        part@ == text@.subrange(i, j),
{
    broadcast use vstd::utf8::encode_utf8_decode_utf8;

    proof {
        let t = text@;
        assert(t.take(j) + t.skip(j) =~= t);
        lemma_boundary(t.take(j), t.skip(j));
        lemma_encode_len(t.take(j));
        lemma_encode_concat(t.take(j), t.skip(j));
    }
    let (head, _) = text.split_at(to);
    proof {
        let t = text@;
        assert(vstd::utf8::encode_utf8(t).subrange(0, to as int) =~= vstd::utf8::encode_utf8(t.take(j)));
        assert(vstd::utf8::encode_utf8(head@) == vstd::utf8::encode_utf8(t.take(j)));
        assert(vstd::utf8::decode_utf8(vstd::utf8::encode_utf8(head@)) == head@);
        assert(vstd::utf8::decode_utf8(vstd::utf8::encode_utf8(t.take(j))) == t.take(j));
        assert(head@ == t.take(j));
        let h = t.take(j);
        assert(h.take(i) + h.subrange(i, j) =~= h);
        assert(h.take(i) =~= t.take(i));
        lemma_boundary(h.take(i), h.subrange(i, j));
        lemma_encode_len(h.take(i));
        lemma_encode_concat(h.take(i), h.subrange(i, j));
    }
    let (_, part) = head.split_at(from);
    proof {
        let h = text@.take(j);
        assert(vstd::utf8::encode_utf8(h).subrange(from as int, vstd::utf8::encode_utf8(h).len() as int)
            =~= vstd::utf8::encode_utf8(h.subrange(i, j)));
        assert(vstd::utf8::encode_utf8(part@) == vstd::utf8::encode_utf8(h.subrange(i, j)));
        assert(vstd::utf8::decode_utf8(vstd::utf8::encode_utf8(part@)) == part@);
        assert(vstd::utf8::decode_utf8(vstd::utf8::encode_utf8(h.subrange(i, j))) == h.subrange(i, j));
        assert(h.subrange(i, j) =~= text@.subrange(i, j));
    }
    part
}

} // verus!

verus! {

/// A document's text with the byte offset of each line start.
pub struct LineIndex {
    line_starts: Vec<u32>,
    source: String,
}

impl View for LineIndex {
    type V = Seq<char>;

    closed spec fn view(&self) -> Seq<char> {
        self.source@
    }
}

impl LineIndex {
    #[verifier::type_invariant]
    spec fn well_formed(self) -> bool {
        &&& bytes_of(self.source@) <= u32::MAX
        &&& self.line_starts@.len() == line_starts_of(self.source@).len()
        &&& forall|j: int| 0 <= j < self.line_starts@.len() ==> self.line_starts@[j] == line_starts_of(self.source@)[j]
    }

    /// The line starts of the text, as offsets.
    pub closed spec fn starts(&self) -> Seq<int> {
        line_starts_of(self.source@)
    }

    /// Indexes the lines of `source`, which holds at most `u32::MAX` bytes.
    pub fn new(source: &str) -> (index: Self)
        requires
            bytes_of(source@) <= u32::MAX,
        ensures
            index@ == source@,
    {
        let mut line_starts: Vec<u32> = Vec::new();
        line_starts.push(0);
        let mut chars = source.chars();
        let mut i: usize = 0;
        let ghost mut k: int = 0;
        loop
            invariant
                0 <= k <= source@.len(),
                chars.remaining() == source@.skip(k),
                i == bytes_of(source@.take(k)),
                bytes_of(source@) <= u32::MAX,
                line_starts@.len() == line_starts_of(source@.take(k)).len(),
                forall|j: int| 0 <= j < line_starts@.len() ==> line_starts@[j] == line_starts_of(source@.take(k))[j],
            ensures
                k == source@.len(),
                line_starts@.len() == line_starts_of(source@).len(),
                forall|j: int| 0 <= j < line_starts@.len() ==> line_starts@[j] == line_starts_of(source@)[j],
            decreases source@.len() - k,
        {
            let ghost before = chars;
            match chars.next() {
                Some(c) => {
                    proof {
                        assert(source@.skip(k).len() > 0);
                        assert(c == source@[k]);
                        lemma_take_step(source@, k);
                        lemma_bytes_concat(source@.take(k + 1), source@.skip(k + 1));
                        assert(source@.take(k + 1) + source@.skip(k + 1) =~= source@);
                        assert(source@.take(k + 1).drop_last() =~= source@.take(k));
                        assert(source@.take(k + 1).last() == c);
                        assert(source@.skip(k).drop_first() =~= source@.skip(k + 1));
                    }
                    i = i + utf8_width(c);
                    if c == '\n' {
                        line_starts.push(i as u32);
                    }
                    proof {
                        k = k + 1;
                    }
                },
                None => {
                    proof {
                        assert(source@.take(k) =~= source@);
                    }
                    break;
                },
            }
        }
        LineIndex { line_starts, source: source.to_owned() }
    }

    /// The byte offset of `position`, if the document has its line; a
    /// column past the end of its line stops at the line's end.
    pub fn position_to_offset(&self, position: Position) -> (offset: Option<u32>)
        ensures
            offset == position_offset(self@, position),
    {
        proof {
            use_type_invariant(self);
            lemma_line_starts_ordered(self.source@);
        }
        let line = position.line as usize;
        if line >= self.line_starts.len() {
            return None;
        }
        let ghost t = self.source@;
        let ghost starts = line_starts_of(t);
        let line_start = self.line_starts[line];
        let text = self.source.as_str();
        proof {
            lemma_encode_len(t);
        }
        let line_end = if line + 1 < self.line_starts.len() {
            self.line_starts[line + 1]
        } else {
            text.len() as u32
        };
        let ghost first = boundary_index(t, line_start as int);
        let ghost last = if line + 1 < starts.len() {
            boundary_index(t, starts[line + 1])
        } else {
            t.len() as int
        };
        proof {
            lemma_starts_are_boundaries(t, line as int);
            let kf = choose|k: int| 0 <= k <= t.len() && #[trigger] bytes_of(t.take(k)) == starts[line as int];
            lemma_boundary_index(t, kf);
            if line + 1 < starts.len() {
                lemma_starts_are_boundaries(t, line + 1);
                let kl = choose|k: int| 0 <= k <= t.len() && #[trigger] bytes_of(t.take(k)) == starts[line + 1];
                lemma_boundary_index(t, kl);
                if kl < kf {
                    lemma_bytes_grow(t, kl, kf);
                }
            } else {
                assert(t.take(t.len() as int) =~= t);
                lemma_part_bytes(t, kf, t.len() as int);
            }
        }
        let part = slice_between(text, line_start as usize, line_end as usize, Ghost(first), Ghost(last));
        let ghost cs = part@;
        let ghost n = position.character as int;
        proof {
            lemma_part_bytes(t, first, last);
            assert(cs == t.subrange(first, last));
            assert(bytes_of(cs) <= bytes_of(t)) by {
                assert(t.take(first) + cs =~= t.take(last));
                lemma_bytes_concat(t.take(first), cs);
            }
        }
        let mut chars = part.chars();
        let mut utf16: u32 = 0;
        let mut bytes: usize = 0;
        let ghost mut k: int = 0;
        loop
            invariant_except_break
                chars.remaining() == cs.skip(k),
            invariant
                0 <= k <= cs.len(),
                utf16 == units_of(cs.take(k)),
                bytes == bytes_of(cs.take(k)),
                bytes_of(cs) <= u32::MAX,
                reached_from(cs, n, 0) == reached_from(cs, n, k),
                n == position.character,
            ensures
                k == reached_from(cs, n, 0),
                bytes == bytes_of(cs.take(k)),
            decreases cs.len() - k,
        {
            match chars.next() {
                Some(c) => {
                    proof {
                        assert(cs.skip(k).len() > 0);
                        assert(c == cs[k]);
                    }
                    if utf16 >= position.character {
                        break;
                    }
                    proof {
                        lemma_take_step(cs, k);
                        lemma_part_bytes(cs, k + 1, cs.len() as int);
                        lemma_units_within_bytes(cs.take(k + 1));
                        assert(cs.skip(k).drop_first() =~= cs.skip(k + 1));
                    }
                    utf16 = utf16 + utf16_width(c);
                    bytes = bytes + utf8_width(c);
                    proof {
                        k = k + 1;
                    }
                },
                None => {
                    break;
                },
            }
        }
        proof {
            lemma_part_bytes(cs, k, cs.len() as int);
            assert(t.take(first) + cs.take(k) =~= t.take(first + k));
            lemma_bytes_concat(t.take(first), cs.take(k));
            lemma_part_bytes(t, first + k, t.len() as int);
            assert(t.take(t.len() as int) =~= t);
        }
        Some(line_start + bytes as u32)
    }

    /// The position of a byte offset that is a character boundary or lies
    /// past the end of the text; past the end, the column stops at the end.
    pub fn offset_to_position(&self, offset: u32) -> (position: Position)
        requires
            offset_in_reach(self@, offset as int),
        ensures
            position == offset_position(self@, offset as int),
    {
        proof {
            use_type_invariant(self);
            lemma_line_starts_ordered(self.source@);
        }
        let ghost t = self.source@;
        let ghost starts = line_starts_of(t);
        let mut low: usize = 0;
        let mut high: usize = self.line_starts.len();
        while low < high
            invariant
                0 <= low <= high <= self.line_starts@.len(),
                self.line_starts@.len() == starts.len(),
                forall|j: int| 0 <= j < starts.len() ==> self.line_starts@[j] == starts[j],
                forall|i: int, j: int| 0 <= i < j < starts.len() ==> starts[i] < starts[j],
                forall|i: int| 0 <= i < low ==> starts[i] <= offset,
                forall|i: int| high <= i < starts.len() ==> starts[i] > offset,
            decreases high - low,
        {
            let middle = low + (high - low) / 2;
            if self.line_starts[middle] <= offset {
                proof {
                    assert forall|i: int| 0 <= i <= middle implies starts[i] <= offset by {
                        if i < middle {
                            assert(starts[i] < starts[middle as int]);
                        }
                    }
                }
                low = middle + 1;
            } else {
                proof {
                    assert forall|i: int| middle <= i < starts.len() implies starts[i] > offset by {
                        if middle < i {
                            assert(starts[middle as int] < starts[i]);
                        }
                    }
                }
                high = middle;
            }
        }
        assert(starts[0] <= offset);
        let line = low - 1;
        let ghost l = line as int;
        proof {
            assert(is_line_of(starts, offset as int, l));
            let chosen = choose|line: int| is_line_of(starts, offset as int, line);
            assert(is_line_of(starts, offset as int, chosen));
            if chosen < l {
                assert(starts[chosen + 1] <= starts[l]);
            } else if l < chosen {
                assert(starts[l + 1] <= starts[chosen]);
            }
            assert(chosen == l);
        }
        let text = self.source.as_str();
        proof {
            lemma_encode_len(t);
        }
        let line_start = self.line_starts[line];
        let length = text.len();
        let end: usize = if (offset as usize) < length {
            offset as usize
        } else {
            length
        };
        let ghost first = boundary_index(t, line_start as int);
        let ghost last = boundary_index(t, end as int);
        proof {
            lemma_starts_are_boundaries(t, l);
            let kf = choose|k: int| 0 <= k <= t.len() && #[trigger] bytes_of(t.take(k)) == starts[l];
            lemma_boundary_index(t, kf);
            let kl = if (offset as int) < bytes_of(t) {
                choose|k: int| 0 <= k <= t.len() && #[trigger] bytes_of(t.take(k)) == offset as int
            } else {
                assert(t.take(t.len() as int) =~= t);
                t.len() as int
            };
            assert(bytes_of(t.take(kl)) == end);
            lemma_boundary_index(t, kl);
            if kl < kf {
                lemma_bytes_grow(t, kl, kf);
            }
        }
        let part = slice_between(text, line_start as usize, end, Ghost(first), Ghost(last));
        let ghost cs = part@;
        proof {
            assert(t.take(first) + cs =~= t.take(last));
            lemma_bytes_concat(t.take(first), cs);
            lemma_part_bytes(t, last, t.len() as int);
        }
        let mut chars = part.chars();
        let mut character: u32 = 0;
        let ghost mut k: int = 0;
        loop
            invariant
                0 <= k <= cs.len(),
                chars.remaining() == cs.skip(k),
                character == units_of(cs.take(k)),
                bytes_of(cs) <= u32::MAX,
            ensures
                k == cs.len(),
                character == units_of(cs),
            decreases cs.len() - k,
        {
            match chars.next() {
                Some(c) => {
                    proof {
                        assert(cs.skip(k).len() > 0);
                        assert(c == cs[k]);
                        lemma_take_step(cs, k);
                        lemma_part_bytes(cs, k + 1, cs.len() as int);
                        lemma_units_within_bytes(cs.take(k + 1));
                        assert(cs.skip(k).drop_first() =~= cs.skip(k + 1));
                    }
                    character = character + utf16_width(c);
                    proof {
                        k = k + 1;
                    }
                },
                None => {
                    proof {
                        assert(cs.take(k) =~= cs);
                    }
                    break;
                },
            }
        }
        Position { line: line as u32, character }
    }

    /// The indexed text.
    pub fn source(&self) -> (text: &str)
        ensures
            text@ == self@,
    {
        self.source.as_str()
    }

    /// The range a span covers, given by its first byte and its length.
    pub fn span_to_range(&self, byte_offset: u32, byte_length: u32) -> (range: Range)
        requires
            byte_offset + byte_length <= u32::MAX,
            offset_in_reach(self@, byte_offset as int),
            offset_in_reach(self@, byte_offset + byte_length),
        ensures
            range == (Range {
                start: offset_position(self@, byte_offset as int),
                end: offset_position(self@, byte_offset + byte_length),
            }),
    {
        Range {
            start: self.offset_to_position(byte_offset),
            end: self.offset_to_position(byte_offset + byte_length),
        }
    }

    /// The range of `length` bytes from `offset`; both ends are taken as
    /// `u32` offsets, keeping their low 32 bits.
    pub fn offset_len_to_range(&self, offset: usize, length: usize) -> (range: Range)
        requires
            offset + length <= usize::MAX,
            offset_in_reach(self@, (offset as u32) as int),
            offset_in_reach(self@, ((offset + length) as u32) as int),
        ensures
            range == (Range {
                start: offset_position(self@, (offset as u32) as int),
                end: offset_position(self@, ((offset + length) as u32) as int),
            }),
    {
        Range {
            start: self.offset_to_position(offset as u32),
            end: self.offset_to_position((offset + length) as u32),
        }
    }
}

} // verus!

verus! {

pub proof fn lemma_reached(cs: Seq<char>, n: int, j: int, m: int)
    requires
        0 <= j <= m <= cs.len(),
        n == units_of(cs.take(m)),
    ensures
        reached_from(cs, n, j) == m,
    decreases m - j,
{
    if j < m {
        lemma_bytes_grow(cs, j, m);
        lemma_reached(cs, n, j + 1, m);
    }
}

/// Turning a character boundary's offset into a position and back gives
/// the offset again.
pub proof fn law_offset_position_round_trip(text: Seq<char>, k: int)
    requires
        0 <= k <= text.len(),
        bytes_of(text) <= u32::MAX,
    ensures
        position_offset(text, offset_position(text, bytes_of(text.take(k)) as int)) == Some(
            bytes_of(text.take(k)) as u32,
        ),
{
    let offset = bytes_of(text.take(k)) as int;
    let starts = line_starts_of(text);
    lemma_line_starts_ordered(text);
    lemma_part_bytes(text, k, text.len() as int);
    assert(text.take(text.len() as int) =~= text);
    lemma_boundary_index(text, k);
    lemma_last_line_at_most(starts, offset, 0);
    let l = choose|line: int| is_line_of(starts, offset, line);
    lemma_starts_are_boundaries(text, l);
    let kf = choose|kk: int| 0 <= kk <= text.len() && #[trigger] bytes_of(text.take(kk)) == starts[l];
    lemma_boundary_index(text, kf);
    if k < kf {
        lemma_bytes_grow(text, k, kf);
    }
    let last = if l + 1 < starts.len() {
        lemma_starts_are_boundaries(text, l + 1);
        let kl = choose|kk: int| 0 <= kk <= text.len() && #[trigger] bytes_of(text.take(kk)) == starts[l + 1];
        lemma_boundary_index(text, kl);
        if kl < k {
            lemma_bytes_grow(text, kl, k);
        }
        kl
    } else {
        text.len() as int
    };
    let chars = text.subrange(kf, last);
    assert(chars.take(k - kf) =~= text.subrange(kf, k));
    let column = units_of(text.subrange(kf, k));
    lemma_part_bytes(text, kf, k);
    lemma_units_within_bytes(text.subrange(kf, k));
    lemma_reached(chars, column as int, 0, k - kf);
    let position = offset_position(text, offset);
    assert(position.line as int == l);
    assert(position.character as int == column);
}

/// Among ordered line starts the first of which is at most `offset`, some
/// line is the one `offset` falls on.
pub proof fn lemma_last_line_at_most(starts: Seq<int>, offset: int, line: int)
    requires
        0 <= line < starts.len(),
        starts[line] <= offset,
    ensures
        exists|l: int| is_line_of(starts, offset, l),
    decreases starts.len() - line,
{
    if is_line_of(starts, offset, line) {
    } else {
        lemma_last_line_at_most(starts, offset, line + 1);
    }
}

/// A character takes two UTF-16 code units exactly when it lies beyond the
/// Basic Multilingual Plane, which are also exactly the characters taking
/// four UTF-8 bytes; every other character takes one unit.
pub proof fn law_utf16_units_follow_the_character(c: char)
    ensures
        width16(c) == 2 <==> (c as u32) > 0xFFFF,
        width16(c) == 1 <==> (c as u32) <= 0xFFFF,
        width16(c) == 2 <==> width8(c) == 4,
        width16(c) <= width8(c),
        width8(c) == vstd::utf8::encode_scalar(c as u32).len(),
{
    lemma_scalar_width(c);
}

} // verus!
