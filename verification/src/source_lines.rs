//! Line and column numbers of byte offsets in a source file, as the
//! `//line` directives of the generated Go name them: both counted from 1,
//! the column in bytes.

use vstd::prelude::*;
use vstd::string::*;

verus! {

/// The byte offsets at which the lines of `bytes` start: 0, then the offset
/// just past each `\n`.
pub open spec fn line_offsets_of(bytes: Seq<u8>) -> Seq<int>
    decreases bytes.len(),
{
    if bytes.len() == 0 {
        seq![0int]
    } else if bytes.last() == 10 {
        line_offsets_of(bytes.drop_last()).push(bytes.len() as int)
    } else {
        line_offsets_of(bytes.drop_last())
    }
}

pub proof fn lemma_line_offsets_ordered(bytes: Seq<u8>)
    ensures
        line_offsets_of(bytes).len() >= 1,
        line_offsets_of(bytes)[0] == 0,
        line_offsets_of(bytes).len() <= bytes.len() + 1,
        forall|j: int| 0 <= j < line_offsets_of(bytes).len() ==> 0 <= #[trigger] line_offsets_of(bytes)[j] <= bytes.len(),
        forall|i: int, j: int| 0 <= i < j < line_offsets_of(bytes).len() ==> line_offsets_of(bytes)[i] < line_offsets_of(bytes)[j],
    decreases bytes.len(),
{
    if bytes.len() > 0 {
        lemma_line_offsets_ordered(bytes.drop_last());
    }
}

/// Whether `line` (counted from 1) is the line holding `offset`: the last
/// whose start is at or before it.
pub open spec fn is_line_at(offsets: Seq<int>, offset: int, line: int) -> bool {
    &&& 1 <= line <= offsets.len()
    &&& offsets[line - 1] <= offset
    &&& (line == offsets.len() || offsets[line] > offset)
}

/// A source file's path and the offsets of its line starts.
pub struct LineIndex {
    path: String,
    line_offsets: Vec<u32>,
}

impl LineIndex {
    #[verifier::type_invariant]
    spec fn offsets_ordered(self) -> bool {
        &&& self.line_offsets@.len() >= 1
        &&& self.line_offsets@[0] == 0
        &&& forall|i: int, j: int| 0 <= i < j < self.line_offsets@.len() ==> self.line_offsets@[i] < self.line_offsets@[j]
    }

    /// The path of the source file.
    pub closed spec fn file_path(&self) -> Seq<char> {
        self.path@
    }

    /// The path of the source file.
    pub fn path(&self) -> (path: &str)
        ensures
            path@ == self.file_path(),
    {
        self.path.as_str()
    }

    /// The offsets of the line starts, in order.
    pub closed spec fn offsets(&self) -> Seq<int> {
        self.line_offsets@.map_values(|offset: u32| offset as int)
    }

    /// Indexes the lines of `source`, which holds at most `u32::MAX` bytes.
    pub fn from_source(path: String, source: &str) -> (index: Self)
        requires
            source.spec_bytes().len() <= u32::MAX,
        ensures
            index.file_path() == path@,
            index.offsets() == line_offsets_of(source.spec_bytes()),
    {
        let bytes = source.as_bytes();
        let ghost all = bytes@;
        proof {
            lemma_line_offsets_ordered(all);
        }
        let mut line_offsets: Vec<u32> = Vec::new();
        line_offsets.push(0);
        let mut i: usize = 0;
        while i < bytes.len()
            invariant
                i <= all.len(),
                all == bytes@,
                all.len() <= u32::MAX,
                line_offsets@.map_values(|offset: u32| offset as int) == line_offsets_of(all.take(i as int)),
            decreases all.len() - i,
        {
            let ghost before = line_offsets@;
            proof {
                assert(all.take(i + 1).drop_last() =~= all.take(i as int));
                assert(all.take(i + 1).last() == all[i as int]);
            }
            if bytes[i] == 10 {
                line_offsets.push((i + 1) as u32);
                proof {
                    assert(line_offsets@.map_values(|offset: u32| offset as int) =~= before.map_values(
                        |offset: u32| offset as int,
                    ).push(i + 1));
                }
            }
            i = i + 1;
        }
        proof {
            assert(all.take(i as int) =~= all);
            lemma_line_offsets_ordered(all);
            assert forall|k: int| 0 <= k < line_offsets@.len() implies line_offsets@[k] as int == line_offsets_of(
                all,
            )[k] by {
                assert(line_offsets@.map_values(|offset: u32| offset as int)[k] == line_offsets@[k] as int);
            }
        }
        LineIndex { path, line_offsets }
    }

    /// The line, counted from 1, that holds the byte at `byte_offset`.
    pub fn line_for_offset(&self, byte_offset: u32) -> (line: usize)
        ensures
            is_line_at(self.offsets(), byte_offset as int, line as int),
    {
        proof {
            use_type_invariant(self);
        }
        let mut low: usize = 0;
        let mut high: usize = self.line_offsets.len();
        while low < high
            invariant
                0 <= low <= high <= self.line_offsets@.len(),
                self.line_offsets@.len() >= 1,
                self.line_offsets@[0] == 0,
                forall|i: int, j: int| 0 <= i < j < self.line_offsets@.len() ==> self.line_offsets@[i] < self.line_offsets@[j],
                forall|i: int| 0 <= i < low ==> self.line_offsets@[i] <= byte_offset,
                forall|i: int| high <= i < self.line_offsets@.len() ==> self.line_offsets@[i] > byte_offset,
            decreases high - low,
        {
            let middle = low + (high - low) / 2;
            if self.line_offsets[middle] <= byte_offset {
                proof {
                    assert forall|i: int| 0 <= i <= middle implies self.line_offsets@[i] <= byte_offset by {
                        if i < middle {
                            assert(self.line_offsets@[i] < self.line_offsets@[middle as int]);
                        }
                    }
                }
                low = middle + 1;
            } else {
                proof {
                    assert forall|i: int| middle <= i < self.line_offsets@.len() implies self.line_offsets@[i]
                        > byte_offset by {
                        if middle < i {
                            assert(self.line_offsets@[middle as int] < self.line_offsets@[i]);
                        }
                    }
                }
                high = middle;
            }
        }
        assert(self.line_offsets@[0] <= byte_offset);
        low
    }

    /// The column, counted from 1 in bytes, of `byte_offset` on its line.
    pub fn col_for_offset(&self, byte_offset: u32) -> (column: usize)
        requires
            byte_offset < u32::MAX || (self.offsets().len() > 1 && self.offsets()[1] <= byte_offset),
        ensures
            exists|line: int| #![trigger is_line_at(self.offsets(), byte_offset as int, line)]
                is_line_at(self.offsets(), byte_offset as int, line) && column == byte_offset - self.offsets()[line - 1] + 1,
    {
        proof {
            use_type_invariant(self);
        }
        let line = self.line_for_offset(byte_offset);
        let line_start = self.line_offsets[line - 1];
        proof {
            if byte_offset == u32::MAX {
                assert(self.line_offsets@[1] <= byte_offset);
                if line == 1 {
                    assert(self.line_offsets@[1] > byte_offset);
                }
                assert(self.line_offsets@[0] < self.line_offsets@[line - 1]);
            }
        }
        (byte_offset - line_start + 1) as usize
    }
}

} // verus!
