use emit::position::{LineIndex, Position, Range};

fn at(line: u32, character: u32) -> Position {
    Position { line, character }
}

#[test]
fn offsets_map_to_lines_and_columns() {
    let index = LineIndex::new("a\nbc\n");
    assert_eq!(index.offset_to_position(0), at(0, 0));
    assert_eq!(index.offset_to_position(1), at(0, 1));
    assert_eq!(index.offset_to_position(2), at(1, 0));
    assert_eq!(index.offset_to_position(3), at(1, 1));
    assert_eq!(index.offset_to_position(5), at(2, 0));
    assert_eq!(index.offset_to_position(40), at(2, 0));
    assert_eq!(index.source(), "a\nbc\n");
}

#[test]
fn positions_map_back_to_offsets() {
    let index = LineIndex::new("a\nbc\n");
    assert_eq!(index.position_to_offset(at(0, 0)), Some(0));
    assert_eq!(index.position_to_offset(at(1, 1)), Some(3));
    assert_eq!(index.position_to_offset(at(1, 10)), Some(5));
    assert_eq!(index.position_to_offset(at(2, 0)), Some(5));
    assert_eq!(index.position_to_offset(at(2, 3)), Some(5));
    assert_eq!(index.position_to_offset(at(3, 0)), None);
}

#[test]
fn columns_count_utf16_code_units() {
    let index = LineIndex::new("é😀x\ny");
    assert_eq!(index.offset_to_position(2), at(0, 1));
    assert_eq!(index.offset_to_position(6), at(0, 3));
    assert_eq!(index.offset_to_position(7), at(0, 4));
    assert_eq!(index.offset_to_position(8), at(1, 0));
    assert_eq!(index.position_to_offset(at(0, 1)), Some(2));
    assert_eq!(index.position_to_offset(at(0, 2)), Some(6));
    assert_eq!(index.position_to_offset(at(0, 3)), Some(6));
    assert_eq!(index.position_to_offset(at(1, 1)), Some(9));
}

#[test]
fn spans_become_ranges() {
    let index = LineIndex::new("é😀x\ny");
    assert_eq!(index.span_to_range(2, 4), Range { start: at(0, 1), end: at(0, 3) });
    assert_eq!(index.offset_len_to_range(6, 3), Range { start: at(0, 3), end: at(1, 1) });
}

#[test]
fn an_empty_text_has_one_line() {
    let index = LineIndex::new("");
    assert_eq!(index.offset_to_position(0), at(0, 0));
    assert_eq!(index.position_to_offset(at(0, 5)), Some(0));
    assert_eq!(index.position_to_offset(at(1, 0)), None);
}

#[test]
fn every_boundary_offset_survives_the_round_trip() {
    let text = "fn main() {\n  let é = \"😀\";\n}\n";
    let index = LineIndex::new(text);
    for (offset, _) in text.char_indices().chain(std::iter::once((text.len(), ' '))) {
        let position = index.offset_to_position(offset as u32);
        assert_eq!(index.position_to_offset(position), Some(offset as u32));
    }
}
