use vstd::prelude::*;

verus! {

/// The 5x7 bitmap of a character: seven rows, bit 4 is the leftmost column.
/// Letters ignore case; a character without a glyph shows a question mark.
pub open spec fn glyph_rows(character: char) -> Seq<u8> {
    match character {
        'A' | 'a' => seq![0x0e, 0x11, 0x11, 0x1f, 0x11, 0x11, 0x11],
        'B' | 'b' => seq![0x1e, 0x11, 0x11, 0x1e, 0x11, 0x11, 0x1e],
        'C' | 'c' => seq![0x0f, 0x10, 0x10, 0x10, 0x10, 0x10, 0x0f],
        'D' | 'd' => seq![0x1e, 0x11, 0x11, 0x11, 0x11, 0x11, 0x1e],
        'E' | 'e' => seq![0x1f, 0x10, 0x10, 0x1e, 0x10, 0x10, 0x1f],
        'F' | 'f' => seq![0x1f, 0x10, 0x10, 0x1e, 0x10, 0x10, 0x10],
        'G' | 'g' => seq![0x0f, 0x10, 0x10, 0x17, 0x11, 0x11, 0x0f],
        'H' | 'h' => seq![0x11, 0x11, 0x11, 0x1f, 0x11, 0x11, 0x11],
        'I' | 'i' => seq![0x1f, 0x04, 0x04, 0x04, 0x04, 0x04, 0x1f],
        'J' | 'j' => seq![0x01, 0x01, 0x01, 0x01, 0x11, 0x11, 0x0e],
        'K' | 'k' => seq![0x11, 0x12, 0x14, 0x18, 0x14, 0x12, 0x11],
        'L' | 'l' => seq![0x10, 0x10, 0x10, 0x10, 0x10, 0x10, 0x1f],
        'M' | 'm' => seq![0x11, 0x1b, 0x15, 0x15, 0x11, 0x11, 0x11],
        'N' | 'n' => seq![0x11, 0x19, 0x15, 0x13, 0x11, 0x11, 0x11],
        'O' | 'o' => seq![0x0e, 0x11, 0x11, 0x11, 0x11, 0x11, 0x0e],
        'P' | 'p' => seq![0x1e, 0x11, 0x11, 0x1e, 0x10, 0x10, 0x10],
        'Q' | 'q' => seq![0x0e, 0x11, 0x11, 0x11, 0x15, 0x12, 0x0d],
        'R' | 'r' => seq![0x1e, 0x11, 0x11, 0x1e, 0x14, 0x12, 0x11],
        'S' | 's' => seq![0x0f, 0x10, 0x10, 0x0e, 0x01, 0x01, 0x1e],
        'T' | 't' => seq![0x1f, 0x04, 0x04, 0x04, 0x04, 0x04, 0x04],
        'U' | 'u' => seq![0x11, 0x11, 0x11, 0x11, 0x11, 0x11, 0x0e],
        'V' | 'v' => seq![0x11, 0x11, 0x11, 0x11, 0x0a, 0x0a, 0x04],
        'W' | 'w' => seq![0x11, 0x11, 0x11, 0x15, 0x15, 0x1b, 0x11],
        'X' | 'x' => seq![0x11, 0x11, 0x0a, 0x04, 0x0a, 0x11, 0x11],
        'Y' | 'y' => seq![0x11, 0x11, 0x0a, 0x04, 0x04, 0x04, 0x04],
        'Z' | 'z' => seq![0x1f, 0x01, 0x02, 0x04, 0x08, 0x10, 0x1f],
        '0' => seq![0x0e, 0x11, 0x13, 0x15, 0x19, 0x11, 0x0e],
        '1' => seq![0x04, 0x0c, 0x04, 0x04, 0x04, 0x04, 0x0e],
        '2' => seq![0x0e, 0x11, 0x01, 0x02, 0x04, 0x08, 0x1f],
        '3' => seq![0x1e, 0x01, 0x01, 0x0e, 0x01, 0x01, 0x1e],
        '4' => seq![0x02, 0x06, 0x0a, 0x12, 0x1f, 0x02, 0x02],
        '5' => seq![0x1f, 0x10, 0x10, 0x1e, 0x01, 0x01, 0x1e],
        '6' => seq![0x06, 0x08, 0x10, 0x1e, 0x11, 0x11, 0x0e],
        '7' => seq![0x1f, 0x01, 0x02, 0x04, 0x08, 0x08, 0x08],
        '8' => seq![0x0e, 0x11, 0x11, 0x0e, 0x11, 0x11, 0x0e],
        '9' => seq![0x0e, 0x11, 0x11, 0x0f, 0x01, 0x02, 0x0c],
        '.' | '·' => seq![0x00, 0x00, 0x00, 0x00, 0x00, 0x0c, 0x0c],
        '-' => seq![0x00, 0x00, 0x00, 0x1f, 0x00, 0x00, 0x00],
        _ => seq![0x0e, 0x11, 0x02, 0x04, 0x04, 0x00, 0x04],
    }
}

/// The 5x7 bitmap of a character: seven rows, bit 4 is the leftmost column.
pub fn bitmap(character: char) -> (rows: [u8; 7])
    ensures
        rows@ == glyph_rows(character),
{
    match character {
        'A' | 'a' => [0x0e, 0x11, 0x11, 0x1f, 0x11, 0x11, 0x11],
        'B' | 'b' => [0x1e, 0x11, 0x11, 0x1e, 0x11, 0x11, 0x1e],
        'C' | 'c' => [0x0f, 0x10, 0x10, 0x10, 0x10, 0x10, 0x0f],
        'D' | 'd' => [0x1e, 0x11, 0x11, 0x11, 0x11, 0x11, 0x1e],
        'E' | 'e' => [0x1f, 0x10, 0x10, 0x1e, 0x10, 0x10, 0x1f],
        'F' | 'f' => [0x1f, 0x10, 0x10, 0x1e, 0x10, 0x10, 0x10],
        'G' | 'g' => [0x0f, 0x10, 0x10, 0x17, 0x11, 0x11, 0x0f],
        'H' | 'h' => [0x11, 0x11, 0x11, 0x1f, 0x11, 0x11, 0x11],
        'I' | 'i' => [0x1f, 0x04, 0x04, 0x04, 0x04, 0x04, 0x1f],
        'J' | 'j' => [0x01, 0x01, 0x01, 0x01, 0x11, 0x11, 0x0e],
        'K' | 'k' => [0x11, 0x12, 0x14, 0x18, 0x14, 0x12, 0x11],
        'L' | 'l' => [0x10, 0x10, 0x10, 0x10, 0x10, 0x10, 0x1f],
        'M' | 'm' => [0x11, 0x1b, 0x15, 0x15, 0x11, 0x11, 0x11],
        'N' | 'n' => [0x11, 0x19, 0x15, 0x13, 0x11, 0x11, 0x11],
        'O' | 'o' => [0x0e, 0x11, 0x11, 0x11, 0x11, 0x11, 0x0e],
        'P' | 'p' => [0x1e, 0x11, 0x11, 0x1e, 0x10, 0x10, 0x10],
        'Q' | 'q' => [0x0e, 0x11, 0x11, 0x11, 0x15, 0x12, 0x0d],
        'R' | 'r' => [0x1e, 0x11, 0x11, 0x1e, 0x14, 0x12, 0x11],
        'S' | 's' => [0x0f, 0x10, 0x10, 0x0e, 0x01, 0x01, 0x1e],
        'T' | 't' => [0x1f, 0x04, 0x04, 0x04, 0x04, 0x04, 0x04],
        'U' | 'u' => [0x11, 0x11, 0x11, 0x11, 0x11, 0x11, 0x0e],
        'V' | 'v' => [0x11, 0x11, 0x11, 0x11, 0x0a, 0x0a, 0x04],
        'W' | 'w' => [0x11, 0x11, 0x11, 0x15, 0x15, 0x1b, 0x11],
        'X' | 'x' => [0x11, 0x11, 0x0a, 0x04, 0x0a, 0x11, 0x11],
        'Y' | 'y' => [0x11, 0x11, 0x0a, 0x04, 0x04, 0x04, 0x04],
        'Z' | 'z' => [0x1f, 0x01, 0x02, 0x04, 0x08, 0x10, 0x1f],
        '0' => [0x0e, 0x11, 0x13, 0x15, 0x19, 0x11, 0x0e],
        '1' => [0x04, 0x0c, 0x04, 0x04, 0x04, 0x04, 0x0e],
        '2' => [0x0e, 0x11, 0x01, 0x02, 0x04, 0x08, 0x1f],
        '3' => [0x1e, 0x01, 0x01, 0x0e, 0x01, 0x01, 0x1e],
        '4' => [0x02, 0x06, 0x0a, 0x12, 0x1f, 0x02, 0x02],
        '5' => [0x1f, 0x10, 0x10, 0x1e, 0x01, 0x01, 0x1e],
        '6' => [0x06, 0x08, 0x10, 0x1e, 0x11, 0x11, 0x0e],
        '7' => [0x1f, 0x01, 0x02, 0x04, 0x08, 0x08, 0x08],
        '8' => [0x0e, 0x11, 0x11, 0x0e, 0x11, 0x11, 0x0e],
        '9' => [0x0e, 0x11, 0x11, 0x0f, 0x01, 0x02, 0x0c],
        '.' | '·' => [0x00, 0x00, 0x00, 0x00, 0x00, 0x0c, 0x0c],
        '-' => [0x00, 0x00, 0x00, 0x1f, 0x00, 0x00, 0x00],
        _ => [0x0e, 0x11, 0x02, 0x04, 0x04, 0x00, 0x04],
    }
}

/// Whether the cell at `row`, `column` of a bitmap is lit.
pub open spec fn cell_lit(rows: Seq<u8>, row: int, column: int) -> bool {
    (rows[row] >> ((4 - column) as u8)) & 1u8 == 1u8
}

/// The position of a cell in row-major order.
pub open spec fn cell_order(cell: (u8, u8)) -> int {
    cell.0 * 5 + cell.1
}

/// The lit cells of a 5x7 bitmap as `(row, column)` pairs, in row-major order.
pub fn lit_cells(rows: [u8; 7]) -> (cells: Vec<(u8, u8)>)
    ensures
        forall|k: int| 0 <= k < cells@.len() ==> {
            let c = #[trigger] cells@[k];
            c.0 < 7 && c.1 < 5 && cell_lit(rows@, c.0 as int, c.1 as int)
        },
        forall|r: int, c: int| 0 <= r < 7 && 0 <= c < 5 && cell_lit(rows@, r, c) ==>
            exists|k: int| 0 <= k < cells@.len() && #[trigger] cells@[k] == (r as u8, c as u8),
        forall|i: int, j: int| 0 <= i < j < cells@.len() ==> cell_order(cells@[i]) < cell_order(cells@[j]),
{
    let mut cells: Vec<(u8, u8)> = Vec::new();
    let mut row: u8 = 0;
    while row < 7
        invariant
            row <= 7,
            forall|k: int| 0 <= k < cells@.len() ==> {
                let c = #[trigger] cells@[k];
                c.0 < row && c.1 < 5 && cell_lit(rows@, c.0 as int, c.1 as int)
            },
            forall|r: int, c: int| 0 <= r < row && 0 <= c < 5 && cell_lit(rows@, r, c) ==>
                exists|k: int| 0 <= k < cells@.len() && #[trigger] cells@[k] == (r as u8, c as u8),
            forall|i: int, j: int| 0 <= i < j < cells@.len() ==> cell_order(cells@[i]) < cell_order(cells@[j]),
        decreases 7 - row,
    {
        let bits = rows[row as usize];
        let mut column: u8 = 0;
        while column < 5
            invariant
                row < 7,
                column <= 5,
                bits == rows@[row as int],
                forall|k: int| 0 <= k < cells@.len() ==> {
                    let c = #[trigger] cells@[k];
                    (c.0 < row || (c.0 == row && c.1 < column)) && c.1 < 5 && cell_lit(rows@, c.0 as int, c.1 as int)
                },
                forall|r: int, c: int| 0 <= r < 7 && 0 <= c < 5 && (r < row || (r == row && c < column)) && cell_lit(rows@, r, c) ==>
                    exists|k: int| 0 <= k < cells@.len() && #[trigger] cells@[k] == (r as u8, c as u8),
                forall|i: int, j: int| 0 <= i < j < cells@.len() ==> cell_order(cells@[i]) < cell_order(cells@[j]),
            decreases 5 - column,
        {
            let shift: u8 = 4 - column;
            if (bits >> shift) & 1 == 1 {
                let ghost before = cells@;
                cells.push((row, column));
                assert(cells@[cells@.len() - 1] == (row, column));
                assert forall|r: int, c: int| 0 <= r < 7 && 0 <= c < 5 && (r < row || (r == row && c < column + 1)) && cell_lit(rows@, r, c) implies
                    exists|k: int| 0 <= k < cells@.len() && #[trigger] cells@[k] == (r as u8, c as u8) by {
                    if r == row && c == column {
                        assert(cells@[cells@.len() - 1] == (r as u8, c as u8));
                    } else {
                        let k = choose|k: int| 0 <= k < before.len() && #[trigger] before[k] == (r as u8, c as u8);
                        assert(cells@[k] == before[k]);
                    }
                }
            }
            column = column + 1;
        }
        row = row + 1;
    }
    cells
}

} // verus!
