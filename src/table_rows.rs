//! Rows of a demo table: heights that alternate in a fixed pattern, and a
//! clock face to label each row.
use vstd::prelude::*;

verus! {

/// Height of a thick row, in pixels.
pub const THICK_ROW_HEIGHT: u32 = 30;

/// Height of any other row, in pixels.
pub const ROW_HEIGHT: u32 = 18;

/// The height of row `i`: every sixth row, from the first on, is thick.
pub open spec fn row_height(i: int) -> u32 {
    if i % 6 == 0 {
        THICK_ROW_HEIGHT
    } else {
        ROW_HEIGHT
    }
}

/// Hands out the heights of `row_count` rows, one at a time.
pub struct DemoRows {
    row_count: usize,
    current_row: usize,
}

impl DemoRows {
    pub closed spec fn count(&self) -> usize {
        self.row_count
    }

    /// The row whose height comes next.
    pub closed spec fn current(&self) -> usize {
        self.current_row
    }

    pub fn new(row_count: usize) -> (r: DemoRows)
        ensures
            r.count() == row_count,
            r.current() == 0,
    {
        DemoRows { row_count, current_row: 0 }
    }

    /// The height of the next row, or `None` once all rows are handed out.
    pub fn next(&mut self) -> (r: Option<u32>)
        ensures
            final(self).count() == old(self).count(),
            old(self).current() < old(self).count() ==> r == Some(row_height(old(self).current() as int))
                && final(self).current() == old(self).current() + 1,
            old(self).current() >= old(self).count() ==> r is None && final(self).current() == old(self).current(),
    {
        if self.current_row < self.row_count {
            let thick = self.current_row % 6 == 0;
            self.current_row = self.current_row + 1;
            Some(if thick { THICK_ROW_HEIGHT } else { ROW_HEIGHT })
        } else {
            None
        }
    }
}

/// Relies on `char::from_u32`: a valid Unicode scalar value gives the char
/// with that code.
#[verifier::external_body]
fn char_from_code(code: u32) -> (r: Option<char>)
    ensures
        (code < 0xd800 || (0xdfff < code && code <= 0x10ffff)) ==> r is Some && r.unwrap() as u32 == code,
{
    char::from_u32(code)
}

/// Relies on `char::to_string`: the string of that one char.
#[verifier::external_body]
fn char_to_string(c: char) -> (r: String)
    ensures
        r@ == seq![c],
{
    c.to_string()
}

/// The code of the clock face that labels row `row_index`: the 24 faces
/// from one o'clock on, in turn.
pub open spec fn clock_code(row_index: usize) -> u32 {
    (0x1f550 + (row_index as u32) % 24) as u32
}

/// The clock face that labels row `row_index`.
pub fn clock_emoji(row_index: usize) -> (r: String)
    ensures
        r@.len() == 1,
        r@[0] as u32 == clock_code(row_index),
{
    let code: u32 = 0x1f550 + row_index as u32 % 24;
    match char_from_code(code) {
        Some(c) => char_to_string(c),
        None => {
            assert(false);
            String::new()
        },
    }
}

} // verus!
