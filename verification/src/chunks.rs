//! Which horizontal bands of the screen an item reaches.

use vstd::prelude::*;
use crate::model::{CHUNKS_AMT, HOR_LEN};

verus! {

/// Band `c` starts within the rows `y ..= y + h`.
pub open spec fn in_rect_chunk(c: nat, y: u16, h: u16) -> bool {
    y <= 40 * c <= y + h
}

/// Band `c` starts or ends within the rows `y ..= y + h`.
pub open spec fn in_text_chunk(c: nat, y: u16, h: u16) -> bool {
    (y <= 40 * c + 40 <= y + h) || (y <= 40 * c <= y + h)
}

/// The bands below `n` that meet the test (of a rectangle, or of a text
/// when `text`), in increasing order.
pub open spec fn chunks_below(n: nat, y: u16, h: u16, text: bool) -> Seq<usize>
    decreases n,
{
    if n == 0 {
        seq![]
    } else {
        let prev = chunks_below((n - 1) as nat, y, h, text);
        let hit = if text { in_text_chunk((n - 1) as nat, y, h) } else { in_rect_chunk((n - 1) as nat, y, h) };
        if hit { prev.push((n - 1) as usize) } else { prev }
    }
}

/// The bands whose first row lies within a rectangle of height `h` at row `y`.
pub open spec fn rect_chunks(y: u16, h: u16) -> Seq<usize> {
    chunks_below(8, y, h, false)
}

/// The bands whose first or last row lies within a text of height `h` at row `y`.
pub open spec fn text_chunks(y: u16, h: u16) -> Seq<usize> {
    chunks_below(8, y, h, true)
}

/// Every band listed is below `n`, meets the test and is listed once,
/// in increasing order; every band below `n` that meets the test is listed.
pub proof fn lemma_chunks_below(n: nat, y: u16, h: u16, text: bool)
    ensures
        forall|i: int| 0 <= i < chunks_below(n, y, h, text).len() ==> {
            let c = #[trigger] chunks_below(n, y, h, text)[i];
            &&& c < n
            &&& (if text { in_text_chunk(c as nat, y, h) } else { in_rect_chunk(c as nat, y, h) })
        },
        forall|i: int, j: int| 0 <= i < j < chunks_below(n, y, h, text).len()
            ==> chunks_below(n, y, h, text)[i] < chunks_below(n, y, h, text)[j],
        forall|c: nat| c < n && (if text { in_text_chunk(c, y, h) } else { in_rect_chunk(c, y, h) })
            ==> #[trigger] chunks_below(n, y, h, text).contains(c as usize),
        chunks_below(n, y, h, text).len() <= n,
    decreases n,
{
    if n > 0 {
        lemma_chunks_below((n - 1) as nat, y, h, text);
        let prev = chunks_below((n - 1) as nat, y, h, text);
        assert forall|c: nat| c < n && (if text { in_text_chunk(c, y, h) } else { in_rect_chunk(c, y, h) })
            implies #[trigger] chunks_below(n, y, h, text).contains(c as usize) by {
            if c < n - 1 {
                assert(prev.contains(c as usize));
                let k = choose|k: int| 0 <= k < prev.len() && prev[k] == c as usize;
                assert(chunks_below(n, y, h, text)[k] == c as usize);
            } else {
                assert(chunks_below(n, y, h, text).last() == c as usize);
            }
        }
    }
}

/// The bands that a rectangle of height `height` at row `y` reaches: those
/// whose first row lies within it.
pub fn get_chunks_of_rect(y: u16, height: u16) -> (c: Vec<usize>)
    requires
        y + height <= u16::MAX,
    ensures
        c@ == rect_chunks(y, height),
{
    let mut c: Vec<usize> = Vec::new();
    let bottom = y + height;
    for chunk in 0..CHUNKS_AMT
        invariant
            bottom == y + height,
            c@ == chunks_below(chunk as nat, y, height, false),
    {
        if chunk * HOR_LEN >= y as usize && chunk * HOR_LEN <= bottom as usize {
            c.push(chunk);
        }
    }
    c
}

/// The bands that a text of glyph height `height` at row `y` reaches: those
/// whose first or last row lies within it.
pub fn get_chunks_of_text(y: u16, height: u16) -> (c: Vec<usize>)
    ensures
        c@ == text_chunks(y, height),
{
    let mut c: Vec<usize> = Vec::new();
    let top = y as usize;
    let bottom = y as usize + height as usize;
    for chunk in 0..CHUNKS_AMT
        invariant
            top == y,
            bottom == y + height,
            c@ == chunks_below(chunk as nat, y, height, true),
    {
        let chunk_y = chunk * HOR_LEN;
        if (chunk_y + 40 >= top && chunk_y + 40 <= bottom) || (chunk_y >= top && chunk_y <= bottom) {
            c.push(chunk);
        }
    }
    c
}

} // verus!
