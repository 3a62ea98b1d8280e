//! Generation of the C drawing code for a canvas.
//!
//! The generated function `<name>DrawCallback(int i)` draws band `i` of the
//! screen: first the full-screen fills of the `Base` items, then one block
//! per band range, holding the code of every item that reaches those bands.
//! `<name>Draw()` opens the image files and calls the callback for every band.

use vstd::prelude::*;
use std::collections::HashMap;
use crate::chunks;
use crate::chunk_table;
use crate::chunk_table::{insert_chunk_code, push_blocks, ChunkCode, ChunkEntry};
use crate::chunks::{get_chunks_of_rect, get_chunks_of_text};
use crate::color;
use crate::model::{Canvas, FontSize, UiItem};
use crate::model;
use crate::text;
use crate::text::{push_chars, push_dec, push_hex4, push_str};
use crate::color::is_color_same_bytes;

verus! {

// ---------------------------------------------------------------------
// The code of each item
// ---------------------------------------------------------------------

/// The fill function that writes `color`: a byte-wise `memset` where both
/// bytes are equal, else `memset_u16`.
pub open spec fn memset_name(color: u16) -> Seq<char> {
    if color::same_bytes(color) { "memset"@ } else { "memset_u16"@ }
}

/// The code of a `Base` item: it fills every row of the band.
pub open spec fn base_code(color: u16) -> Seq<char> {
    "for (int o=0; o<40;o++) {\n"@ + memset_name(color) + "(&disp_buf[o*480*2],0x"@ + text::hex4(color)
        + ",480*2);\n"@ + "}\n"@
}

/// The code of a rectangle for band `chunk`: a fill of its row. When the
/// rectangle ends `k` rows into the band, the fill is guarded by
/// `if (o<k) {`, followed by an empty `for (int o=0; o<k;o++) {}`, and the
/// guard is then closed with `}` so that the generated C has balanced braces
/// (the tool's output is meant to be C code; the loop line alone would
/// leave the guard open).
pub open spec fn rect_code(chunk: nat, x: u16, y: u16, w: u16, h: u16, color: u16) -> Seq<char> {
    let last = y + h - 40 * chunk;
    let fill = memset_name(color) + "(&disp_buf[o*480*2+"@ + text::dec(x as nat) + "*2],0x"@ + text::hex4(color) + ","@
        + text::dec(w as nat) + "*2);\n"@;
    if last < 40 {
        "if (o<"@ + text::dec(last as nat) + ") {\n"@ + fill + "for (int o=0; o<"@ + text::dec(last as nat)
            + ";o++) {\n"@ + "}\n"@ + "}\n"@
    } else {
        fill
    }
}

/// The code of a text item whose text, quoted as `{:?}` quotes it, is `quoted`.
pub open spec fn text_code_quoted(x: u16, y: u16, quoted: Seq<char>, font: FontSize, color: u16) -> Seq<char> {
    "writeStringToBuffer("@ + text::dec(x as nat) + ", "@ + text::dec(y as nat) + "-o*HOR_LEN, "@ + quoted + ", "@
        + model::font_name(font) + ", 0x"@ + text::hex4(color) + ", disp_buf, 480, HOR_LEN);\n"@
}

/// The code of a text item.
pub open spec fn text_code(x: u16, y: u16, text: Seq<char>, font: FontSize, color: u16) -> Seq<char> {
    text_code_quoted(x, y, text::debug_text(text), font, color)
}

/// The set-up code of the image item numbered `index` whose path, quoted as
/// `{:?}` quotes it, is `quoted`: it opens the image file.
pub open spec fn img_setup_quoted(index: nat, quoted: Seq<char>) -> Seq<char> {
    "\nFIL img"@ + text::dec(index) + ";\nFRESULT res = f_open(&img"@ + text::dec(index) + ", "@ + quoted
        + ", FA_READ);\nif (res != FR_OK) {\nprint(\"f_open failed with code: %d\r\n\", res);\nreturn;\n}"@
}

/// The set-up code of the image item numbered `index`: it opens the image file.
pub open spec fn img_setup(index: nat, path: Seq<char>) -> Seq<char> {
    img_setup_quoted(index, text::debug_text(path))
}

/// The per-row code of the image item numbered `index`: it reads a row of
/// the image file into the band.
pub open spec fn img_code(x: u16, y: u16, index: nat, width: u32) -> Seq<char> {
    "int currentY = i*HOR_LEN+O;\n                    if (currentY >= "@ + text::dec(y as nat)
        + ") {\n                        res = f_lseek(&img"@ + text::dec(index) + ", (currentY-"@ + text::dec(y as nat)
        + ")*width*2);\n                        if (res != FR_OK) {\n                            print(\"f_seek failed with code: %d\r\n\", res);\n                        }\n                        res = f_read(&img"@
        + text::dec(index) + ",\n                                    &disp_buf[(currentY-"@ + text::dec(y as nat) + ")*480*2+"@
        + text::dec(x as nat) + "*2],\n                                    "@ + text::dec(width as nat)
        + "*2, 0);\n                        if (res != FR_OK) {\n                            print(\"f_read failed with code: %d\r\n\", res);\n                        }\n                    }"@
}

// ---------------------------------------------------------------------
// The generation, item by item
// ---------------------------------------------------------------------

/// What the generation has gathered after some items: the code of the
/// `Base` items, the set-up code, the number of image items, and the table
/// of code per band range.
pub struct GenState {
    pub base: Seq<char>,
    pub setup: Seq<char>,
    pub imgs: nat,
    pub table: Seq<ChunkCode>,
}

/// The row count of an image as a `u16`, wrapping as the cast in the
/// generation does.
pub open spec fn img_rows(height: u32) -> u16 {
    (height % 65536) as u16
}

/// The step of the generation for one item. `sizes[k]` is the width and
/// height of the image of the image item numbered `k`.
pub open spec fn gen_step(st: GenState, item: UiItem, sizes: Seq<(u32, u32)>) -> GenState {
    match item {
        UiItem::Base(color) => GenState { base: st.base + base_code(color), ..st },
        UiItem::Rect(x, y, w, h, color) => {
            let c = chunks::rect_chunks(y, h);
            let s = c[0] as u16;
            let e = c.last() as u16;
            let first = rect_code(s as nat, x, y, w, h, color);
            let last = rect_code(e as nat, x, y, w, h, color);
            if first != last {
                GenState {
                    table: chunk_table::table_insert(chunk_table::table_insert(st.table, e, e, last, true), s, (e - 1) as u16, first, true),
                    ..st
                }
            } else {
                GenState { table: chunk_table::table_insert(st.table, s, e, first, true), ..st }
            }
        },
        UiItem::Text(x, y, text, font, color) => {
            let c = chunks::text_chunks(y, model::font_dims(font).1);
            GenState {
                table: chunk_table::table_insert(st.table, c[0] as u16, c.last() as u16, text_code(x, y, text@, font, color), false),
                ..st
            }
        },
        UiItem::Img(x, y, path) => {
            let (width, height) = sizes[st.imgs as int];
            let c = chunks::rect_chunks(y, img_rows(height));
            GenState {
                base: st.base,
                setup: st.setup + img_setup(st.imgs, path@),
                imgs: st.imgs + 1,
                table: chunk_table::table_insert(st.table, c[0] as u16, c.last() as u16, img_code(x, y, st.imgs, width), true),
            }
        },
        UiItem::ImgEx(..) => st,
    }
}

/// The state after the first `n` items.
pub open spec fn gen_state(items: Seq<UiItem>, sizes: Seq<(u32, u32)>, n: nat) -> GenState
    decreases n,
{
    if n == 0 {
        GenState { base: seq![], setup: seq![], imgs: 0, table: seq![] }
    } else {
        gen_step(gen_state(items, sizes, (n - 1) as nat), items[n - 1], sizes)
    }
}

/// Number of image items among the first `n` items.
pub open spec fn img_count(items: Seq<UiItem>, n: nat) -> nat
    decreases n,
{
    if n == 0 {
        0
    } else {
        img_count(items, (n - 1) as nat) + if items[n - 1] is Img { 1nat } else { 0nat }
    }
}

/// The generation gets through `item`, the image item numbered `imgs` if it
/// is one: a rectangle's rows fit in a `u16` and it reaches a band, a text
/// reaches a band, an image has its size in `sizes`, its rows fit in a
/// `u16` and it reaches a band.
pub open spec fn step_ok(item: UiItem, imgs: nat, sizes: Seq<(u32, u32)>) -> bool {
    match item {
        UiItem::Rect(_, y, _, h, _) => y + h <= u16::MAX && chunks::rect_chunks(y, h).len() > 0,
        UiItem::Text(_, y, _, font, _) => chunks::text_chunks(y, model::font_dims(font).1).len() > 0,
        UiItem::Img(_, y, _) => imgs < sizes.len() && y + img_rows(sizes[imgs as int].1) <= u16::MAX
            && chunks::rect_chunks(y, img_rows(sizes[imgs as int].1)).len() > 0,
        _ => true,
    }
}

/// The generation gets through every item.
pub open spec fn gen_ok(items: Seq<UiItem>, sizes: Seq<(u32, u32)>) -> bool {
    forall|i: int| 0 <= i < items.len() ==> #[trigger] step_ok(items[i], img_count(items, i as nat), sizes)
}

/// The whole generated code, the blocks of the band ranges coming in the
/// order `order`: the callback that draws one band, then the function that
/// opens the images and draws every band.
pub open spec fn code_with_order(name: Seq<char>, items: Seq<UiItem>, sizes: Seq<(u32, u32)>, order: Seq<ChunkCode>) -> Seq<char> {
    let st = gen_state(items, sizes, items.len());
    "void "@ + name + "DrawCallback(int i) {\n"@ + st.base + chunk_table::blocks_code(order) + "}\n"@
        + draw_code(name, st.setup)
}

/// `code` is the drawing code of the canvas named `name`, with its blocks
/// in one of the orders that the hash map of band ranges may hand out.
pub open spec fn is_drawing_code(name: Seq<char>, items: Seq<UiItem>, sizes: Seq<(u32, u32)>, code: Seq<char>) -> bool {
    exists|order: Seq<ChunkCode>| chunk_table::is_reordering(order, gen_state(items, sizes, items.len()).table)
        && code == code_with_order(name, items, sizes, order)
}

/// The function that opens the image files and draws every band.
pub open spec fn draw_code(name: Seq<char>, setup: Seq<char>) -> Seq<char> {
    "\nvoid "@ + name + "Draw() {\n  "@ + setup + "\n  for (int i = 0; i < 320/HOR_LEN; i++) {\n    "@ + name
        + "DrawCallback(i);\n  }\n}\n"@
}

/// Law: the generated code has one block per band range, whatever the
/// items: the table of code per band range never holds a range twice.
pub proof fn lemma_one_block_per_range(items: Seq<UiItem>, sizes: Seq<(u32, u32)>, n: nat)
    ensures
        chunk_table::ranges_distinct(gen_state(items, sizes, n).table),
    decreases n,
{
    if n > 0 {
        let prev = gen_state(items, sizes, (n - 1) as nat);
        lemma_one_block_per_range(items, sizes, (n - 1) as nat);
        let t = prev.table;
        match items[n - 1] {
            UiItem::Rect(x, y, w, h, color) => {
                let c = chunks::rect_chunks(y, h);
                let s = c[0] as u16;
                let e = c.last() as u16;
                let first = rect_code(s as nat, x, y, w, h, color);
                let last = rect_code(e as nat, x, y, w, h, color);
                chunk_table::lemma_table_insert_distinct(t, e, e, last, true);
                chunk_table::lemma_table_insert_distinct(chunk_table::table_insert(t, e, e, last, true), s, (e - 1) as u16, first, true);
                chunk_table::lemma_table_insert_distinct(t, s, e, first, true);
            },
            UiItem::Text(x, y, text, font, color) => {
                let c = chunks::text_chunks(y, model::font_dims(font).1);
                chunk_table::lemma_table_insert_distinct(t, c[0] as u16, c.last() as u16, text_code(x, y, text@, font, color), false);
            },
            UiItem::Img(x, y, path) => {
                let (width, height) = sizes[prev.imgs as int];
                let c = chunks::rect_chunks(y, img_rows(height));
                chunk_table::lemma_table_insert_distinct(t, c[0] as u16, c.last() as u16, img_code(x, y, prev.imgs, width), true);
            },
            _ => {},
        }
    }
}

proof fn lemma_insert_prefix(items: Seq<UiItem>, sizes: Seq<(u32, u32)>, i: int, e: UiItem, n: nat)
    requires
        0 <= i <= items.len(),
        n <= i,
    ensures
        gen_state(items.insert(i, e), sizes, n) == gen_state(items, sizes, n),
        img_count(items.insert(i, e), n) == img_count(items, n),
    decreases n,
{
    if n > 0 {
        lemma_insert_prefix(items, sizes, i, e, (n - 1) as nat);
        assert(items.insert(i, e)[n - 1] == items[n - 1]);
    }
}

proof fn lemma_insert_suffix(items: Seq<UiItem>, sizes: Seq<(u32, u32)>, i: int, e: UiItem, n: nat)
    requires
        0 <= i <= items.len(),
        e is ImgEx,
        i < n <= items.len() + 1,
    ensures
        gen_state(items.insert(i, e), sizes, n) == gen_state(items, sizes, (n - 1) as nat),
        img_count(items.insert(i, e), n) == img_count(items, (n - 1) as nat),
    decreases n,
{
    let items2 = items.insert(i, e);
    if n == i + 1 {
        lemma_insert_prefix(items, sizes, i, e, i as nat);
        assert(items2[i] == e);
    } else {
        lemma_insert_suffix(items, sizes, i, e, (n - 1) as nat);
        assert(items2[n - 1] == items[n - 2]);
    }
}

/// Law: a cropped-image item adds no code, no set-up and no image: with
/// one inserted anywhere among the items, the generation gets through the
/// same items and yields the same drawing code.
pub proof fn lemma_img_ex_adds_nothing(items: Seq<UiItem>, sizes: Seq<(u32, u32)>, i: int, e: UiItem)
    requires
        0 <= i <= items.len(),
        e is ImgEx,
    ensures
        gen_state(items.insert(i, e), sizes, items.len() + 1) == gen_state(items, sizes, items.len()),
        gen_ok(items.insert(i, e), sizes) == gen_ok(items, sizes),
        forall|name: Seq<char>, code: Seq<char>|
            is_drawing_code(name, items.insert(i, e), sizes, code) == is_drawing_code(name, items, sizes, code),
{
    let items2 = items.insert(i, e);
    lemma_insert_suffix(items, sizes, i, e, (items.len() + 1) as nat);
    assert forall|j: int| 0 <= j < items2.len() implies
        #[trigger] step_ok(items2[j], img_count(items2, j as nat), sizes) == (j == i || (
            if j < i { step_ok(items[j], img_count(items, j as nat), sizes) }
            else { step_ok(items[j - 1], img_count(items, (j - 1) as nat), sizes) })) by {
        if j < i {
            lemma_insert_prefix(items, sizes, i, e, j as nat);
        } else if j > i {
            lemma_insert_suffix(items, sizes, i, e, j as nat);
            assert(items2[j] == items[j - 1]);
        }
    }
    if gen_ok(items, sizes) {
        assert forall|j: int| 0 <= j < items2.len() implies #[trigger] step_ok(items2[j], img_count(items2, j as nat), sizes) by {
            if j < i {
                assert(step_ok(items[j], img_count(items, j as nat), sizes));
            } else if j > i {
                assert(step_ok(items[j - 1], img_count(items, (j - 1) as nat), sizes));
            }
        }
    }
    if gen_ok(items2, sizes) {
        assert forall|j: int| 0 <= j < items.len() implies #[trigger] step_ok(items[j], img_count(items, j as nat), sizes) by {
            if j < i {
                assert(step_ok(items2[j], img_count(items2, j as nat), sizes));
            } else {
                assert(step_ok(items2[j + 1], img_count(items2, (j + 1) as nat), sizes));
            }
        }
    }
    assert forall|name: Seq<char>, code: Seq<char>|
        is_drawing_code(name, items2, sizes, code) == is_drawing_code(name, items, sizes, code) by {
        assert forall|order: Seq<ChunkCode>| code_with_order(name, items2, sizes, order) == code_with_order(name, items, sizes, order) by {}
    }
}

/// A rectangle's fill is the same for every band that it covers to the
/// band's end.
pub proof fn lemma_rect_code_full_bands(b1: nat, b2: nat, x: u16, y: u16, w: u16, h: u16, color: u16)
    requires
        40 * (b1 + 1) <= y + h,
        40 * (b2 + 1) <= y + h,
    ensures
        rect_code(b1, x, y, w, h, color) == rect_code(b2, x, y, w, h, color),
{
}

/// Law of a rectangle: every band that the rectangle reaches lies in a band
/// range whose per-row code gained that band's fill, and kept its per-band
/// code; code is added only to ranges within the rectangle's bands, and no
/// band lies in two ranges that gained code.
pub proof fn lemma_rect_fills_its_bands(st: GenState, x: u16, y: u16, w: u16, h: u16, color: u16, sizes: Seq<(u32, u32)>)
    requires
        chunk_table::ranges_distinct(st.table),
        step_ok(UiItem::Rect(x, y, w, h, color), st.imgs, sizes),
    ensures
        ({
            let r = gen_step(st, UiItem::Rect(x, y, w, h, color), sizes).table;
            let c = chunks::rect_chunks(y, h);
            &&& forall|i: int| 0 <= i < c.len() ==> exists|s: u16, e: u16| s <= #[trigger] c[i] <= e
                && chunk_table::entry_for(r, s, e).per_pixel == chunk_table::entry_for(st.table, s, e).per_pixel
                    + rect_code(c[i] as nat, x, y, w, h, color)
                && chunk_table::entry_for(r, s, e).base == chunk_table::entry_for(st.table, s, e).base
            &&& forall|s: u16, e: u16| #[trigger] chunk_table::entry_for(r, s, e) != chunk_table::entry_for(st.table, s, e)
                ==> c[0] <= s <= e <= c.last()
            &&& forall|s1: u16, e1: u16, s2: u16, e2: u16|
                #[trigger] chunk_table::entry_for(r, s1, e1) != chunk_table::entry_for(st.table, s1, e1)
                && #[trigger] chunk_table::entry_for(r, s2, e2) != chunk_table::entry_for(st.table, s2, e2)
                && !(s1 == s2 && e1 == e2) ==> e1 < s2 || e2 < s1
        }),
{
    let t = st.table;
    let r = gen_step(st, UiItem::Rect(x, y, w, h, color), sizes).table;
    let c = chunks::rect_chunks(y, h);
    chunks::lemma_chunks_below(8, y, h, false);
    let s = c[0] as u16;
    let e = c.last() as u16;
    assert(c.len() > 1 ==> c[0] < c[c.len() - 1]);
    assert(s <= e);
    assert(chunks::in_rect_chunk(e as nat, y, h));
    let first = rect_code(s as nat, x, y, w, h, color);
    let last = rect_code(e as nat, x, y, w, h, color);
    let empty = Seq::<char>::empty();
    assert forall|i: int| 0 <= i < c.len() implies s <= #[trigger] c[i] <= e by {
        if i > 0 {
            assert(c[0] < c[i]);
        }
        if i < c.len() - 1 {
            assert(c[i] < c[c.len() - 1]);
        }
    }
    if first != last {
        let t1 = chunk_table::table_insert(t, e, e, last, true);
        chunk_table::lemma_table_insert_law(t, e, e, last, true);
        chunk_table::lemma_table_insert_law(t1, s, (e - 1) as u16, first, true);
        assert(r == chunk_table::table_insert(t1, s, (e - 1) as u16, first, true));
        assert(chunk_table::entry_for(r, e, e) == chunk_table::entry_for(t1, e, e));
        assert(chunk_table::entry_for(t1, s, (e - 1) as u16) == chunk_table::entry_for(t, s, (e - 1) as u16));
        assert(chunk_table::entry_for(t, e, e).base + empty =~= chunk_table::entry_for(t, e, e).base);
        assert(chunk_table::entry_for(t, s, (e - 1) as u16).base + empty
            =~= chunk_table::entry_for(t, s, (e - 1) as u16).base);
        assert forall|i: int| 0 <= i < c.len() implies exists|s0: u16, e0: u16| s0 <= #[trigger] c[i] <= e0
            && chunk_table::entry_for(r, s0, e0).per_pixel == chunk_table::entry_for(t, s0, e0).per_pixel
                + rect_code(c[i] as nat, x, y, w, h, color)
            && chunk_table::entry_for(r, s0, e0).base == chunk_table::entry_for(t, s0, e0).base by {
            assert(s <= c[i] <= e);
            if c[i] == e {
                assert(e <= c[i] <= e);
            } else {
                lemma_rect_code_full_bands(c[i] as nat, s as nat, x, y, w, h, color);
                assert(s <= c[i] <= (e - 1) as u16);
            }
        }
        assert forall|s0: u16, e0: u16| #[trigger] chunk_table::entry_for(r, s0, e0) != chunk_table::entry_for(t, s0, e0)
            implies c[0] <= s0 <= e0 <= c.last() by {
            if !(s0 == s && e0 == (e - 1) as u16) {
                assert(chunk_table::entry_for(r, s0, e0) == chunk_table::entry_for(t1, s0, e0));
                if !(s0 == e && e0 == e) {
                    assert(chunk_table::entry_for(t1, s0, e0) == chunk_table::entry_for(t, s0, e0));
                }
            }
        }
        assert forall|s1: u16, e1: u16, s2: u16, e2: u16|
            #[trigger] chunk_table::entry_for(r, s1, e1) != chunk_table::entry_for(t, s1, e1)
            && #[trigger] chunk_table::entry_for(r, s2, e2) != chunk_table::entry_for(t, s2, e2)
            && !(s1 == s2 && e1 == e2) implies e1 < s2 || e2 < s1 by {
            if !(s1 == s && e1 == (e - 1) as u16) && !(s1 == e && e1 == e) {
                assert(chunk_table::entry_for(r, s1, e1) == chunk_table::entry_for(t1, s1, e1));
            }
            if !(s2 == s && e2 == (e - 1) as u16) && !(s2 == e && e2 == e) {
                assert(chunk_table::entry_for(r, s2, e2) == chunk_table::entry_for(t1, s2, e2));
            }
        }
    } else {
        chunk_table::lemma_table_insert_law(t, s, e, first, true);
        assert(chunk_table::entry_for(t, s, e).base + empty =~= chunk_table::entry_for(t, s, e).base);
        assert forall|i: int| 0 <= i < c.len() implies exists|s0: u16, e0: u16| s0 <= #[trigger] c[i] <= e0
            && chunk_table::entry_for(r, s0, e0).per_pixel == chunk_table::entry_for(t, s0, e0).per_pixel
                + rect_code(c[i] as nat, x, y, w, h, color)
            && chunk_table::entry_for(r, s0, e0).base == chunk_table::entry_for(t, s0, e0).base by {
            assert(s <= c[i] <= e);
            if c[i] != e {
                lemma_rect_code_full_bands(c[i] as nat, s as nat, x, y, w, h, color);
            }
        }
        assert forall|s0: u16, e0: u16| #[trigger] chunk_table::entry_for(r, s0, e0) != chunk_table::entry_for(t, s0, e0)
            implies c[0] <= s0 <= e0 <= c.last() by {
            if !(s0 == s && e0 == e) {
                assert(chunk_table::entry_for(r, s0, e0) == chunk_table::entry_for(t, s0, e0));
            }
        }
        assert forall|s1: u16, e1: u16, s2: u16, e2: u16|
            #[trigger] chunk_table::entry_for(r, s1, e1) != chunk_table::entry_for(t, s1, e1)
            && #[trigger] chunk_table::entry_for(r, s2, e2) != chunk_table::entry_for(t, s2, e2)
            && !(s1 == s2 && e1 == e2) implies e1 < s2 || e2 < s1 by {
            if !(s1 == s && e1 == e) {
                assert(chunk_table::entry_for(r, s1, e1) == chunk_table::entry_for(t, s1, e1));
            }
            if !(s2 == s && e2 == e) {
                assert(chunk_table::entry_for(r, s2, e2) == chunk_table::entry_for(t, s2, e2));
            }
        }
    }
}

/// Law of an image: every band that the image reaches lies in the one band
/// range that gained the image's per-row read code, and that range kept its
/// per-band code; code is added to no other range.
pub proof fn lemma_img_reads_its_bands(st: GenState, x: u16, y: u16, path: String, sizes: Seq<(u32, u32)>)
    requires
        chunk_table::ranges_distinct(st.table),
        step_ok(UiItem::Img(x, y, path), st.imgs, sizes),
    ensures
        ({
            let r = gen_step(st, UiItem::Img(x, y, path), sizes).table;
            let width = sizes[st.imgs as int].0;
            let c = chunks::rect_chunks(y, img_rows(sizes[st.imgs as int].1));
            &&& forall|i: int| 0 <= i < c.len() ==> exists|s: u16, e: u16| s <= #[trigger] c[i] <= e
                && chunk_table::entry_for(r, s, e).per_pixel == chunk_table::entry_for(st.table, s, e).per_pixel
                    + img_code(x, y, st.imgs, width)
                && chunk_table::entry_for(r, s, e).base == chunk_table::entry_for(st.table, s, e).base
            &&& forall|s1: u16, e1: u16, s2: u16, e2: u16|
                #[trigger] chunk_table::entry_for(r, s1, e1) != chunk_table::entry_for(st.table, s1, e1)
                && #[trigger] chunk_table::entry_for(r, s2, e2) != chunk_table::entry_for(st.table, s2, e2)
                ==> s1 == s2 && e1 == e2 && c[0] <= s1 <= e1 <= c.last()
        }),
{
    let t = st.table;
    let r = gen_step(st, UiItem::Img(x, y, path), sizes).table;
    let width = sizes[st.imgs as int].0;
    let rows = img_rows(sizes[st.imgs as int].1);
    let c = chunks::rect_chunks(y, rows);
    chunks::lemma_chunks_below(8, y, rows, false);
    let s = c[0] as u16;
    let e = c.last() as u16;
    let code = img_code(x, y, st.imgs, width);
    let empty = Seq::<char>::empty();
    assert forall|i: int| 0 <= i < c.len() implies s <= #[trigger] c[i] <= e by {
        if i > 0 {
            assert(c[0] < c[i]);
        }
        if i < c.len() - 1 {
            assert(c[i] < c[c.len() - 1]);
        }
    }
    chunk_table::lemma_table_insert_law(t, s, e, code, true);
    assert(chunk_table::entry_for(t, s, e).base + empty =~= chunk_table::entry_for(t, s, e).base);
    assert forall|i: int| 0 <= i < c.len() implies exists|s0: u16, e0: u16| s0 <= #[trigger] c[i] <= e0
        && chunk_table::entry_for(r, s0, e0).per_pixel == chunk_table::entry_for(t, s0, e0).per_pixel + code
        && chunk_table::entry_for(r, s0, e0).base == chunk_table::entry_for(t, s0, e0).base by {
        assert(s <= c[i] <= e);
    }
    assert forall|s1: u16, e1: u16, s2: u16, e2: u16|
        #[trigger] chunk_table::entry_for(r, s1, e1) != chunk_table::entry_for(t, s1, e1)
        && #[trigger] chunk_table::entry_for(r, s2, e2) != chunk_table::entry_for(t, s2, e2)
        implies s1 == s2 && e1 == e2 && c[0] <= s1 <= e1 <= c.last() by {
        if !(s1 == s && e1 == e) {
            assert(chunk_table::entry_for(r, s1, e1) == chunk_table::entry_for(t, s1, e1));
        }
        if !(s2 == s && e2 == e) {
            assert(chunk_table::entry_for(r, s2, e2) == chunk_table::entry_for(t, s2, e2));
        }
    }
}

/// Law of a text: every band that the text reaches lies in the one band
/// range that gained the text's call as per-band code, and that range kept
/// its per-row code; code is added to no other range.
pub proof fn lemma_text_writes_its_bands(st: GenState, x: u16, y: u16, text: String, font: FontSize, color: u16, sizes: Seq<(u32, u32)>)
    requires
        chunk_table::ranges_distinct(st.table),
        step_ok(UiItem::Text(x, y, text, font, color), st.imgs, sizes),
    ensures
        ({
            let r = gen_step(st, UiItem::Text(x, y, text, font, color), sizes).table;
            let c = chunks::text_chunks(y, model::font_dims(font).1);
            &&& forall|i: int| 0 <= i < c.len() ==> exists|s: u16, e: u16| s <= #[trigger] c[i] <= e
                && chunk_table::entry_for(r, s, e).base == chunk_table::entry_for(st.table, s, e).base
                    + text_code(x, y, text@, font, color)
                && chunk_table::entry_for(r, s, e).per_pixel == chunk_table::entry_for(st.table, s, e).per_pixel
            &&& forall|s1: u16, e1: u16, s2: u16, e2: u16|
                #[trigger] chunk_table::entry_for(r, s1, e1) != chunk_table::entry_for(st.table, s1, e1)
                && #[trigger] chunk_table::entry_for(r, s2, e2) != chunk_table::entry_for(st.table, s2, e2)
                ==> s1 == s2 && e1 == e2 && c[0] <= s1 <= e1 <= c.last()
        }),
{
    let t = st.table;
    let r = gen_step(st, UiItem::Text(x, y, text, font, color), sizes).table;
    let fh = model::font_dims(font).1;
    let c = chunks::text_chunks(y, fh);
    chunks::lemma_chunks_below(8, y, fh, true);
    let s = c[0] as u16;
    let e = c.last() as u16;
    let code = text_code(x, y, text@, font, color);
    let empty = Seq::<char>::empty();
    assert forall|i: int| 0 <= i < c.len() implies s <= #[trigger] c[i] <= e by {
        if i > 0 {
            assert(c[0] < c[i]);
        }
        if i < c.len() - 1 {
            assert(c[i] < c[c.len() - 1]);
        }
    }
    chunk_table::lemma_table_insert_law(t, s, e, code, false);
    assert(chunk_table::entry_for(t, s, e).per_pixel + empty =~= chunk_table::entry_for(t, s, e).per_pixel);
    assert forall|i: int| 0 <= i < c.len() implies exists|s0: u16, e0: u16| s0 <= #[trigger] c[i] <= e0
        && chunk_table::entry_for(r, s0, e0).base == chunk_table::entry_for(t, s0, e0).base + code
        && chunk_table::entry_for(r, s0, e0).per_pixel == chunk_table::entry_for(t, s0, e0).per_pixel by {
        assert(s <= c[i] <= e);
    }
    assert forall|s1: u16, e1: u16, s2: u16, e2: u16|
        #[trigger] chunk_table::entry_for(r, s1, e1) != chunk_table::entry_for(t, s1, e1)
        && #[trigger] chunk_table::entry_for(r, s2, e2) != chunk_table::entry_for(t, s2, e2)
        implies s1 == s2 && e1 == e2 && c[0] <= s1 <= e1 <= c.last() by {
        if !(s1 == s && e1 == e) {
            assert(chunk_table::entry_for(r, s1, e1) == chunk_table::entry_for(t, s1, e1));
        }
        if !(s2 == s && e2 == e) {
            assert(chunk_table::entry_for(r, s2, e2) == chunk_table::entry_for(t, s2, e2));
        }
    }
}

/// The open code of the image items among the first `n` items, in item
/// order, each numbered by the count of image items before it.
pub open spec fn images_setup(items: Seq<UiItem>, n: nat) -> Seq<char>
    decreases n,
{
    if n == 0 {
        seq![]
    } else {
        images_setup(items, (n - 1) as nat) + match items[n - 1] {
            UiItem::Img(_, _, path) => img_setup(img_count(items, (n - 1) as nat), path@),
            _ => seq![],
        }
    }
}

/// Law of the draw function's set-up: it opens every image item, in item
/// order, numbered 0, 1, ...
pub proof fn lemma_draw_opens_every_image(items: Seq<UiItem>, sizes: Seq<(u32, u32)>, n: nat)
    requires
        n <= items.len(),
    ensures
        gen_state(items, sizes, n).setup == images_setup(items, n),
    decreases n,
{
    if n > 0 {
        lemma_draw_opens_every_image(items, sizes, (n - 1) as nat);
        lemma_imgs_counted(items, sizes, (n - 1) as nat);
        let prev = gen_state(items, sizes, (n - 1) as nat);
        match items[n - 1] {
            UiItem::Img(_, _, _) => {},
            _ => {
                assert(prev.setup + Seq::<char>::empty() =~= prev.setup);
            },
        }
    }
}

/// The number of images counted by the generation is the number of image
/// items seen.
pub proof fn lemma_imgs_counted(items: Seq<UiItem>, sizes: Seq<(u32, u32)>, n: nat)
    requires
        n <= items.len(),
    ensures
        gen_state(items, sizes, n).imgs == img_count(items, n),
    decreases n,
{
    if n > 0 {
        lemma_imgs_counted(items, sizes, (n - 1) as nat);
    }
}


// ---------------------------------------------------------------------
// Executable generation
// ---------------------------------------------------------------------

fn push_memset(out: &mut Vec<char>, color: u16)
    ensures
        final(out)@ == old(out)@ + memset_name(color),
{
    if is_color_same_bytes(color) {
        push_str(out, "memset");
    } else {
        push_str(out, "memset_u16");
    }
}

/// Appends the code of a `Base` item.
fn push_base_code(out: &mut Vec<char>, color: u16)
    ensures
        final(out)@ == old(out)@ + base_code(color),
{
    push_str(out, "for (int o=0; o<40;o++) {\n");
    push_memset(out, color);
    push_str(out, "(&disp_buf[o*480*2],0x");
    push_hex4(out, color);
    push_str(out, ",480*2);\n");
    push_str(out, "}\n");
    assert(final(out)@ =~= old(out)@ + base_code(color));
}

/// The code of a rectangle for band `chunk_index`.
fn gen_code_for_chunk(chunk_index: usize, x: u16, y: u16, w: u16, h: u16, color: u16) -> (code: Vec<char>)
    requires
        chunk_index < 8,
        40 * chunk_index <= y + h <= u16::MAX,
    ensures
        code@ == rect_code(chunk_index as nat, x, y, w, h, color),
{
    let mut new: Vec<char> = Vec::new();
    let last: u16 = y + h - (chunk_index as u16) * 40;
    let is_last = last < 40;
    if is_last {
        push_str(&mut new, "if (o<");
        push_dec(&mut new, last as u64);
        push_str(&mut new, ") {\n");
    }
    let ghost before_fill = new@;
    push_memset(&mut new, color);
    push_str(&mut new, "(&disp_buf[o*480*2+");
    push_dec(&mut new, x as u64);
    push_str(&mut new, "*2],0x");
    push_hex4(&mut new, color);
    push_str(&mut new, ",");
    push_dec(&mut new, w as u64);
    push_str(&mut new, "*2);\n");
    let ghost fill = memset_name(color) + "(&disp_buf[o*480*2+"@ + text::dec(x as nat) + "*2],0x"@
        + text::hex4(color) + ","@ + text::dec(w as nat) + "*2);\n"@;
    assert(new@ =~= before_fill + fill);
    if is_last {
        push_str(&mut new, "for (int o=0; o<");
        push_dec(&mut new, last as u64);
        push_str(&mut new, ";o++) {\n");
        push_str(&mut new, "}\n");
        push_str(&mut new, "}\n");
    }
    assert(new@ =~= rect_code(chunk_index as nat, x, y, w, h, color));
    new
}

/// The code of a text item whose text is already quoted as `{:?}` quotes it.
pub fn text_code_of(x: u16, y: u16, quoted: &str, font: FontSize, color: u16) -> (code: Vec<char>)
    ensures
        code@ == text_code_quoted(x, y, quoted@, font, color),
{
    let mut new: Vec<char> = Vec::new();
    push_str(&mut new, "writeStringToBuffer(");
    push_dec(&mut new, x as u64);
    push_str(&mut new, ", ");
    push_dec(&mut new, y as u64);
    push_str(&mut new, "-o*HOR_LEN, ");
    push_str(&mut new, quoted);
    push_str(&mut new, ", ");
    font.push_name(&mut new);
    push_str(&mut new, ", 0x");
    push_hex4(&mut new, color);
    push_str(&mut new, ", disp_buf, 480, HOR_LEN);\n");
    assert(new@ =~= text_code_quoted(x, y, quoted@, font, color));
    new
}

/// The code of a text item.
fn text_item_code(x: u16, y: u16, t: &String, font: FontSize, color: u16) -> (code: Vec<char>)
    ensures
        code@ == text_code(x, y, t@, font, color),
{
    let quoted = text::debug_quoted(t.as_str());
    text_code_of(x, y, quoted.as_str(), font, color)
}

/// The set-up code of the image item numbered `index` whose path is already
/// quoted as `{:?}` quotes it.
pub fn img_setup_code_of(index: usize, quoted: &str) -> (code: Vec<char>)
    ensures
        code@ == img_setup_quoted(index as nat, quoted@),
{
    let mut new: Vec<char> = Vec::new();
    push_str(&mut new, "\nFIL img");
    push_dec(&mut new, index as u64);
    push_str(&mut new, ";\nFRESULT res = f_open(&img");
    push_dec(&mut new, index as u64);
    push_str(&mut new, ", ");
    push_str(&mut new, quoted);
    push_str(&mut new, ", FA_READ);\nif (res != FR_OK) {\nprint(\"f_open failed with code: %d\r\n\", res);\nreturn;\n}");
    assert(new@ =~= img_setup_quoted(index as nat, quoted@));
    new
}

/// The set-up code of the image item numbered `index`.
fn img_setup_code(index: usize, path: &String) -> (code: Vec<char>)
    ensures
        code@ == img_setup(index as nat, path@),
{
    let quoted = text::debug_quoted(path.as_str());
    img_setup_code_of(index, quoted.as_str())
}

/// The per-row code of the image item numbered `index`.
fn img_row_code(x: u16, y: u16, index: usize, width: u32) -> (code: Vec<char>)
    ensures
        code@ == img_code(x, y, index as nat, width),
{
    let mut new: Vec<char> = Vec::new();
    push_str(&mut new, "int currentY = i*HOR_LEN+O;\n                    if (currentY >= ");
    push_dec(&mut new, y as u64);
    push_str(&mut new, ") {\n                        res = f_lseek(&img");
    push_dec(&mut new, index as u64);
    push_str(&mut new, ", (currentY-");
    push_dec(&mut new, y as u64);
    push_str(&mut new, ")*width*2);\n                        if (res != FR_OK) {\n                            print(\"f_seek failed with code: %d\r\n\", res);\n                        }\n                        res = f_read(&img");
    push_dec(&mut new, index as u64);
    push_str(&mut new, ",\n                                    &disp_buf[(currentY-");
    push_dec(&mut new, y as u64);
    push_str(&mut new, ")*480*2+");
    push_dec(&mut new, x as u64);
    push_str(&mut new, "*2],\n                                    ");
    push_dec(&mut new, width as u64);
    push_str(&mut new, "*2, 0);\n                        if (res != FR_OK) {\n                            print(\"f_read failed with code: %d\r\n\", res);\n                        }\n                    }");
    assert(new@ =~= img_code(x, y, index as nat, width));
    new
}


fn chars_eq(a: &Vec<char>, b: &Vec<char>) -> (r: bool)
    ensures
        r == (a@ == b@),
{
    if a.len() != b.len() {
        return false;
    }
    let n = a.len();
    let mut i: usize = 0;
    while i < n
        invariant
            n == a@.len() == b@.len(),
            i <= n,
            forall|k: int| 0 <= k < i ==> a@[k] == b@[k],
        decreases n - i,
    {
        if a[i] != b[i] {
            return false;
        }
        i = i + 1;
    }
    assert(a@ =~= b@);
    true
}

/// Performs the step of the generation for `item`.
fn apply_item(
    base: &mut Vec<char>,
    setup: &mut Vec<char>,
    imgs: &mut usize,
    multi_chunk_code: &mut HashMap<u32, ChunkEntry>,
    Ghost(t): Ghost<Seq<ChunkCode>>,
    item: &UiItem,
    sizes: &Vec<(u32, u32)>,
)
    requires
        step_ok(*item, *old(imgs) as nat, sizes@),
        chunk_table::holds_table(old(multi_chunk_code)@, t),
    ensures
        ({
            let st = gen_step(
                GenState { base: old(base)@, setup: old(setup)@, imgs: *old(imgs) as nat, table: t },
                *item,
                sizes@,
            );
            &&& final(base)@ == st.base
            &&& final(setup)@ == st.setup
            &&& *final(imgs) as nat == st.imgs
            &&& chunk_table::holds_table(final(multi_chunk_code)@, st.table)
        }),
{
    match item {
        UiItem::Base(color) => {
            push_base_code(base, *color);
        },
        UiItem::Rect(x, y, w, h, color) => {
            let c = get_chunks_of_rect(*y, *h);
            proof {
                chunks::lemma_chunks_below(8, *y, *h, false);
            }
            let s = c[0];
            let e = c[c.len() - 1];
            assert(c@.len() > 1 ==> c@[0] < c@[c@.len() - 1]);
            let first_code = gen_code_for_chunk(s, *x, *y, *w, *h, *color);
            let last_code = gen_code_for_chunk(e, *x, *y, *w, *h, *color);
            if !chars_eq(&first_code, &last_code) {
                let ghost t1 = chunk_table::table_insert(t, e as u16, e as u16, last_code@, true);
                insert_chunk_code(multi_chunk_code, Ghost(t), e as u16, e as u16, last_code, true);
                insert_chunk_code(multi_chunk_code, Ghost(t1), s as u16, (e - 1) as u16, first_code, true);
            } else {
                insert_chunk_code(multi_chunk_code, Ghost(t), s as u16, e as u16, first_code, true);
            }
        },
        UiItem::Text(x, y, text, font, color) => {
            let size = font.get_size();
            let c = get_chunks_of_text(*y, size.1);
            proof {
                chunks::lemma_chunks_below(8, *y, size.1, true);
            }
            let s = c[0];
            let e = c[c.len() - 1];
            let code = text_item_code(*x, *y, text, *font, *color);
            insert_chunk_code(multi_chunk_code, Ghost(t), s as u16, e as u16, code, false);
        },
        UiItem::Img(x, y, path) => {
            let index = *imgs;
            assert(index < sizes.len());
            let (width, height) = sizes[index];
            let mut code = img_setup_code(index, path);
            setup.append(&mut code);
            *imgs = index + 1;
            let rows = (height % 65536) as u16;
            let c = get_chunks_of_rect(*y, rows);
            proof {
                chunks::lemma_chunks_below(8, *y, rows, false);
            }
            let s = c[0];
            let e = c[c.len() - 1];
            let text = img_row_code(*x, *y, index, width);
            insert_chunk_code(multi_chunk_code, Ghost(t), s as u16, e as u16, text, true);
        },
        UiItem::ImgEx(..) => {},
    }
}

impl Canvas {
    /// The C code that draws the canvas, `sizes[k]` being the width and
    /// height of the image of the image item numbered `k`. The blocks of the
    /// band ranges come in the order in which the hash map of ranges hands
    /// them out.
    pub fn generate_code(&self, sizes: &Vec<(u32, u32)>) -> (code: String)
        requires
            gen_ok(self.data.items@, sizes@),
        ensures
            is_drawing_code(self.name@, self.data.items@, sizes@, code@),
    {
        let items = &self.data.items;
        let mut base: Vec<char> = Vec::new();
        let mut setup: Vec<char> = Vec::new();
        let mut imgs: usize = 0;
        let mut multi_chunk_code: HashMap<u32, ChunkEntry> = HashMap::new();
        let n = items.len();
        let mut i: usize = 0;
        proof {
            broadcast use vstd::std_specs::hash::group_hash_axioms;
            assert(chunk_table::holds_table(multi_chunk_code@, Seq::<ChunkCode>::empty()));
        }
        while i < n
            invariant
                n == items@.len(),
                items@ == self.data.items@,
                i <= n,
                gen_ok(items@, sizes@),
                ({
                    let st = gen_state(items@, sizes@, i as nat);
                    &&& base@ == st.base
                    &&& setup@ == st.setup
                    &&& imgs as nat == st.imgs
                    &&& chunk_table::holds_table(multi_chunk_code@, st.table)
                }),
            decreases n - i,
        {
            proof {
                lemma_imgs_counted(items@, sizes@, i as nat);
                assert(gen_ok(items@, sizes@));
                let ii: int = i as int;
                assert(0 <= ii < items@.len());
                assert(step_ok(items@[ii], img_count(items@, ii as nat), sizes@));
            }
            let ghost t = gen_state(items@, sizes@, i as nat).table;
            apply_item(&mut base, &mut setup, &mut imgs, &mut multi_chunk_code, Ghost(t), &items[i], sizes);
            i = i + 1;
        }
        let ghost st = gen_state(items@, sizes@, n as nat);
        let mut new: Vec<char> = Vec::new();
        push_str(&mut new, "void ");
        push_str(&mut new, self.name.as_str());
        push_str(&mut new, "DrawCallback(int i) {\n");
        push_chars(&mut new, &base);
        let ghost before_blocks = new@;
        push_blocks(&mut new, &multi_chunk_code, Ghost(st.table));
        let ghost order = choose|order: Seq<ChunkCode>| chunk_table::is_reordering(order, st.table)
            && new@ == before_blocks + chunk_table::blocks_code(order);
        push_str(&mut new, "}\n");
        push_str(&mut new, "\nvoid ");
        push_str(&mut new, self.name.as_str());
        push_str(&mut new, "Draw() {\n  ");
        push_chars(&mut new, &setup);
        push_str(&mut new, "\n  for (int i = 0; i < 320/HOR_LEN; i++) {\n    ");
        push_str(&mut new, self.name.as_str());
        push_str(&mut new, "DrawCallback(i);\n  }\n}\n");
        assert(new@ =~= code_with_order(self.name@, self.data.items@, sizes@, order));
        text::string_of(&new)
    }

    /// Whether the generation gets through every item with these image
    /// sizes; where it does not, the generation has no result.
    pub fn can_generate(&self, sizes: &Vec<(u32, u32)>) -> (ok: bool)
        ensures
            ok == gen_ok(self.data.items@, sizes@),
    {
        let items = &self.data.items;
        let n = items.len();
        let mut imgs: usize = 0;
        let mut i: usize = 0;
        while i < n
            invariant
                n == items@.len(),
                i <= n,
                items@ == self.data.items@,
                imgs as nat == img_count(items@, i as nat),
                imgs <= i,
                forall|k: int| 0 <= k < i ==> #[trigger] step_ok(items@[k], img_count(items@, k as nat), sizes@),
            decreases n - i,
        {
            let good = match &items[i] {
                UiItem::Rect(_, y, _, h, _) => {
                    if (*y as u32) + (*h as u32) > 65535 {
                        false
                    } else {
                        get_chunks_of_rect(*y, *h).len() > 0
                    }
                },
                UiItem::Text(_, y, _, font, _) => get_chunks_of_text(*y, font.get_size().1).len() > 0,
                UiItem::Img(_, y, _) => {
                    if imgs >= sizes.len() {
                        false
                    } else {
                        let rows = (sizes[imgs].1 % 65536) as u16;
                        if (*y as u32) + (rows as u32) > 65535 {
                            false
                        } else {
                            get_chunks_of_rect(*y, rows).len() > 0
                        }
                    }
                },
                _ => true,
            };
            if !good {
                let ghost ii: int = i as int;
                assert(!step_ok(items@[ii], img_count(items@, ii as nat), sizes@));
                return false;
            }
            if let UiItem::Img(..) = &items[i] {
                imgs = imgs + 1;
            }
            i = i + 1;
        }
        true
    }
}

} // verus!
