//! The user interface description: the items of a screen and the canvas
//! that holds them.

use vstd::prelude::*;

verus! {

/// Height of a horizontal band of the screen, in pixels; the generated C
/// code draws the screen one band at a time.
pub const HOR_LEN: usize = 40;

/// Number of bands on the 320 pixel high screen.
pub const CHUNKS_AMT: usize = 320 / HOR_LEN;

/// A 16-bit colour as the display takes it.
pub type Color16 = u16;

/// The fonts of the target's text renderer.
#[allow(non_camel_case_types)]
#[derive(Clone, Copy, Debug, PartialEq, Eq, Structural)]
pub enum FontSize {
    Font_7x10,
    Font_11x18,
    Font_16x26,
}

/// Width and height of a glyph of the font `f`, as its name gives them.
pub open spec fn font_dims(f: FontSize) -> (u16, u16) {
    match f {
        FontSize::Font_7x10 => (7, 10),
        FontSize::Font_11x18 => (11, 18),
        FontSize::Font_16x26 => (16, 26),
    }
}

/// What the format `{:?}` writes for the font `f`: its name.
pub open spec fn font_name(f: FontSize) -> Seq<char> {
    match f {
        FontSize::Font_7x10 => "Font_7x10"@,
        FontSize::Font_11x18 => "Font_11x18"@,
        FontSize::Font_16x26 => "Font_16x26"@,
    }
}

impl FontSize {
    /// Width and height of a glyph, read from the font's name
    /// (`Font_<width>x<height>`).
    pub fn get_size(&self) -> (r: (u16, u16))
        ensures
            r == font_dims(*self),
    {
        match self {
            FontSize::Font_7x10 => (7, 10),
            FontSize::Font_11x18 => (11, 18),
            FontSize::Font_16x26 => (16, 26),
        }
    }

    /// Appends the font's name to `out`.
    pub fn push_name(&self, out: &mut Vec<char>)
        ensures
            final(out)@ == old(out)@ + font_name(*self),
    {
        match self {
            FontSize::Font_7x10 => crate::text::push_str(out, "Font_7x10"),
            FontSize::Font_11x18 => crate::text::push_str(out, "Font_11x18"),
            FontSize::Font_16x26 => crate::text::push_str(out, "Font_16x26"),
        }
    }
}

/// One element of a screen.
#[derive(Clone, Debug)]
pub enum UiItem {
    /// The whole screen in one colour: color
    Base(Color16),
    /// x, y, width, height, color
    Rect(u16, u16, u16, u16, Color16),
    /// x, y, text, size, font, color
    Text(u16, u16, String, FontSize, Color16),
    /// x, y, path
    Img(u16, u16, String),
    /// x, y, path, cropx, cropy, crop width, crop height
    ImgEx(u16, u16, String, u16, u16, u16, u16),
}

/// The items of a screen, in drawing order.
#[derive(Clone, Debug)]
pub struct CanvasData {
    pub items: Vec<UiItem>,
}

/// A screen under design: its items and the name that the generated C
/// functions and files carry.
pub struct Canvas {
    pub data: CanvasData,
    pub name: String,
}

impl Canvas {
    /// A canvas holding `items`.
    pub fn from_items(items: Vec<UiItem>, name: String) -> (c: Canvas)
        ensures
            c.data.items@ == items@,
            c.name@ == name@,
    {
        Self::new(CanvasData { items }, name)
    }

    /// A canvas holding `data`, named `name`.
    pub fn new(data: CanvasData, name: String) -> (c: Canvas)
        ensures
            c.data.items@ == data.items@,
            c.name@ == name@,
    {
        Canvas { data, name }
    }
}

} // verus!
