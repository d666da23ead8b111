//! What a display list is made of: font styles, colours, measures and
//! positioned words, and the fixed dimensions of a page.
//!
//! Every length is a whole number of pixels. A position that would lie
//! beyond the largest number stays at the largest number: additions of
//! lengths saturate, so that no page is too long to be laid out.

use vstd::prelude::*;

verus! {

/// The size of the font, in which every word is measured.
pub const FONT_SIZE: u32 = 16;

/// Distance of the text from the left edge of the window.
pub const LEFT_MARGIN: u64 = 13;

/// Distance that the text keeps from the right edge of the window.
pub const RIGHT_MARGIN: u64 = 13;

/// Distance of the first line from the top of the page.
pub const TOP_MARGIN: u64 = 13;

/// Extra distance between two paragraphs.
pub const PARAGRAPH_GAP: u64 = 16;

/// Line spacing as a fraction: a line takes 6/5 of the height of its text.
pub const LINE_SPACING_NUMERATOR: u64 = 6;

pub const LINE_SPACING_DENOMINATOR: u64 = 5;

/// One of the four faces of the text font.
#[derive(Clone, Copy, Debug, PartialEq, Eq)]
pub enum FontStyle {
    Regular,
    Bold,
    Italic,
    BoldItalic,
}

/// The colour of a word.
#[derive(Clone, Copy, Debug, PartialEq, Eq)]
pub enum Color {
    /// The colour of running text.
    Text,
    /// The colour of a link.
    Link,
}

/// The rendered size of a string, in the same unit as all positions.
#[derive(Clone, Copy, Debug, PartialEq, Eq)]
pub struct Measure {
    pub width: u32,
    pub height: u32,
}

/// A word at its place on the page. The origin is the top left corner of
/// the page; `y` grows downwards.
#[derive(Clone, Debug, PartialEq, Eq)]
pub struct DisplayListItem {
    pub x: u64,
    pub y: u64,
    pub text: String,
    pub font_style: FontStyle,
    pub color: Color,
    pub underline: bool,
}

/// A display list item as plain values.
pub struct ItemModel {
    pub x: u64,
    pub y: u64,
    pub text: Seq<char>,
    pub font_style: FontStyle,
    pub color: Color,
    pub underline: bool,
}

impl View for DisplayListItem {
    type V = ItemModel;

    open spec fn view(&self) -> ItemModel {
        ItemModel {
            x: self.x,
            y: self.y,
            text: self.text@,
            font_style: self.font_style,
            color: self.color,
            underline: self.underline,
        }
    }
}

/// The views of a display list.
pub open spec fn item_models(items: Seq<DisplayListItem>) -> Seq<ItemModel> {
    items.map_values(|item: DisplayListItem| item@)
}

/// The face for a combination of bold and italic.
pub open spec fn font_style_of(bold: bool, italic: bool) -> FontStyle {
    if bold {
        if italic {
            FontStyle::BoldItalic
        } else {
            FontStyle::Bold
        }
    } else {
        if italic {
            FontStyle::Italic
        } else {
            FontStyle::Regular
        }
    }
}

/// Executable form of [`font_style_of`].
pub fn font_style(bold: bool, italic: bool) -> (style: FontStyle)
    ensures
        style == font_style_of(bold, italic),
{
    if bold {
        if italic {
            FontStyle::BoldItalic
        } else {
            FontStyle::Bold
        }
    } else {
        if italic {
            FontStyle::Italic
        } else {
            FontStyle::Regular
        }
    }
}

/// Addition of lengths that stops at the largest length there is.
pub open spec fn sat_add(a: u64, b: u64) -> u64 {
    if a + b > u64::MAX {
        u64::MAX
    } else {
        (a + b) as u64
    }
}

/// The height of a line of text of height `height`: the text and its
/// share of line spacing, rounded down.
pub open spec fn line_height(height: u32) -> u64 {
    (height as int * LINE_SPACING_NUMERATOR as int / LINE_SPACING_DENOMINATOR as int) as u64
}

/// Executable form of [`line_height`].
pub fn spaced(height: u32) -> (h: u64)
    ensures
        h == line_height(height),
        h <= 2 * height,
{
    let h: u64 = height as u64;
    h * LINE_SPACING_NUMERATOR / LINE_SPACING_DENOMINATOR
}

} // verus!
