//! Plain enumerations and small value types shared across the toolkit.

use vstd::prelude::*;

verus! {

/// A common fraction of a whole.
#[derive(Clone, Copy, Debug, Eq, Hash, Ord, PartialEq, PartialOrd, Structural)]
pub enum Portion {
    Full,
    Half,
    OneThird,
    OneFourth,
    OneFifth,
    OneTenth,
}

/// A generic, 2-dimensional structure defining a value for the horizontal and vertical axes.
#[derive(Clone, Copy, Debug, Default, Eq, Hash, PartialEq)]
pub struct Xy<T> {
    /// The horizontal axis value.
    pub x: T,
    /// The vertical axis value.
    pub y: T,
}

impl<T> Xy<T> {
    /// A pair of axis values.
    pub fn new(x: T, y: T) -> (r: Self)
        ensures
            r.x == x,
            r.y == y,
    {
        Self { x, y }
    }
}

/// Cloning a copy-on-write string, by `<Cow as Clone>::clone`: a borrowed one is borrowed again,
/// an owned one is cloned. Nothing is stated of the result.
pub assume_specification<'a, B: ?Sized + std::borrow::ToOwned>[<std::borrow::Cow<'a, B> as Clone>::clone](
    c: &std::borrow::Cow<'a, B>,
) -> std::borrow::Cow<'a, B>;

/// The text to draw: owned, borrowed, or either.
#[derive(Clone, Debug)]
pub enum TextContent<'a> {
    Owned(String),
    Borrowed(&'a str),
    Cow(std::borrow::Cow<'a, str>),
}

impl<'a> TextContent<'a> {
    /// The characters of the text.
    pub open spec fn text(&self) -> Seq<char> {
        match self {
            TextContent::Owned(s) => s@,
            TextContent::Borrowed(s) => s@,
            TextContent::Cow(c) => c@,
        }
    }

    /// The text as a string slice.
    pub fn as_str(&self) -> (r: &str)
        ensures
            r@ == self.text(),
    {
        match self {
            TextContent::Owned(s) => s.as_str(),
            TextContent::Borrowed(s) => s,
            TextContent::Cow(c) => match c {
                std::borrow::Cow::Borrowed(b) => b,
                std::borrow::Cow::Owned(o) => o.as_str(),
            },
        }
    }
}

impl<'a> From<std::borrow::Cow<'a, str>> for TextContent<'a> {
    fn from(value: std::borrow::Cow<'a, str>) -> (r: Self) {
        Self::Cow(value)
    }
}

impl<'a> vstd::std_specs::convert::FromSpecImpl<std::borrow::Cow<'a, str>> for TextContent<'a> {
    open spec fn obeys_from_spec() -> bool {
        true
    }

    open spec fn from_spec(v: std::borrow::Cow<'a, str>) -> TextContent<'a> {
        TextContent::Cow(v)
    }
}

impl<'a> From<&'a str> for TextContent<'a> {
    fn from(value: &'a str) -> (r: Self) {
        Self::Borrowed(value)
    }
}

impl<'a> vstd::std_specs::convert::FromSpecImpl<&'a str> for TextContent<'a> {
    open spec fn obeys_from_spec() -> bool {
        true
    }

    open spec fn from_spec(v: &'a str) -> TextContent<'a> {
        TextContent::Borrowed(v)
    }
}

impl<'a> From<String> for TextContent<'a> {
    fn from(value: String) -> (r: Self) {
        Self::Owned(value)
    }
}

impl<'a> vstd::std_specs::convert::FromSpecImpl<String> for TextContent<'a> {
    open spec fn obeys_from_spec() -> bool {
        true
    }

    open spec fn from_spec(v: String) -> TextContent<'a> {
        TextContent::Owned(v)
    }
}

impl<'a> core::ops::Deref for TextContent<'a> {
    type Target = str;

    fn deref(&self) -> (r: &str)
        ensures
            r@ == self.text(),
    {
        self.as_str()
    }
}

/// The family of a font.
#[derive(Clone, Copy, Debug, Eq, Hash, PartialEq)]
pub enum FontFamily<'a> {
    Named(&'a str),
    Serif,
    SansSerif,
    Monospace,
    Cursive,
    Fantasy,
}

/// The slant of a font.
#[derive(Clone, Copy, Debug, Eq, Hash, PartialEq, Structural)]
pub enum TextSlant {
    Normal,
    Italic,
    Oblique,
}

/// The width of a font.
#[derive(Clone, Copy, Debug)]
pub enum TextStretch {
    UltraCondensed,
    ExtraCondensed,
    Condensed,
    SemiCondensed,
    Normal,
    SemiExpanded,
    Expanded,
    ExtraExpanded,
    UltraExpanded,
}

/// The weight (thickness) of a font's lines, from 100 (thin) to 900 (black).
#[derive(Clone, Copy, Debug)]
pub struct LineWeight(pub u16);

impl LineWeight {
    /// Thin line weight (100), the thinnest value.
    pub const THIN: u16 = 100;
    /// Extra light line weight (200).
    pub const EXTRA_LIGHT: u16 = 200;
    /// Light line weight (300).
    pub const LIGHT: u16 = 300;
    /// Normal line weight (400).
    pub const NORMAL: u16 = 400;
    /// Medium line weight (500, higher than normal).
    pub const MEDIUM: u16 = 500;
    /// Semi-bold line weight (600).
    pub const SEMIBOLD: u16 = 600;
    /// Bold line weight (700).
    pub const BOLD: u16 = 700;
    /// Extra-bold line weight (800).
    pub const EXTRA_BOLD: u16 = 800;
    /// Black line weight (900), the thickest value.
    pub const BLACK: u16 = 900;
}

/// Image filtering strategy.
#[derive(Clone, Copy, Debug, Default, Eq, Hash, PartialEq, Structural)]
pub enum ImageFilterMethod {
    /// Bilinear interpolation.
    #[default]
    Linear,
    /// Nearest neighbor.
    Nearest,
}

/// How an element is laid out.
#[derive(Clone, Copy, Debug, Default)]
pub enum DisplayStyle {
    Block,
    Flex,
    Grid,
    /// Not displayed at all.
    #[default]
    Hidden,
}

/// How an element or its items align on an axis.
#[derive(Clone, Copy, Debug)]
pub enum AlignStyle {
    Start,
    End,
    FlexStart,
    FlexEnd,
    Center,
    Baseline,
    Stretch,
}

/// How the content of an element is distributed on an axis.
#[derive(Clone, Copy, Debug)]
pub enum PositioningStyle {
    Start,
    End,
    FlexStart,
    FlexEnd,
    Center,
    Stretch,
    SpaceBetween,
    SpaceEvenly,
    SpaceAround,
}

/// How text lines align.
#[derive(Clone, Copy, Debug, Default)]
pub enum TextAlign {
    #[default]
    Left,
    Right,
    Center,
    Justify,
}

/// A paragraph element marker.
pub struct Paragraph {}

} // verus!
