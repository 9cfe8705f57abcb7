//! The plain parts of an element's style.

use vstd::prelude::*;

verus! {

/// A colour, written as `#` and hexadecimal digits.
pub type HexColour = String;

/// What an element is filled with.
#[derive(Debug)]
pub enum Background {
    Fill(String),
    PixMap(Vec<u8>),
    B64PixMap(String),
    File(String),
    Url(String),
}

impl Default for Background {
    /// A fill in black.
    fn default() -> (b: Background)
        ensures
            b is Fill,
            b->Fill_0@ == "#000000"@,
    {
        Background::Fill("#000000".to_owned())
    }
}

/// The colours of the four borders of an element.
#[derive(Debug)]
pub struct BorderColours {
    pub top: String,
    pub bottom: String,
    pub left: String,
    pub right: String,
}

impl Default for BorderColours {
    /// No colour on any border.
    fn default() -> (b: BorderColours)
        ensures
            b.top@.len() == 0,
            b.bottom@.len() == 0,
            b.left@.len() == 0,
            b.right@.len() == 0,
    {
        BorderColours { top: String::new(), bottom: String::new(), left: String::new(), right: String::new() }
    }
}

} // verus!
