//! How the text of an element is set.

use vstd::prelude::*;

verus! {

#[derive(Clone, Copy, Debug, PartialEq, Eq, Structural)]
pub enum TextAlign {
    Left,
    Centre,
    Right,
    Justified,
}

impl Default for TextAlign {
    fn default() -> (a: TextAlign)
        ensures
            a == TextAlign::Left,
    {
        TextAlign::Left
    }
}

#[derive(Clone, Copy, Debug, PartialEq, Eq, Structural)]
pub enum TextDecoration {
    Normal,
    Underline,
    Strikethrough,
}

impl Default for TextDecoration {
    fn default() -> (d: TextDecoration)
        ensures
            d == TextDecoration::Normal,
    {
        TextDecoration::Normal
    }
}

#[derive(Clone, Copy, Debug, PartialEq, Eq, Structural)]
pub enum TextWeight {
    Normal,
    Bold,
    Light,
}

impl Default for TextWeight {
    fn default() -> (w: TextWeight)
        ensures
            w == TextWeight::Normal,
    {
        TextWeight::Normal
    }
}

#[derive(Clone, Copy, Debug, PartialEq, Eq, Structural)]
pub enum TextStyle {
    Normal,
    Italic,
    Oblique,
}

impl Default for TextStyle {
    fn default() -> (s: TextStyle)
        ensures
            s == TextStyle::Normal,
    {
        TextStyle::Normal
    }
}

} // verus!
