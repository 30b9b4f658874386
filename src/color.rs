use vstd::prelude::*;

verus! {

/// An RGB colour with 8-bit channels.
#[derive(Clone, Copy, Debug, PartialEq, Eq, Structural)]
pub struct Color {
    pub r: u8,
    pub g: u8,
    pub b: u8,
}

impl Color {
    /// The background colour that uncovered pixels keep.
    pub open spec fn background() -> Color {
        Color { r: 0, g: 0, b: 0 }
    }

    pub fn new(r: u8, g: u8, b: u8) -> (c: Color)
        ensures
            c == (Color { r, g, b }),
    {
        Color { r, g, b }
    }

    /// The channels in the order in which the output pixel format stores
    /// them: red, then green, then blue.
    pub open spec fn channels_spec(self) -> Seq<u8> {
        seq![self.r, self.g, self.b]
    }

    /// Converts to the output pixel format.
    pub fn channels(&self) -> (ch: [u8; 3])
        ensures
            ch@ == self.channels_spec(),
    {
        [self.r, self.g, self.b]
    }

    /// Reads a colour back from the output pixel format.
    pub fn from_channels(ch: [u8; 3]) -> (c: Color)
        ensures
            c == (Color { r: ch@[0], g: ch@[1], b: ch@[2] }),
            c.channels_spec() == ch@,
    {
        let c = Color { r: ch[0], g: ch[1], b: ch[2] };
        assert(c.channels_spec() =~= ch@);
        c
    }
}

impl Default for Color {
    fn default() -> (c: Color)
        ensures
            c == Color::background(),
    {
        Color { r: 0, g: 0, b: 0 }
    }
}

} // verus!
