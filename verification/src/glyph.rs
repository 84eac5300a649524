//! A glyph: what one cell of a panel shows.

use vstd::prelude::*;
use crate::color::{ONE, ZERO, channels_in_range, color_in_range, is_one, is_zero};
use crate::error::{OozeError, OozeResult};
use crate::geometry::Point;

verus! {

/// A glyph (letter, symbol, tile, etc.) on the screen that contains a
/// location in the space of its panel, foreground and background colors
/// as the patterns of their four channels, and an id to access a sprite.
#[derive(Clone, Debug, PartialEq)]
pub struct Glyph {
    pub location: Point,
    pub fg_color: [u32; 4],
    pub bg_color: [u32; 4],
    pub sprite_id: String,
}

/// What a glyph holds, with the text of its id.
pub struct GlyphModel {
    pub location: Point,
    pub fg_color: [u32; 4],
    pub bg_color: [u32; 4],
    pub sprite_id: Seq<char>,
}

impl GlyphModel {
    /// The background is opaque: its alpha is exactly `1.0`.
    pub open spec fn is_opaque(self) -> bool {
        is_one(self.bg_color[3])
    }

    /// Both colours have an alpha of exactly `0.0`.
    pub open spec fn fully_transparent(self) -> bool {
        is_zero(self.bg_color[3]) && is_zero(self.fg_color[3])
    }

    /// Every channel of both colours lies in [0.0, 1.0].
    pub open spec fn valid(self) -> bool {
        channels_in_range(self.fg_color) && channels_in_range(self.bg_color)
    }

    /// The glyph of a cell that nothing was put in: fully transparent,
    /// white on black, with the id "empty".
    pub open spec fn blank(location: Point) -> GlyphModel {
        GlyphModel {
            location,
            fg_color: [ONE, ONE, ONE, ZERO],
            bg_color: [ZERO, ZERO, ZERO, ZERO],
            sprite_id: "empty"@,
        }
    }
}

impl View for Glyph {
    type V = GlyphModel;

    open spec fn view(&self) -> GlyphModel {
        GlyphModel {
            location: self.location,
            fg_color: self.fg_color,
            bg_color: self.bg_color,
            sprite_id: self.sprite_id@,
        }
    }
}

/// What the glyphs behind the references hold, one for one.
pub open spec fn glyph_models(glyphs: Seq<&Glyph>) -> Seq<GlyphModel> {
    glyphs.map_values(|glyph: &Glyph| glyph@)
}

impl Glyph {
    /// What `new` gives for the four values: the glyph that holds them, or
    /// the first colour, foreground before background, that has a channel
    /// outside of [0.0, 1.0].
    pub open spec fn checked(
        location: Point,
        fg_color: [u32; 4],
        bg_color: [u32; 4],
        sprite_id: String,
    ) -> OozeResult<Glyph> {
        if !channels_in_range(fg_color) {
            Err(OozeError::BadColorError(fg_color))
        } else if !channels_in_range(bg_color) {
            Err(OozeError::BadColorError(bg_color))
        } else {
            Ok(Glyph { location, fg_color, bg_color, sprite_id })
        }
    }

    /// Create a new Glyph. Fails where a channel of a colour lies outside
    /// of [0.0, 1.0] or is not a number.
    pub fn new(location: Point, fg_color: [u32; 4], bg_color: [u32; 4], sprite_id: String) -> (result:
        OozeResult<Glyph>)
        ensures
            result == Glyph::checked(location, fg_color, bg_color, sprite_id),
            result is Ok <==> channels_in_range(fg_color) && channels_in_range(bg_color),
            result matches Ok(glyph) ==> glyph@.valid(),
    {
        if !color_in_range(&fg_color) {
            return Err(OozeError::BadColorError(fg_color));
        }
        if !color_in_range(&bg_color) {
            return Err(OozeError::BadColorError(bg_color));
        }
        Ok(Glyph { location, fg_color, bg_color, sprite_id })
    }

    /// The glyph of a cell that nothing was put in.
    pub fn blank(location: Point) -> (glyph: Glyph)
        ensures
            glyph@ == GlyphModel::blank(location),
            glyph@.valid(),
            glyph@.fully_transparent(),
    {
        Glyph {
            location,
            fg_color: [ONE, ONE, ONE, ZERO],
            bg_color: [ZERO, ZERO, ZERO, ZERO],
            sprite_id: "empty".to_owned(),
        }
    }

    /// Check if the alpha value of the background color is 1.0.
    pub fn is_opaque(&self) -> (opaque: bool)
        ensures
            opaque == self@.is_opaque(),
    {
        self.bg_color[3] == ONE
    }

    /// Check if both foreground and background colors are fully
    /// transparent so the drawing functions can skip computing it.
    pub fn fully_transparent(&self) -> (transparent: bool)
        ensures
            transparent == self@.fully_transparent(),
    {
        let bg: u32 = self.bg_color[3];
        let fg: u32 = self.fg_color[3];
        (bg == ZERO || bg == crate::color::NEGATIVE_ZERO) && (fg == ZERO || fg
            == crate::color::NEGATIVE_ZERO)
    }
}

} // verus!
