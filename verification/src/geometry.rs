use vstd::prelude::*;

use crate::text::{decimal, push_decimal, push_str};

use crate::limits::Limits;

verus! {

/// A glyph geometry: pixel width and height. Validity (nonzero, within limits) is a
/// checked property, see [`GlyphSize::validate`].
#[derive(Debug, Clone, Copy, PartialEq, Eq, Structural)]
pub struct GlyphSize {
    pub width: u16,
    pub height: u16,
}

/// Bytes in one packed row of a `width`-pixel bitmap: `ceil(width / 8)`.
pub open spec fn row_bytes(width: nat) -> nat {
    (width + 7) as nat / 8
}

/// Why a [`GlyphSize`] is invalid, naming the offending dimension and limit.
#[derive(Debug, Clone, Copy, PartialEq, Eq, Structural)]
pub enum GlyphSizeError {
    ZeroWidth,
    ZeroHeight,
    WidthTooLarge { width: u16, max: u16 },
    HeightTooLarge { height: u16, max: u16 },
}

/// The first failing geometry check, in the order width-zero, height-zero,
/// width-bound, height-bound.
pub open spec fn glyph_size_check(size: GlyphSize, limits: Limits) -> Result<(), GlyphSizeError> {
    if size.width == 0 {
        Err(GlyphSizeError::ZeroWidth)
    } else if size.height == 0 {
        Err(GlyphSizeError::ZeroHeight)
    } else if size.width > limits.max_glyph_width {
        Err(GlyphSizeError::WidthTooLarge { width: size.width, max: limits.max_glyph_width })
    } else if size.height > limits.max_glyph_height {
        Err(GlyphSizeError::HeightTooLarge { height: size.height, max: limits.max_glyph_height })
    } else {
        Ok(())
    }
}

impl GlyphSize {
    pub fn new(width: u16, height: u16) -> (size: Self)
        ensures
            size.width == width,
            size.height == height,
    {
        GlyphSize { width, height }
    }

    /// Number of bytes one packed bitmap row occupies: `ceil(width / 8)`.
    pub fn bytes_per_row(&self) -> (n: usize)
        ensures
            n == row_bytes(self.width as nat),
    {
        (self.width as usize + 7) / 8
    }

    /// Total pixel count `width * height`, widened so it cannot overflow.
    pub fn pixel_count(&self) -> (n: u64)
        ensures
            n == self.width * self.height,
    {
        assert(self.width * self.height <= 65535 * 65535) by (nonlinear_arith)
            requires
                self.width <= 65535,
                self.height <= 65535,
        ;
        self.width as u64 * self.height as u64
    }

    /// Checks the nonzero and bounded invariants, naming the offending dimension.
    pub fn validate(&self, limits: &Limits) -> (r: Result<(), GlyphSizeError>)
        ensures
            r == glyph_size_check(*self, *limits),
    {
        if self.width == 0 {
            return Err(GlyphSizeError::ZeroWidth);
        }
        if self.height == 0 {
            return Err(GlyphSizeError::ZeroHeight);
        }
        if self.width > limits.max_glyph_width {
            return Err(GlyphSizeError::WidthTooLarge { width: self.width, max: limits.max_glyph_width });
        }
        if self.height > limits.max_glyph_height {
            return Err(
                GlyphSizeError::HeightTooLarge { height: self.height, max: limits.max_glyph_height },
            );
        }
        Ok(())
    }
}

/// The axis of a guide, and the mirror line of a flip: `Horizontal` mirrors
/// top/bottom (row `y` to `height-1-y`), `Vertical` mirrors left/right.
#[derive(Debug, Clone, Copy, PartialEq, Eq, Structural)]
pub enum GuideAxis {
    Horizontal,
    Vertical,
}


/// A size as text, `width×height`.
pub open spec fn size_text(size: GlyphSize) -> Seq<char> {
    decimal(size.width as nat) + "×"@ + decimal(size.height as nat)
}

impl GlyphSize {
    /// This size as text, `width×height`.
    pub fn describe(&self) -> (t: String)
        ensures
            t@ == size_text(*self),
    {
        let mut t = String::new();
        push_decimal(&mut t, self.width as u64);
        push_str(&mut t, "×");
        push_decimal(&mut t, self.height as u64);
        t
    }
}

/// The explanation of a geometry error.
pub open spec fn size_error_text(e: GlyphSizeError) -> Seq<char> {
    match e {
        GlyphSizeError::ZeroWidth => "glyph width must be nonzero"@,
        GlyphSizeError::ZeroHeight => "glyph height must be nonzero"@,
        GlyphSizeError::WidthTooLarge { width, max } => "glyph width "@ + decimal(width as nat)
            + " exceeds the maximum of "@ + decimal(max as nat),
        GlyphSizeError::HeightTooLarge { height, max } => "glyph height "@ + decimal(height as nat)
            + " exceeds the maximum of "@ + decimal(max as nat),
    }
}

impl GlyphSizeError {
    /// Appends the explanation of this error to `t`.
    pub fn write_message(&self, t: &mut String)
        ensures
            final(t)@ == old(t)@ + size_error_text(*self),
    {
        match self {
            GlyphSizeError::ZeroWidth => push_str(t, "glyph width must be nonzero"),
            GlyphSizeError::ZeroHeight => push_str(t, "glyph height must be nonzero"),
            GlyphSizeError::WidthTooLarge { width, max } => {
                push_str(t, "glyph width ");
                push_decimal(t, *width as u64);
                push_str(t, " exceeds the maximum of ");
                push_decimal(t, *max as u64);
            },
            GlyphSizeError::HeightTooLarge { height, max } => {
                push_str(t, "glyph height ");
                push_decimal(t, *height as u64);
                push_str(t, " exceeds the maximum of ");
                push_decimal(t, *max as u64);
            },
        }
    }

    /// The explanation of this error.
    pub fn message(&self) -> (t: String)
        ensures
            t@ == size_error_text(*self),
    {
        let mut t = String::new();
        self.write_message(&mut t);
        t
    }
}
} // verus!
