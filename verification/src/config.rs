//! What a run is made with: how many points, how large a picture, which colours.

use vstd::prelude::*;

verus! {

/// Number of partial sums in a standard run.
pub const POINTS: u32 = 10000;

/// Width of the standard picture, in pixels.
pub const WIDTH: u32 = 900;

/// Height of the standard picture, in pixels.
pub const HEIGHT: u32 = 900;

/// Width of the line, in pixels.
pub const STROKE_WIDTH: u32 = 1;

/// The largest width or height that a picture may have.
///
/// The drawing backend computes with 32-bit coordinates; below this limit
/// none of its intermediate values leaves that range.
pub const MAX_DIMENSION: u32 = 16384;

/// A colour as red, green and blue.
#[derive(Clone, Copy, Debug, PartialEq, Eq, Structural)]
pub struct Rgb {
    pub red: u8,
    pub green: u8,
    pub blue: u8,
}

impl Rgb {
    /// The background of the standard picture.
    pub open spec fn spec_black() -> Rgb {
        Rgb { red: 0, green: 0, blue: 0 }
    }

    /// The line colour of the standard picture, `#FFD700`.
    pub open spec fn spec_gold() -> Rgb {
        Rgb { red: 255, green: 215, blue: 0 }
    }

    /// Black.
    #[verifier::when_used_as_spec(spec_black)]
    pub fn black() -> (c: Rgb)
        ensures
            c == Rgb::spec_black(),
    {
        Rgb { red: 0, green: 0, blue: 0 }
    }

    /// Gold.
    #[verifier::when_used_as_spec(spec_gold)]
    pub fn gold() -> (c: Rgb)
        ensures
            c == Rgb::spec_gold(),
    {
        Rgb { red: 255, green: 215, blue: 0 }
    }

    /// The channel at `index`: red, green and blue are 0, 1 and 2.
    pub open spec fn channel(self, index: int) -> u8 {
        if index == 0 {
            self.red
        } else if index == 1 {
            self.green
        } else {
            self.blue
        }
    }
}

/// The settings of a run, as plain numbers.
pub struct ConfigView {
    pub points: nat,
    pub width: nat,
    pub height: nat,
    pub foreground: Rgb,
    pub background: Rgb,
}

/// Whether a picture may be `width` by `height` pixels large.
pub open spec fn is_picture_size(width: int, height: int) -> bool {
    1 <= width <= MAX_DIMENSION && 1 <= height <= MAX_DIMENSION
}

/// The settings of a run. A value of this type always has a picture size
/// that the renderer can work with.
#[derive(Clone, Copy, Debug)]
pub struct Config {
    points: u32,
    width: u32,
    height: u32,
    foreground: Rgb,
    background: Rgb,
}

impl View for Config {
    type V = ConfigView;

    closed spec fn view(&self) -> ConfigView {
        ConfigView {
            points: self.points as nat,
            width: self.width as nat,
            height: self.height as nat,
            foreground: self.foreground,
            background: self.background,
        }
    }
}

impl Config {
    #[verifier::type_invariant]
    spec fn sized(self) -> bool {
        is_picture_size(self.width as int, self.height as int)
    }

    /// The settings of a standard run.
    pub open spec fn spec_standard() -> ConfigView {
        ConfigView {
            points: POINTS as nat,
            width: WIDTH as nat,
            height: HEIGHT as nat,
            foreground: Rgb::spec_gold(),
            background: Rgb::spec_black(),
        }
    }

    /// The standard settings: 10000 points, a picture of 900 by 900 pixels,
    /// a gold line on black.
    pub fn standard() -> (c: Config)
        ensures
            c@ == Config::spec_standard(),
    {
        Config {
            points: POINTS,
            width: WIDTH,
            height: HEIGHT,
            foreground: Rgb::gold(),
            background: Rgb::black(),
        }
    }

    /// Settings of one's own choice. They are refused where the picture would
    /// be empty or larger than [`MAX_DIMENSION`] in either direction.
    pub fn new(points: u32, width: u32, height: u32, foreground: Rgb, background: Rgb) -> (r:
        Option<Config>)
        ensures
            r is Some <==> is_picture_size(width as int, height as int),
            r matches Some(c) ==> c@ == (ConfigView {
                points: points as nat,
                width: width as nat,
                height: height as nat,
                foreground,
                background,
            }),
    {
        if 1 <= width && width <= MAX_DIMENSION && 1 <= height && height <= MAX_DIMENSION {
            Some(Config { points, width, height, foreground, background })
        } else {
            None
        }
    }

    /// How many partial sums a run produces.
    pub fn points(&self) -> (r: u32)
        ensures
            r == self@.points,
    {
        self.points
    }

    /// Width of the picture in pixels.
    pub fn width(&self) -> (r: u32)
        ensures
            r == self@.width,
            1 <= r <= MAX_DIMENSION,
    {
        proof {
            use_type_invariant(self);
        }
        self.width
    }

    /// Height of the picture in pixels.
    pub fn height(&self) -> (r: u32)
        ensures
            r == self@.height,
            1 <= r <= MAX_DIMENSION,
    {
        proof {
            use_type_invariant(self);
        }
        self.height
    }

    /// Colour of the line.
    pub fn foreground(&self) -> (r: Rgb)
        ensures
            r == self@.foreground,
    {
        self.foreground
    }

    /// Colour that the picture is filled with before the line is drawn.
    pub fn background(&self) -> (r: Rgb)
        ensures
            r == self@.background,
    {
        self.background
    }
}

} // verus!
