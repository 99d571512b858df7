//! The frame that a strip is drawn into.

use vstd::prelude::*;

verus! {

/// Width of the standard frame, in pixels.
pub const WIDTH: u16 = 640;

/// Height of the standard frame, in pixels.
pub const HEIGHT: u16 = 480;

/// Base scale of the standard frame: the side of the smallest block.
pub const SCALE: u16 = 1;

/// What a frame configuration stands for.
pub ghost struct FrameModel {
    pub width: int,
    pub height: int,
    pub base_scale: int,
}

impl FrameModel {
    /// A frame has a positive base scale, and every measure fits in 16 bits.
    pub open spec fn valid(self) -> bool {
        &&& 0 <= self.width <= u16::MAX
        &&& 0 <= self.height <= u16::MAX
        &&& 1 <= self.base_scale <= u16::MAX
    }
}

/// Size and base scale of a frame. The base scale is never 0.
#[derive(Clone, Copy, Debug)]
pub struct FrameConfig {
    width: u16,
    height: u16,
    base_scale: u16,
}

impl View for FrameConfig {
    type V = FrameModel;

    closed spec fn view(&self) -> FrameModel {
        FrameModel {
            width: self.width as int,
            height: self.height as int,
            base_scale: self.base_scale as int,
        }
    }
}

impl FrameConfig {
    #[verifier::type_invariant]
    spec fn positive_scale(self) -> bool {
        self.base_scale >= 1
    }

    /// A frame of the given size. There is none with base scale 0.
    pub fn new(width: u16, height: u16, base_scale: u16) -> (cfg: Option<FrameConfig>)
        ensures
            cfg.is_some() <==> base_scale >= 1,
            cfg matches Some(c) ==> c@ == (FrameModel {
                width: width as int,
                height: height as int,
                base_scale: base_scale as int,
            }) && c@.valid(),
    {
        if base_scale >= 1 {
            Some(FrameConfig { width, height, base_scale })
        } else {
            None
        }
    }

    /// The standard frame: `WIDTH` by `HEIGHT` at base scale `SCALE`.
    pub fn standard() -> (cfg: FrameConfig)
        ensures
            cfg@ == (FrameModel {
                width: WIDTH as int,
                height: HEIGHT as int,
                base_scale: SCALE as int,
            }),
            cfg@.valid(),
    {
        FrameConfig { width: WIDTH, height: HEIGHT, base_scale: SCALE }
    }

    /// Width of the frame, in pixels.
    pub fn width(&self) -> (w: u16)
        ensures
            w == self@.width,
            self@.valid(),
    {
        proof {
            use_type_invariant(self);
        }
        self.width
    }

    /// Height of the frame, in pixels.
    pub fn height(&self) -> (h: u16)
        ensures
            h == self@.height,
            self@.valid(),
    {
        proof {
            use_type_invariant(self);
        }
        self.height
    }

    /// The side of the smallest block, in pixels.
    pub fn base_scale(&self) -> (s: u16)
        ensures
            s == self@.base_scale,
            self@.valid(),
    {
        proof {
            use_type_invariant(self);
        }
        self.base_scale
    }
}

} // verus!
