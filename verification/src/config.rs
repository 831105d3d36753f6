//! Panel geometry.
use vstd::prelude::*;

verus! {

/// How far the drawing surface is turned on the panel.
#[derive(Debug, Clone, Copy, PartialEq, Eq, Structural)]
pub enum Rotation {
    Rotate0,
    Rotate90,
    Rotate180,
    Rotate270,
}

/// A panel driven by two controllers side by side, each responsible for
/// `chip_width` pixels of every row. The two are mounted mirror-wise.
#[derive(Debug, Clone, Copy)]
pub struct CascadeConfig {
    pub(crate) chip_width: u16,
}

impl View for CascadeConfig {
    type V = u16;

    closed spec fn view(&self) -> u16 {
        self.chip_width
    }
}

impl CascadeConfig {
    /// The number of pixels of a row that one controller drives.
    pub fn chip_width(&self) -> (r: u16)
        ensures
            r == self@,
    {
        self.chip_width
    }
}

/// Resolution, orientation and wiring of a panel.
#[derive(Debug, Clone, Copy)]
pub struct Config {
    pub(crate) width: u16,
    pub(crate) height: u16,
    pub(crate) rotation: Rotation,
    pub(crate) cascade: Option<CascadeConfig>,
}

/// What a [`Config`] says. `cascade` is the width in pixels of each of the two
/// controllers, where there are two.
pub struct ConfigView {
    pub width: u16,
    pub height: u16,
    pub rotation: Rotation,
    pub cascade: Option<u16>,
}

impl ConfigView {
    /// A cascaded panel is exactly as wide as its two controllers together.
    pub open spec fn wf(self) -> bool {
        self.cascade matches Some(chip_width) ==> self.width == 2 * chip_width
    }

    /// One controller, drawn upright.
    pub open spec fn single(width: u16, height: u16) -> ConfigView {
        ConfigView { width, height, rotation: Rotation::Rotate0, cascade: None }
    }

    pub open spec fn with_rotation(self, rotation: Rotation) -> ConfigView {
        ConfigView { rotation, ..self }
    }

    pub open spec fn with_cascade(self, chip_width: u16) -> ConfigView {
        ConfigView { width: (2 * chip_width) as u16, cascade: Some(chip_width), ..self }
    }
}

impl View for Config {
    type V = ConfigView;

    closed spec fn view(&self) -> ConfigView {
        ConfigView {
            width: self.width,
            height: self.height,
            rotation: self.rotation,
            cascade: match self.cascade {
                Some(cascade) => Some(cascade@),
                None => None,
            },
        }
    }
}

impl Config {
    /// A cascaded panel is exactly as wide as its two controllers together.
    #[verifier::type_invariant]
    pub open spec fn inv(self) -> bool {
        self@.wf()
    }

    /// A panel with a single controller and a resolution of `width` by `height`
    /// pixels. `width` has to be a multiple of 8 for [`crate::Graphics`] to take it.
    pub fn new(width: u16, height: u16) -> (r: Self)
        ensures
            r@ == ConfigView::single(width, height),
            r@.wf(),
    {
        Config { width, height, rotation: Rotation::Rotate0, cascade: None }
    }

    /// The same panel with its drawing surface turned.
    pub fn with_rotation(self, rotation: Rotation) -> (r: Self)
        ensures
            r@ == self@.with_rotation(rotation),
            r@.wf(),
    {
        proof {
            use_type_invariant(&self);
        }
        Config { width: self.width, height: self.height, rotation, cascade: self.cascade }
    }

    /// A cascaded panel of the same height: the master drives the left half, the
    /// slave the right half, `chip_width` pixels each, so that the panel is
    /// `2 * chip_width` pixels wide.
    pub fn with_cascade(self, chip_width: u16) -> (r: Self)
        requires
            2 * chip_width <= u16::MAX,
        ensures
            r@ == self@.with_cascade(chip_width),
            r@.width == 2 * chip_width,
            r@.wf(),
    {
        Config {
            width: chip_width * 2,
            height: self.height,
            rotation: self.rotation,
            cascade: Some(CascadeConfig { chip_width }),
        }
    }

    /// Panel width in pixels, as wired.
    pub fn width(&self) -> (r: u16)
        ensures
            r == self@.width,
    {
        self.width
    }

    /// Panel height in pixels, as wired.
    pub fn height(&self) -> (r: u16)
        ensures
            r == self@.height,
    {
        self.height
    }

    pub fn rotation(&self) -> (r: Rotation)
        ensures
            r == self@.rotation,
    {
        self.rotation
    }

    pub fn cascade(&self) -> (r: Option<CascadeConfig>)
        ensures
            match r {
                Some(cascade) => self@.cascade == Some(cascade@),
                None => self@.cascade is None,
            },
    {
        self.cascade
    }
}

impl Default for Config {
    /// A single controller with 400 by 300 pixels.
    fn default() -> (r: Self)
        ensures
            r@ == ConfigView::single(400, 300),
    {
        Config::new(400, 300)
    }
}

} // verus!
