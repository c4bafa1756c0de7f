//! The numeric configuration fixed at the start of a render.
use vstd::prelude::*;

verus! {

/// Why a configuration cannot be rendered.
#[derive(Clone, Copy, Debug, PartialEq, Eq, Structural)]
pub enum SettingsError {
    /// Width or height below two: the jittered image-plane coordinate
    /// `(i + r) / (width - 1)` needs `width - 1 > 0`, and likewise for height.
    ImageTooSmall,
    /// The grid would hold more pixels than the machine can index.
    ImageTooLarge,
    /// No samples per pixel: the per-pixel average would divide by zero.
    NoSamples,
}

/// Image size, samples per pixel and bounce budget of one render.
#[derive(Clone, Copy, Debug, PartialEq, Eq, Structural)]
pub struct RenderSettings {
    pub image_width: u32,
    pub image_height: u32,
    pub samples_per_pixel: u32,
    pub max_depth: i32,
}

impl RenderSettings {
    /// A renderable configuration; at least two pixels each way, a grid
    /// that fits in memory indices, and at least one sample per pixel.
    pub open spec fn valid(&self) -> bool {
        &&& self.image_width >= 2
        &&& self.image_height >= 2
        &&& self.image_width as int * self.image_height as int <= usize::MAX
        &&& self.samples_per_pixel >= 1
    }

    /// Checks a configuration. The size is checked first, then the sample
    /// count.
    pub fn new(image_width: u32, image_height: u32, samples_per_pixel: u32, max_depth: i32) -> (r:
        Result<RenderSettings, SettingsError>)
        ensures
            (image_width < 2 || image_height < 2) ==> r == Err::<RenderSettings, SettingsError>(
                SettingsError::ImageTooSmall,
            ),
            (image_width >= 2 && image_height >= 2 && image_width as int * image_height as int
                > usize::MAX) ==> r == Err::<RenderSettings, SettingsError>(
                SettingsError::ImageTooLarge,
            ),
            (image_width >= 2 && image_height >= 2 && image_width as int * image_height as int
                <= usize::MAX && samples_per_pixel == 0) ==> r == Err::<
                RenderSettings,
                SettingsError,
            >(SettingsError::NoSamples),
            (image_width >= 2 && image_height >= 2 && image_width as int * image_height as int
                <= usize::MAX && samples_per_pixel >= 1) ==> r == Ok::<
                RenderSettings,
                SettingsError,
            >(RenderSettings { image_width, image_height, samples_per_pixel, max_depth }),
            r matches Ok(s) ==> s.valid(),
    {
        if image_width < 2 || image_height < 2 {
            return Err(SettingsError::ImageTooSmall);
        }
        match (image_width as usize).checked_mul(image_height as usize) {
            None => {
                return Err(SettingsError::ImageTooLarge);
            },
            Some(_) => {},
        }
        if samples_per_pixel == 0 {
            return Err(SettingsError::NoSamples);
        }
        Ok(RenderSettings { image_width, image_height, samples_per_pixel, max_depth })
    }

    /// The number of pixels, which is also the number of work units.
    pub fn pixel_count(&self) -> (r: usize)
        requires
            self.valid(),
        ensures
            r == self.image_width as int * self.image_height as int,
    {
        self.image_width as usize * self.image_height as usize
    }
}

} // verus!
