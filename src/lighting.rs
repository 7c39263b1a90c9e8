use vstd::prelude::*;
use bracket_random::prelude::RandomNumberGenerator;
use crate::random::roll_range;

verus! {

/// A colour as three 8-bit channels.
#[derive(PartialEq, Eq, Structural, Copy, Clone, Debug)]
pub struct Color {
    pub r: u8,
    pub g: u8,
    pub b: u8,
}

/// Something that gives off light.
#[derive(PartialEq, Eq, Structural, Copy, Clone, Debug)]
pub struct LightSource {
    /// The colour of the light.
    pub color: Color,
    /// Radius of the lit area.
    pub radius: i32,
    /// Strength of the light at its source.
    pub intensity: i32,
}

impl LightSource {
    pub fn new(color: Color, radius: i32, intensity: i32) -> (r: LightSource)
        ensures
            r == (LightSource { color, radius, intensity }),
    {
        LightSource { color, radius, intensity }
    }
}

/// Kinds of light source.
#[derive(PartialEq, Eq, Structural, Copy, Clone, Debug)]
pub enum Factory {
    /// A candle gives very little light.
    Candle,
    /// A torch gives more, and stronger, light.
    Torch,
    /// A patch of phosphorescent moss.
    Moss,
    /// A light with random colour, reach and strength.
    Random,
}

/// A random light: each channel one of 0, 60, 120, 180, 240; a radius from
/// 10 to 14; a strength from 128 to 254.
pub open spec fn random_light_ok(l: LightSource) -> bool {
    &&& l.color.r % 60 == 0 && l.color.r <= 240
    &&& l.color.g % 60 == 0 && l.color.g <= 240
    &&& l.color.b % 60 == 0 && l.color.b <= 240
    &&& 10 <= l.radius < 15
    &&& 128 <= l.intensity < 255
}

impl Factory {
    /// Makes a light source of this kind.
    pub fn create(self, rng: &mut RandomNumberGenerator) -> (r: LightSource)
        ensures
            self is Candle ==> r == (LightSource { color: Color { r: 255, g: 127, b: 255 }, radius: 6, intensity: 64 }),
            self is Torch ==> r == (LightSource { color: Color { r: 255, g: 127, b: 0 }, radius: 10, intensity: 96 }),
            self is Moss ==> r == (LightSource { color: Color { r: 173, g: 223, b: 173 }, radius: 5, intensity: 32 }),
            self is Random ==> random_light_ok(r),
    {
        match self {
            Factory::Candle => LightSource::new(Color { r: 255, g: 127, b: 255 }, 6, 64),
            Factory::Torch => LightSource::new(Color { r: 255, g: 127, b: 0 }, 10, 96),
            Factory::Moss => LightSource::new(Color { r: 173, g: 223, b: 173 }, 5, 32),
            Factory::Random => {
                let r = roll_range(rng, 0, 5) as u8 * 60;
                let g = roll_range(rng, 0, 5) as u8 * 60;
                let b = roll_range(rng, 0, 5) as u8 * 60;
                let radius = roll_range(rng, 10, 15);
                let intensity = roll_range(rng, 128, 255);
                LightSource::new(Color { r, g, b }, radius, intensity)
            },
        }
    }
}

} // verus!
