//! Retro photo-effect compositing engine.
//!
//! The library synthesizes per-effect overlay buffers (a radial vignette
//! mask, a film-grain noise field, a bleach-bypass contrast overlay) and
//! composites an ordered stack of such overlays onto a base image with
//! photographic blend modes carried out in fixed-point linear light.

mod bleach;
mod blend;
mod blur;
mod buffer;
mod composite;
mod grain;
mod math;
mod rng;
mod scale;
mod vignette;

pub use bleach::bleach_bypass;
pub use blend::blend_channel;
pub use blend::palette_blend;
pub use blend::BlendMode;
pub use blur::blur3;
pub use buffer::GrayBuffer;
pub use buffer::RgbBuffer;
pub use composite::composite;
pub use composite::BleachBypassSettings;
pub use composite::EffectStack;
pub use composite::FilmGrainSettings;
pub use composite::VignetteSettings;
pub use grain::film_grain;
pub use scale::scaled_radius;
pub use vignette::create_vignette;
pub use vignette::gradient_noise;
