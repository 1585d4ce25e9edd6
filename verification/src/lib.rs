//! The verified core of a LÖVE-compatible runtime for Balatro on handheld devices: game
//! file access and script patching, the audio cache format and playback windows, occlusion
//! planning for the software renderer, and the small state machines around them.

pub mod occlusion;
pub mod card_layers;
pub mod text;
pub mod patches;
pub mod cadence;
pub mod profile;
pub mod prepare;
pub mod shapes;
pub mod alpha;
pub mod pcm;
pub mod render_waits;
pub mod game_source;
pub mod keys;
pub mod clip_cache;
pub mod shaders;
pub mod reconnect;
pub mod metrics;
pub mod sampler;
pub mod card_cache;
pub mod text_value;
pub mod font_cache;
pub mod voices;
pub mod shared_caches;
pub mod vorbis;
pub mod render_worker;
