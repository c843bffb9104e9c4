//! Live output of a baked AviUtl2 scene over OMT: the conversions, the cue
//! player and the bake state machines, verified.
pub mod bake;
pub mod clock;
pub mod config;
pub mod media;
pub mod playback;
pub mod player;
pub mod sender;
