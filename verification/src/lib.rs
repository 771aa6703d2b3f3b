//! File-level audio utilities driven by `ffmpeg` and `ffprobe`: probing,
//! converting, cutting, joining, splitting, mixing a room-tone bed and writing
//! silence.
//!
//! This crate holds the decisions of every operation. The processes, the files
//! and the floating-point edges live with the caller, which performs the
//! [`session::Request`]s that an operation asks for and hands back the
//! [`session::Reply`]s.

pub mod chunk;
pub mod concat;
pub mod convert;
pub mod error;
pub mod json;
pub mod pcm;
pub mod probe;
pub mod roomtone;
pub mod seconds;
pub mod session;
pub mod silence;
pub mod split;
pub mod text;

pub use chunk::extract_chunk;
pub use convert::{convert, ConvertOptions};
pub use error::AudioHelperError;
pub use pcm::LoadOptions;
pub use probe::{get_audio_duration, is_valid_audio_file};
pub use roomtone::{mix_room_tone, RoomToneOptions};
pub use silence::generate_silence;
pub use split::split_regularly;
