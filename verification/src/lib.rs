//! Frame pipeline for stroke-by-stroke calligraphy animations.
//!
//! A poem is drawn character by character: each character comes as an archive
//! of numbered stroke frames, which are ordered, resized to the character's
//! slot, laid over one shared canvas, and handed on either as an animation or
//! as an archive of still images.

pub mod animation;
pub mod compositor;
pub mod error;
pub mod font;
pub mod frame_archive;
pub mod frame_name;
pub mod frame_order;
pub mod layout;
pub mod packer;
pub mod pipeline;
pub mod raster;
pub mod request;
pub mod storage;
pub mod text;
pub mod word_frame;
