//! A tiny living pixel creature for the desktop: the parts of its engine that
//! are plain data and integer logic — the mood and behaviour vocabulary, the
//! reflexes and behaviour menus, mood selection and hysteresis, the wellness
//! nudges, the procedural sprite atlas, the speech-bubble rasteriser, the
//! pet-pack sprite format, the avatar converter's rules, the frame
//! compositor's layout, the desktop scout's window-top geometry and the
//! notification-monitor line reader.

pub mod mood;
pub mod animation;
pub mod paint;
pub mod font;
pub mod banner;
pub mod raster;
pub mod pack;
pub mod convert;
pub mod scout;
pub mod wellness;
pub mod notify;
pub mod brain;
pub mod compose;
pub mod emotion;
