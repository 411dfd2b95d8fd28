//! Verified core of a camera, media-index and nearby-transfer application.
#![allow(unused_imports)]

pub mod text;
pub mod camera;
pub mod bytes;
pub mod profiles;
pub mod asset;
pub mod probe;
pub mod transfer;
pub mod wire;
pub mod sanitize;
pub mod bundle;
pub mod crypto;
pub mod outgoing;
pub mod media_index;
pub mod nearby;
pub mod session;
pub mod transport;
pub mod pipeline;
pub mod media;
pub mod profile_fields;
pub mod snapshot;
pub mod migration;
pub mod settings;
pub mod film;
pub mod lut;
pub mod discovery;
pub mod sensor;
