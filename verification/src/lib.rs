//! The verified core of the alloy WebGL demo: Radiance (`.hdr`) decoding,
//! cubemap face assembly, skybox descriptions and the camera input rules.
pub mod hdr;
pub mod text;
pub mod header;
pub mod cubemap;
pub mod skybox;
pub mod input;
pub mod canvas;
pub mod encoding;
