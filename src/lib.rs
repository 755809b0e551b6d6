//! A container-image registry that builds images on demand: the verified
//! core of source sync, build, layer packing, manifest assembly and the
//! archive content sum.

pub mod digest;
pub mod error;
pub mod repo;
pub mod text;
pub mod hash_write;
pub mod packer;
pub mod pipeline;
pub mod manifest;
pub mod tarsum;
