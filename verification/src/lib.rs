//! A manifest image is a flat, read-mostly container that bundles named,
//! typed and described binary objects into one blob, so that a loader can walk
//! it without a file system underneath.
//!
//! [`Manifest`] collects objects and lays them out as an image;
//! [`ManifestImageIter`] walks an image and hands the objects back, each with
//! its contents given as a region of the image rather than as a copy.

pub mod image_iter;
pub mod layout;
pub mod manifest;
pub mod object;
pub mod round_trip;
pub mod wire;

pub use image_iter::ManifestImageIter;
pub use manifest::Manifest;
pub use object::{ContentModel, ManifestError, ManifestObject, ManifestObjectData, ManifestObjectType, ObjectModel};
pub use wire::ByteOrder;
