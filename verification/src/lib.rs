//! A library for reading, editing and writing Luanti (formerly Minetest)
//! schematic files: compact binary descriptions of a rectangular 3D region
//! of a block-based world.
//!
//! The region is a dense grid of cells ("nodes"), each referring to an
//! entry of an ordered content dictionary ("air", "default:cobble", ...).
//! The library offers bounds-checked editing (fill, insert-layer, merge),
//! zero-copy rotated views, chunked splitting, and a binary codec whose
//! parser and serializer are proven to invert each other.

pub mod codec;
pub mod dictionary;
pub mod editing;
pub mod error;
pub mod node;
pub mod schematic;
pub mod vector;
pub mod zlib;

pub use error::Error;
pub use error::ParseErrorKind;
pub use node::AnnotatedNode;
pub use node::Node;
pub use node::NodeSpace;
pub use node::RawNode;
pub use node::SpawnProbability;
pub use schematic::AnnotatedNodeIterator;
pub use schematic::GridModel;
pub use schematic::Rotation;
pub use schematic::Schematic;
pub use schematic::SchematicRef;
pub use vector::MapVector;
pub use vector::MAX_MAP_DIMENSION;
