//! Dependency resolution core of a small JVM build tool: coordinates of
//! artifacts, the project object model (POM) with its inheritance algebra,
//! its XML codec, and the decisions of the concurrent resolver.

pub mod text;
pub mod error;
pub mod coordinate;
pub mod search;
pub mod order;
pub mod properties;
pub mod pom;
pub mod laws;
pub mod assoc;
pub mod manifest;
pub mod dependencies;
pub mod backend;
pub mod metadata;
pub mod xml;
pub mod reader;
pub mod codec;
pub mod roundtrip;
pub mod textround;
pub mod cache;
pub mod resolver;
