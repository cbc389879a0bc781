//! Skins of Bedrock players as a resource pack for Java clients.

pub mod hash;
pub mod image;
pub mod pack;
pub mod registry;
pub mod skin;
pub mod url;
pub mod zip;
