//! Maven dependency resolution for Android builds.
//!
//! The crate models `group:artifact:version` coordinates, semantic version
//! compatibility, POM dependency extraction, AAR archive extraction planning,
//! lock-file round-tripping and the recursive resolution engine itself.  All
//! network and filesystem work is delegated to a driver through an explicit
//! action/event protocol, so the resolution policy is ordinary verified code.

pub mod archive;
pub mod builder;
pub mod clock;
pub mod coordinate;
pub mod device;
pub mod dryrun;
pub mod engine;
pub mod errors;
pub mod hashing;
pub mod lock;
pub mod lockrun;
pub mod locktext;
pub mod manifest;
pub mod pom;
pub mod sdk;
pub mod strutil;
pub mod testmeta;
pub mod version;
pub mod xml;
