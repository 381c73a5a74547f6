//! Finds the latest published versions of Maven modules.
//!
//! A repository publishes, for each module, a metadata document that lists
//! the module's versions. Two things are done with it:
//!
//! - [`metadata`] extracts the version texts from the document, token by
//!   token, without building a tree. The tokens come from a source of
//!   [`tokens`].
//! - [`versions`] picks, for each of an ordered list of range requirements,
//!   the latest version that belongs to it. Versions are read by
//!   [`reading`] and compared as [`version`] says; [`ranges`] names what a
//!   requirement is and when a version satisfies it.
//!
//! Around these, [`coordinates`] and [`opts`] hold what a user asks for,
//! [`address`], [`resolvers`], [`mvnmeta`] and [`auth`] say where a document
//! is found and what a response means, and [`message`] holds what the user
//! is told. [`text`] has the helpers on texts that the others share.
//!
//! Nothing here reads a file, opens a connection or prints: whoever uses
//! the library does that, and hands over texts.
pub mod address;
pub mod auth;
pub mod coordinates;
pub mod message;
pub mod metadata;
pub mod mvnmeta;
pub mod opts;
pub mod ranges;
pub mod reading;
pub mod resolvers;
pub mod text;
pub mod tokens;
pub mod version;
pub mod versions;
