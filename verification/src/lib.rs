//! Artifact-resolution core of a tool-version manager: infers a release
//! asset's container format from its filename, ranks candidate assets by
//! compatibility with the running system, and unpacks a tool's executable
//! bytes from the chosen asset while validating the binary's target
//! operating system.
pub mod archive;
pub mod artifact;
pub mod chars;
pub mod descriptor;
pub mod format;
pub mod laws;
pub mod platform;
pub mod tarball;
