//! Decoder for Android binary XML, the compiled form of `AndroidManifest.xml`
//! and of the other resource XML files inside an application package.
//!
//! Every function here works on bytes that are already in memory; opening a
//! package and locating an entry is left to the caller.

pub mod file;
