//! Backend library for a small application launcher.
//!
//! The library discovers `.app` bundles from directory listings, guesses a
//! display category for each from its name, lets the user override that
//! category through a persistent store, and extracts a bundle's icon as a
//! `data:` URI.  All filesystem reads and writes happen outside the library;
//! every function here is pure computation over the values handed in.

pub mod strutil;
pub mod paths;
pub mod category;
pub mod overrides;
pub mod scan;
pub mod icon;
