//! Dependency resolution for hardware-description projects organised in libraries.
//!
//! Given a structural model of the libraries (designs with their entity and
//! architectures, configurations, packages, Verilog modules), the library finds
//! every compilation unit a target needs, in compile order, and orders the
//! libraries so that each follows those it depends on.

/// The structural model and its first-wins registration.
pub mod model;
/// Name grammar and string helpers.
pub mod names;
/// Elements, diagnostics and fatal errors of a resolution.
pub mod outcome;
/// The meaning of resolution, as spec functions.
pub mod semantics;
/// The resolver, proved against `semantics`.
pub mod resolve;
/// Alphabetical order and the compile order of libraries.
pub mod order;
/// Laws of resolution and of the library order.
pub mod laws;
/// Targets a library offers, and per-library file lists.
pub mod listing;
/// Rules that turn the records of a source file into model entries.
pub mod indexing;
/// Preparing VHDL source text for structural extraction.
pub mod sources;
/// References to environment variables in configured paths.
pub mod paths;
