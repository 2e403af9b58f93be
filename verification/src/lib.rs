//! Sharding a huge JSON array, and generating one to try it on.
//!
//! * Sharding: [`dispatch`] decides which shard each streamed element goes to and what comes of an
//!   input; [`ndjson`] writes an element as a line; [`shards`] names the files; [`progress`] and
//!   [`workers`] keep count.
//! * Generating: [`generate`] makes an [`entity`] from random draws; [`seeds`] gives each its own
//!   generator; [`assembly`] puts the results of parallel workers into one document, in order.
//! * Below both: [`decimal`] numerals, random [`text`], the [`clock`], [`ids`], and what is trusted
//!   of [`random`] generators and [`paths`].
pub mod assembly;
pub mod clock;
pub mod decimal;
pub mod dispatch;
pub mod entity;
pub mod generate;
pub mod ids;
pub mod ndjson;
pub mod paths;
pub mod progress;
pub mod random;
pub mod seeds;
pub mod shards;
pub mod text;
pub mod workers;
