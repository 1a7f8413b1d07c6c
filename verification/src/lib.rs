//! Verified core of the AlloyGBM boosting engine: deterministic hashing and
//! sampling, tree routing and replay validation, artifact payload codecs,
//! histogram layout, profiling bookkeeping and small configuration parsers.

pub mod clock;
pub mod hashing;
pub mod selection;
pub mod sampling;
pub mod dart;
pub mod colsample;
pub mod bitset;
pub mod error;
pub mod replay;
pub mod bytes;
pub mod artifact;
pub mod text;
pub mod profiling;
pub mod histogram;
pub mod groups;
pub mod env;
pub mod objectives;
pub mod sections;
pub mod multiclass;
pub mod factor;
