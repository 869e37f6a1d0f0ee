//! Accounting records for finished batch jobs: derivation from raw job
//! attributes by configurable rules, validation, binary staging format and
//! delivery bookkeeping.

pub mod attributes;
pub mod codec;
pub mod collect;
pub mod delivery;
pub mod domain;
pub mod names;
pub mod pattern;
pub mod record;
pub mod rules;
pub mod staging;
pub mod text;
pub mod time;
