//! Mark Time: which trading phase a venue is in at an explicit instant, with the evidence
//! behind the answer and an honest statement of how precisely it is known.
//!
//! Instants and rule data are passed in; nothing here reads a clock or a file.

pub mod text;
pub mod ids;
pub mod instant;
pub mod instant_order;
pub mod phase;
pub mod uncertainty;
pub mod evidence;
pub mod catalog;
pub mod civil;
pub mod zone;
pub mod rule;
pub mod event;
pub mod coverage;
pub mod query;
pub mod ruleset;
pub mod resolve;
pub mod bands;
pub mod tzdata;
pub mod scales;
pub mod fetch;
pub mod board;
pub mod origin;
pub mod format;
pub mod load;
pub mod revision;
pub mod adapters;
pub mod svg;
pub mod html;
pub mod request;
pub mod status;
pub mod page;
