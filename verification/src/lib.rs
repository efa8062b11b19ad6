//! Synthesis of builder types from record declarations.
//!
//! A record declaration is a [`schema::RecordSchema`]: a name and an ordered
//! list of named, typed fields, each with its directives. The engine
//! classifies each field by its declared type ([`classify`]), resolves its
//! directives ([`directive`]), combines both into a plan ([`plan`]) and
//! assembles the fragments of the builder type from the plans ([`synth`],
//! [`artifact`]).
//!
//! What the fragments mean is given by [`builder`]: a builder that follows an
//! artifact, with its setters and its assembly. [`trace`] and [`laws`] state
//! and prove what holds of every declaration and of every run of setter calls.

pub mod artifact;
pub mod builder;
pub mod classify;
pub mod directive;
pub mod error;
pub mod laws;
pub mod lookup;
pub mod plan;
pub mod schema;
pub mod synth;
pub mod trace;
pub mod value;
