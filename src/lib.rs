//! Core of the WHIR polynomial-commitment scheme: the evaluation domain, the
//! multilinear polynomial representations, constraint aggregation, the
//! single-round sumcheck prover, the transcript-pattern builder and the
//! integer part of the parameter schedule.

pub mod field;
pub mod domain;
pub mod poly;
pub mod statement;
pub mod sumcheck;
pub mod domain_separator;
pub mod parameters;
