//! Verified core of a DKIM-backed email claim: the committed public record and
//! its byte layout, the in-environment verification pipeline, payment-fact
//! extraction, host-side signature-header selection and the proof lifecycle.
pub mod claim;
pub mod digest;
pub mod extract;
pub mod header;
pub mod lifecycle;
pub mod message;
pub mod pipeline;
