//! Billing metrics for an invoice API behind HTTP Digest authentication:
//! the handshake that fetches a document, and the reduction of an invoice's
//! line items into a cumulative-cost view and a current-rate view.

pub mod invoice;
pub mod error;
pub mod handshake;
pub mod state;
