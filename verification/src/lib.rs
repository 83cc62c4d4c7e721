//! A low-latency transaction submitter for the Robinhood chain sequencer.
//!
//! The sequencer is an Arbitrum Nitro write endpoint that answers in well under a
//! millisecond, so essentially the entire latency of a submission is TCP, TLS, and
//! round-trip time. That shapes everything this crate decides:
//!
//! * **Connections are established up front and kept warm.** Each one has a
//!   [`Supervisor`](conn::Supervisor) that brings it up and reconnects it with
//!   exponential backoff.
//! * **Every endpoint is used.** The hostname resolves to several addresses. Each
//!   transaction can be broadcast to all of them at once and the first success
//!   wins. Duplicates cannot be included twice, since the nonce is fixed by the
//!   signature. The copies that lose the race are answered `nonce too low`. Such
//!   an answer does not settle the outcome: [`verdict`] reports it only once
//!   every copy has answered and none succeeded.
//! * **HTTP/2 is required.** A peer that will not negotiate it is reported as a
//!   connect error.
//! * **Nothing blocks on a handshake.** A submission either finds a warm
//!   connection or fails fast against that endpoint and lets the others race.
//! * **The fastest healthy endpoint is preferred.** A periodic probe supplies the
//!   latency sample by which an [`Endpoint`](endpoint::Endpoint) is ranked.
//! * **The address set tracks DNS.** The [`Pool`](pool::Pool) is reconciled with
//!   what the resolver answers; surviving endpoints keep their warm connections,
//!   and a failed lookup leaves the current set in place.
//!
//! The crate decides and computes. It opens no socket and reads no clock: each
//! step takes what happened as a value and says what to do next, and every step
//! states exactly what it returns. Beside the steps stand proofs of what they add
//! up to.
//!
//! # Scope
//!
//! Submission only. Transactions come in **already signed**, and the hash handed
//! back is computed locally.
//!
//! # Errors
//!
//! [`Error::is_retryable`] draws the line that matters. An [`Error::Rejected`] is
//! the sequencer's verdict on those exact bytes, and every endpoint fronts the
//! same sequencer, so resending changes nothing. A transport failure, a timeout or
//! [`Error::AllFailed`] leaves delivery unknown.

pub mod addr;
pub mod buf;
pub mod client;
pub mod conditional;
pub mod config;
pub mod conn;
pub mod endpoint;
pub mod error;
pub mod hex;
pub mod json;
pub mod order;
pub mod pool;
pub mod request;
pub mod rpc;
pub mod sorted_map;
pub mod text;
pub mod time;
pub mod types;
pub mod verdict;

pub use addr::IpAddr;
pub use client::{ClientBuilder, SequencerClient};
pub use conditional::{ConditionalOptions, KnownAccount};
pub use config::{SEQUENCER_HOST, SEQUENCER_PORT};
pub use error::Error;
pub use time::Duration;
pub use types::{EndpointStats, Submission, TxHash};
