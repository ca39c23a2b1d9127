//! A verified core for a concurrent binary downloader over an NNTP-like
//! text protocol: the yEnc-style streaming decoder with checksum
//! verification, the line-oriented protocol client with its command and
//! body framing, the capacity-bounded connection pool's bookkeeping, and
//! the offset scheduling and positioned-write model that let many
//! segment fetches fill one output file without interfering.
//!
//! Sockets, TLS, threads and the filesystem live in the embedding
//! program, behind the [`nntp::Stream`] trait and plain-value calls.

pub mod crc;
pub mod downloader;
pub mod error;
pub mod nntp;
pub mod numbers;
pub mod nzb;
pub mod pool;
pub mod yenc;
