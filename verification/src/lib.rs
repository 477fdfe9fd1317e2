//! Management of kernel-resident IP address sets over netlink.
//!
//! The crate speaks two kernel protocols, the legacy `ipset` protocol and
//! `nf_tables`, and proves what it says and what it understands: the octets
//! of every request, the decoding of every answer, the correlation of
//! answers with requests, and what each operation comes to.
//!
//! It does no I/O. An operation is a value, an [`operation::Operation`]; a
//! [`session::Session`] says which request to send for it and is told how
//! the exchange ended, and an [`exchange::Exchange`] takes in the datagrams
//! that arrive and says when the answer is complete. The caller owns the
//! socket, the clock and the sequence numbers.
//!
//! From the wire upwards:
//!
//! - [`bytes`], [`attr`], [`fields`]: numbers as octets, and the attribute
//!   codec.
//! - [`frame`]: the netlink header and datagrams of several messages.
//! - [`message`], [`ipset`], [`nftables`], [`codec`]: the messages of the two
//!   protocols as typed values, their layout in attributes, and the way
//!   there and back.
//! - [`request`], [`reply`]: which message an operation sends, and what the
//!   answer means for it.
//! - [`exchange`], [`session`]: one request with its answers, and an
//!   operation as a sequence of exchanges.
//! - [`error`]: the errors, and the classification of kernel error codes.
//! - [`cli`]: what a command line stands for.
//!
//! Beside the stack stands a reference kernel: [`kernel`] says how a kernel
//! reacts to a request, [`memory`] runs that in memory, and [`loopback`]
//! runs operations against it. [`meaning`] says what each operation means
//! without any message, [`refinement`] proves that the stack and the
//! reference kernel together come to exactly that, and [`laws`] states what
//! follows for every kernel and every argument.

pub mod attr;
pub mod bytes;
pub mod cli;
pub mod codec;
pub mod coherence;
pub mod entry;
pub mod error;
pub mod exchange;
pub mod fields;
pub mod frame;
pub mod ipset;
pub mod kernel;
pub mod laws;
pub mod loopback;
pub mod meaning;
pub mod memory;
pub mod message;
pub mod nftables;
pub mod operation;
pub mod refinement;
pub mod reply;
pub mod request;
pub mod session;
pub mod store;
pub mod text;
