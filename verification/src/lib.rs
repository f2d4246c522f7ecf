//! Discovery of a host's listening sockets and their attribution to the
//! processes and network interfaces that own them.
//!
//! The crate holds the decision logic of the discovery: framing and
//! reassembly of kernel dump responses, the longest-prefix-match routing
//! table, the correlation of socket records with interfaces and tunnel
//! ports, the textual fallback, the filters and the tree layout. Opening
//! sockets and reading files is left to the caller, and so is the decoding
//! of link, route and generic-protocol frames, whose decoders may panic on
//! malformed input; the caller hands over what each attribute holds.

pub mod addr;
pub mod diag;
pub mod discovery;
pub mod display;
pub mod fallback;
pub mod filters;
pub mod links;
pub mod options;
pub mod procs;
pub mod query;
pub mod registry;
pub mod route;
pub mod routes;
pub mod seqs;
pub mod snapshot;
pub mod sock;
pub mod termtree;
pub mod text;
pub mod transport;
pub mod tunnel;
pub mod wg;
