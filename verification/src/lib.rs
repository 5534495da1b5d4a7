//! A client-side engine for the POP3 mail-retrieval protocol.
//!
//! The engine turns the byte stream received from a POP3 server into
//! discrete, correctly terminated response units, classifies each as
//! success or failure, and extracts typed fields (mailbox statistics,
//! per-message listings, full message bodies) from the response text.
//! It also renders each outgoing POP3 verb as a command line.
//!
//! The engine itself performs no I/O: the caller owns the transport,
//! feeds received bytes into a [`PopStream`], and writes the rendered
//! command lines out.

pub mod command;
pub mod digits;
pub mod error;
pub mod frame;
pub mod laws;
pub mod parse;
pub mod scan;
pub mod session;

pub use command::PopCommand;
pub use error::PopError;
pub use frame::PopResponse;
pub use parse::{List, Retr, Scan, Stat};
pub use session::PopStream;
