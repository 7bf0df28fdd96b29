//! A key-value database server's core: the wire protocol (`packet`, `codec`,
//! and the reader and writer types), the table of attached databases
//! (`registry`), the per-connection state machine (`session`) with its range
//! pages (`range`), and the client's side of the protocol (`client`).

pub mod bigendian;
pub mod client;
pub mod codec;
pub mod packet;
pub mod range;
pub mod reader;
pub mod readerwriter;
pub mod registry;
pub mod session;
pub mod text;
pub mod writer;

pub use client::{RsDBClient, RsDBError};
pub use packet::{Packet, PacketError};
pub use reader::PacketReader;
pub use readerwriter::PacketReaderWriter;
pub use registry::MultiDB;
pub use writer::PacketWriter;
