use crate::codec::{decode_at, parse_at};
use crate::packet::{Packet, PacketError};
use crate::text::copy_bytes;
use vstd::prelude::*;

verus! {

/// Reads packets one after the other from a buffer of received bytes.
pub struct PacketReader {
    buf: Vec<u8>,
    pos: usize,
}

impl View for PacketReader {
    /// The bytes, and the position of the first unread one.
    type V = (Seq<u8>, int);

    closed spec fn view(&self) -> (Seq<u8>, int) {
        (self.buf@, self.pos as int)
    }
}

impl PacketReader {
    /// A reader at the start of `reader`.
    pub fn new(reader: &[u8]) -> (r: Self)
        ensures
            r@ == (reader@, 0int),
    {
        PacketReader { buf: copy_bytes(reader), pos: 0 }
    }

    /// Reads the next packet and moves past its frame. On an error the
    /// position stays where it was.
    pub fn read_packet(&mut self) -> (r: Result<Packet, PacketError>)
        ensures
            final(self)@.0 == old(self)@.0,
            match parse_at(old(self)@.0, old(self)@.1) {
                Ok((m, e)) => r matches Ok(p) && p@ == m && final(self)@.1 == e,
                Err(err) => r == Err::<Packet, PacketError>(err) && final(self)@.1 == old(self)@.1,
            },
    {
        match decode_at(self.buf.as_slice(), self.pos) {
            Ok((p, e)) => {
                self.pos = e;
                Ok(p)
            },
            Err(err) => Err(err),
        }
    }
}

} // verus!
