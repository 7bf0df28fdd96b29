use crate::codec::{encode_into, encode_spec};
use crate::packet::Packet;
use vstd::prelude::*;

verus! {

/// Frames packets one after the other into a byte buffer.
pub struct PacketWriter {
    writer: Vec<u8>,
}

impl View for PacketWriter {
    /// The bytes written so far.
    type V = Seq<u8>;

    closed spec fn view(&self) -> Seq<u8> {
        self.writer@
    }
}

impl PacketWriter {
    /// A writer that appends to `writer`.
    pub fn new(writer: Vec<u8>) -> (r: Self)
        ensures
            r@ == writer@,
    {
        PacketWriter { writer }
    }

    /// Appends the frame of `packet`.
    pub fn write_packet(&mut self, packet: &Packet)
        requires
            packet@.wf(),
        ensures
            final(self)@ == old(self)@ + encode_spec(packet@),
    {
        encode_into(&mut self.writer, packet);
    }

    /// The bytes written.
    pub fn into_inner(self) -> (r: Vec<u8>)
        ensures
            r@ == self@,
    {
        self.writer
    }
}

} // verus!
