use crate::codec::{decode_at, encode_into, encode_spec, parse_at};
use crate::packet::{Packet, PacketError};
use vstd::prelude::*;

verus! {

/// Both ends of one connection, without the transport: bytes received are
/// handed in, packets come out; packets to send go in, bytes come out.
pub struct PacketReaderWriter {
    input: Vec<u8>,
    pos: usize,
    output: Vec<u8>,
}

/// What a [`PacketReaderWriter`] holds: the bytes received with the position
/// of the first unread one, and the bytes waiting to be sent.
pub struct Streams {
    pub input: Seq<u8>,
    pub pos: int,
    pub output: Seq<u8>,
}

impl View for PacketReaderWriter {
    type V = Streams;

    closed spec fn view(&self) -> Streams {
        Streams { input: self.input@, pos: self.pos as int, output: self.output@ }
    }
}

impl PacketReaderWriter {
    /// Nothing received, nothing to send.
    pub fn new() -> (r: Self)
        ensures
            r@.input == Seq::<u8>::empty(),
            r@.pos == 0,
            r@.output == Seq::<u8>::empty(),
    {
        PacketReaderWriter { input: Vec::new(), pos: 0, output: Vec::new() }
    }

    /// Adds received bytes after those not read yet; the bytes already read
    /// are let go.
    pub fn receive(&mut self, bytes: &[u8])
        ensures
            final(self)@.input == old(self)@.input.subrange(
                if old(self)@.pos <= old(self)@.input.len() {
                    old(self)@.pos
                } else {
                    old(self)@.input.len() as int
                },
                old(self)@.input.len() as int,
            ) + bytes@,
            final(self)@.pos == 0,
            final(self)@.output == old(self)@.output,
    {
        let start = if self.pos <= self.input.len() {
            self.pos
        } else {
            self.input.len()
        };
        let mut kept: Vec<u8> = Vec::new();
        let mut i: usize = start;
        while i < self.input.len()
            invariant
                start <= i <= self.input@.len(),
                kept@ == self.input@.subrange(start as int, i as int),
            decreases self.input@.len() - i,
        {
            kept.push(self.input[i]);
            i += 1;
            assert(kept@ =~= self.input@.subrange(start as int, i as int));
        }
        let ghost before = kept@;
        let mut j: usize = 0;
        while j < bytes.len()
            invariant
                j <= bytes@.len(),
                kept@ == before + bytes@.subrange(0, j as int),
            decreases bytes@.len() - j,
        {
            kept.push(bytes[j]);
            j += 1;
            assert(kept@ =~= before + bytes@.subrange(0, j as int));
        }
        assert(bytes@.subrange(0, bytes@.len() as int) =~= bytes@);
        self.input = kept;
        self.pos = 0;
    }

    /// Reads the next packet and moves past its frame. On an error the
    /// position stays where it was: `UnexpectedEof` means that the frame is
    /// not complete yet.
    pub fn read_packet(&mut self) -> (r: Result<Packet, PacketError>)
        ensures
            final(self)@.input == old(self)@.input,
            final(self)@.output == old(self)@.output,
            match parse_at(old(self)@.input, old(self)@.pos) {
                Ok((m, e)) => r matches Ok(p) && p@ == m && final(self)@.pos == e,
                Err(err) => r == Err::<Packet, PacketError>(err) && final(self)@.pos
                    == old(self)@.pos,
            },
    {
        match decode_at(self.input.as_slice(), self.pos) {
            Ok((p, e)) => {
                self.pos = e;
                Ok(p)
            },
            Err(err) => Err(err),
        }
    }

    /// Queues the frame of `packet` for sending.
    pub fn write_packet(&mut self, packet: &Packet)
        requires
            packet@.wf(),
        ensures
            final(self)@.input == old(self)@.input,
            final(self)@.pos == old(self)@.pos,
            final(self)@.output == old(self)@.output + encode_spec(packet@),
    {
        encode_into(&mut self.output, packet);
    }

    /// Hands out the bytes waiting to be sent, and forgets them.
    pub fn flush(&mut self) -> (r: Vec<u8>)
        ensures
            r@ == old(self)@.output,
            final(self)@.input == old(self)@.input,
            final(self)@.pos == old(self)@.pos,
            final(self)@.output == Seq::<u8>::empty(),
    {
        let mut out: Vec<u8> = Vec::new();
        std::mem::swap(&mut out, &mut self.output);
        out
    }
}

} // verus!
