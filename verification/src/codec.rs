//! Wire protocol: a frame is a 4-byte big-endian payload length, a 4-byte
//! big-endian type identifier, then the payload bytes.

use vstd::prelude::*;

use crate::DataPacket;

verus! {

/// Payload bytes are read from the socket in bounded chunks of this size,
/// never in one unboundedly large read.
pub const CHUNK_SIZE: usize = 128;

/// The big-endian bytes of a 32-bit value, most significant first.
pub open spec fn be_bytes_of_u32(x: u32) -> Seq<u8> {
    seq![
        ((x >> 24) & 0xff) as u8,
        ((x >> 16) & 0xff) as u8,
        ((x >> 8) & 0xff) as u8,
        (x & 0xff) as u8,
    ]
}

/// The 32-bit value read big-endian from the first four bytes of `b`.
pub open spec fn u32_of_be_bytes(b: Seq<u8>) -> u32
    recommends
        b.len() >= 4,
{
    (((b[0] as u32) << 24) | ((b[1] as u32) << 16) | ((b[2] as u32) << 8) | (b[3] as u32)) as u32
}

pub proof fn lemma_be_bytes_roundtrip(x: u32)
    ensures
        u32_of_be_bytes(be_bytes_of_u32(x)) == x,
{
    let b = be_bytes_of_u32(x);
    assert(((((((x >> 24) & 0xff) as u8) as u32) << 24) | (((((x >> 16) & 0xff) as u8) as u32)
        << 16) | (((((x >> 8) & 0xff) as u8) as u32) << 8) | (((x & 0xff) as u8) as u32)) as u32
        == x) by (bit_vector);
}

pub fn split_u32_into_u8s(input: u32) -> (r: [u8; 4])
    ensures
        r@ == be_bytes_of_u32(input),
{
    let byte1 = ((input >> 24) & 0xff) as u8;
    let byte2 = ((input >> 16) & 0xff) as u8;
    let byte3 = ((input >> 8) & 0xff) as u8;
    let byte4 = (input & 0xff) as u8;
    let r = [byte1, byte2, byte3, byte4];
    proof {
        assert(r@ =~= be_bytes_of_u32(input));
    }
    r
}

pub fn combine_u8s_into_u32(bytes: [u8; 4]) -> (r: u32)
    ensures
        r == u32_of_be_bytes(bytes@),
{
    let byte1 = (bytes[0] as u32) << 24;
    let byte2 = (bytes[1] as u32) << 16;
    let byte3 = (bytes[2] as u32) << 8;
    let byte4 = bytes[3] as u32;
    byte1 | byte2 | byte3 | byte4
}

/// The wire form of one payload: big-endian length, big-endian identifier,
/// then the payload bytes themselves.
pub open spec fn frame_bytes(identifier: u32, payload: Seq<u8>) -> Seq<u8>
    recommends
        payload.len() <= u32::MAX,
{
    be_bytes_of_u32(payload.len() as u32) + be_bytes_of_u32(identifier) + payload
}

/// Builds the frame that carries `data_packet` on the wire.
pub fn encode_packet(data_packet: &DataPacket) -> (packet: Vec<u8>)
    requires
        data_packet.bytes@.len() <= u32::MAX,
    ensures
        packet@ == frame_bytes(data_packet.identifier, data_packet.bytes@),
{
    let bytes = &data_packet.bytes;
    let identifier = data_packet.identifier;
    let packet_size = bytes.len() as u32;
    let packet_size_bytes = split_u32_into_u8s(packet_size);
    let mut packet: Vec<u8> = Vec::new();
    let mut i: usize = 0;
    while i < 4
        invariant
            i <= 4,
            packet_size_bytes@ == be_bytes_of_u32(packet_size),
            packet@ == be_bytes_of_u32(packet_size).take(i as int),
        decreases 4 - i,
    {
        packet.push(packet_size_bytes[i]);
        i = i + 1;
        proof {
            assert(packet@ =~= be_bytes_of_u32(packet_size).take(i as int));
        }
    }
    let identifier_bytes = split_u32_into_u8s(identifier);
    let mut j: usize = 0;
    while j < 4
        invariant
            j <= 4,
            identifier_bytes@ == be_bytes_of_u32(identifier),
            packet@ == be_bytes_of_u32(packet_size) + be_bytes_of_u32(identifier).take(j as int),
        decreases 4 - j,
    {
        packet.push(identifier_bytes[j]);
        j = j + 1;
        proof {
            assert(packet@ =~= be_bytes_of_u32(packet_size) + be_bytes_of_u32(identifier).take(
                j as int,
            ));
        }
    }
    let mut k: usize = 0;
    while k < bytes.len()
        invariant
            k <= bytes@.len(),
            packet@ == be_bytes_of_u32(packet_size) + be_bytes_of_u32(identifier) + bytes@.take(
                k as int,
            ),
        decreases bytes@.len() - k,
    {
        packet.push(bytes[k]);
        k = k + 1;
        proof {
            assert(packet@ =~= be_bytes_of_u32(packet_size) + be_bytes_of_u32(identifier)
                + bytes@.take(k as int));
        }
    }
    proof {
        assert(packet@ =~= frame_bytes(data_packet.identifier, data_packet.bytes@));
    }
    packet
}

/// The payload length announced by the first four bytes of `s`.
pub open spec fn header_len(s: Seq<u8>) -> int
    recommends
        s.len() >= 4,
{
    u32_of_be_bytes(s.subrange(0, 4)) as int
}

/// Whether `s` starts with a whole frame: a full header and at least as many
/// payload bytes as the header announces.
pub open spec fn has_complete_frame(s: Seq<u8>) -> bool {
    s.len() >= 8 && s.len() >= 8 + header_len(s)
}

/// The identifier and payload of the frame at the front of `s`.
pub open spec fn first_frame(s: Seq<u8>) -> (u32, Seq<u8>)
    recommends
        has_complete_frame(s),
{
    (u32_of_be_bytes(s.subrange(4, 8)), s.subrange(8, 8 + header_len(s)))
}

/// What remains of `s` after the frame at its front.
pub open spec fn rest_after_frame(s: Seq<u8>) -> Seq<u8>
    recommends
        has_complete_frame(s),
{
    s.subrange(8 + header_len(s), s.len() as int)
}

/// Every whole frame at the front of `s`, in order.  A trailing partial frame
/// contributes nothing.
pub open spec fn parse_frames(s: Seq<u8>) -> Seq<(u32, Seq<u8>)>
    decreases s.len(),
{
    if has_complete_frame(s) {
        seq![first_frame(s)] + parse_frames(rest_after_frame(s))
    } else {
        seq![]
    }
}

/// The bytes of `s` left over once every whole frame has been taken off the
/// front: the partial frame still in flight.
pub open spec fn parse_rest(s: Seq<u8>) -> Seq<u8>
    decreases s.len(),
{
    if has_complete_frame(s) {
        parse_rest(rest_after_frame(s))
    } else {
        s
    }
}

/// Reading the first four bytes back out of the big-endian encoding recovers
/// each byte.
proof fn lemma_be_bytes_inverse(b: Seq<u8>)
    requires
        b.len() == 4,
    ensures
        be_bytes_of_u32(u32_of_be_bytes(b)) == b,
{
    let b0 = b[0];
    let b1 = b[1];
    let b2 = b[2];
    let b3 = b[3];
    let v = u32_of_be_bytes(b);
    assert(v == (((b0 as u32) << 24) | ((b1 as u32) << 16) | ((b2 as u32) << 8) | (b3 as u32)));
    assert({
        let v = (((b0 as u32) << 24) | ((b1 as u32) << 16) | ((b2 as u32) << 8) | (b3 as u32));
        ((v >> 24) & 0xff) as u8 == b0 && ((v >> 16) & 0xff) as u8 == b1 && ((v >> 8) & 0xff) as u8
            == b2 && (v & 0xff) as u8 == b3
    }) by (bit_vector);
    assert(be_bytes_of_u32(v) =~= b);
}

/// A sequence that is exactly one whole frame parses to that frame alone.
proof fn lemma_parse_single_frame(f: Seq<u8>)
    requires
        has_complete_frame(f),
        f.len() == 8 + header_len(f),
    ensures
        parse_frames(f) == seq![first_frame(f)],
        parse_rest(f) == Seq::<u8>::empty(),
{
    assert(rest_after_frame(f) =~= Seq::<u8>::empty());
    assert(!has_complete_frame(Seq::<u8>::empty()));
    assert(parse_frames(Seq::<u8>::empty()) == Seq::<(u32, Seq<u8>)>::empty());
    assert(parse_rest(Seq::<u8>::empty()) == Seq::<u8>::empty());
    assert(parse_frames(f) =~= seq![first_frame(f)]);
}

/// Parsing a whole frame followed by anything else yields that frame and then
/// the parse of what follows.
proof fn lemma_parse_prepend_frame(f: Seq<u8>, r: Seq<u8>)
    requires
        has_complete_frame(f),
        f.len() == 8 + header_len(f),
    ensures
        parse_frames(f + r) == seq![first_frame(f)] + parse_frames(r),
        parse_rest(f + r) == parse_rest(r),
{
    let s = f + r;
    assert(s.subrange(0, 4) =~= f.subrange(0, 4));
    assert(header_len(s) == header_len(f));
    assert(has_complete_frame(s));
    assert(s.subrange(4, 8) =~= f.subrange(4, 8));
    assert(s.subrange(8, 8 + header_len(s)) =~= f.subrange(8, 8 + header_len(f)));
    assert(first_frame(s) == first_frame(f));
    assert(rest_after_frame(s) =~= r);
}

/// Parsing is insensitive to how the byte stream is split into deliveries:
/// extending a stream `s` by `c` adds exactly the frames found in the stream's
/// leftover bytes followed by `c`.
pub proof fn lemma_parse_incremental(s: Seq<u8>, c: Seq<u8>)
    ensures
        parse_frames(s + c) == parse_frames(s) + parse_frames(parse_rest(s) + c),
        parse_rest(s + c) == parse_rest(parse_rest(s) + c),
    decreases s.len(),
{
    if !has_complete_frame(s) {
        assert(parse_frames(s) =~= Seq::<(u32, Seq<u8>)>::empty());
        assert(parse_rest(s) == s);
        assert(parse_frames(s + c) =~= parse_frames(s) + parse_frames(parse_rest(s) + c));
    } else {
        let len = header_len(s);
        let f = s.subrange(0, 8 + len);
        let r = rest_after_frame(s);
        assert(f.subrange(0, 4) =~= s.subrange(0, 4));
        assert(header_len(f) == len);
        assert(has_complete_frame(f));
        assert(s =~= f + r);
        lemma_parse_prepend_frame(f, r);
        assert(parse_frames(s) == seq![first_frame(f)] + parse_frames(r));
        assert(parse_rest(s) == parse_rest(r));
        assert(s + c =~= f + (r + c));
        lemma_parse_prepend_frame(f, r + c);
        lemma_parse_incremental(r, c);
        assert(parse_frames(s + c) =~= parse_frames(s) + parse_frames(parse_rest(s) + c));
    }
}

/// The encoding of one payload is exactly one whole frame, announcing its
/// own identifier and payload.
proof fn lemma_frame_bytes_complete(identifier: u32, payload: Seq<u8>)
    requires
        payload.len() <= u32::MAX,
    ensures
        has_complete_frame(frame_bytes(identifier, payload)),
        frame_bytes(identifier, payload).len() == 8 + header_len(frame_bytes(identifier, payload)),
        first_frame(frame_bytes(identifier, payload)) == (identifier, payload),
{
    let f = frame_bytes(identifier, payload);
    let len = payload.len() as u32;
    assert(f.subrange(0, 4) =~= be_bytes_of_u32(len));
    lemma_be_bytes_roundtrip(len);
    assert(header_len(f) == len as int);
    assert(f.len() == 8 + header_len(f));
    assert(f.subrange(4, 8) =~= be_bytes_of_u32(identifier));
    lemma_be_bytes_roundtrip(identifier);
    assert(f.subrange(8, 8 + header_len(f)) =~= payload);
}

/// Decoding inverts encoding: a stream holding exactly the frame built from
/// `identifier` and `payload` parses back to that one payload, with nothing
/// left over.
pub proof fn lemma_frame_roundtrip(identifier: u32, payload: Seq<u8>)
    requires
        payload.len() <= u32::MAX,
    ensures
        parse_frames(frame_bytes(identifier, payload)) == seq![(identifier, payload)],
        parse_rest(frame_bytes(identifier, payload)) == Seq::<u8>::empty(),
{
    lemma_frame_bytes_complete(identifier, payload);
    lemma_parse_single_frame(frame_bytes(identifier, payload));
}

/// Round-tripping holds frame by frame on a whole stream: an encoded frame
/// followed by anything else parses to that payload and then the parse of
/// what follows.
pub proof fn lemma_frame_stream_roundtrip(identifier: u32, payload: Seq<u8>, rest: Seq<u8>)
    requires
        payload.len() <= u32::MAX,
    ensures
        parse_frames(frame_bytes(identifier, payload) + rest) == seq![(identifier, payload)]
            + parse_frames(rest),
        parse_rest(frame_bytes(identifier, payload) + rest) == parse_rest(rest),
{
    lemma_frame_bytes_complete(identifier, payload);
    lemma_parse_prepend_frame(frame_bytes(identifier, payload), rest);
}

/// Incremental frame decoder: the Reader Loop feeds it whatever bytes a
/// socket read returned, in chunks of any size, and it hands back every
/// payload completed so far.  `buf` holds the partial header while a header
/// is being collected, and the partial payload once a header is complete.
pub struct FrameDecoder {
    pub in_body: bool,
    pub identifier: u32,
    pub total: u32,
    pub buf: Vec<u8>,
}

impl FrameDecoder {
    /// A decoder never holds a whole frame: completed frames leave at once.
    pub open spec fn wf(self) -> bool {
        if self.in_body {
            self.buf@.len() < self.total
        } else {
            self.buf@.len() < 8
        }
    }

    /// The bytes consumed from the stream but not yet returned as a payload:
    /// the partial frame in flight.
    pub open spec fn pending(self) -> Seq<u8> {
        if self.in_body {
            be_bytes_of_u32(self.total) + be_bytes_of_u32(self.identifier) + self.buf@
        } else {
            self.buf@
        }
    }

    pub fn new() -> (decoder: Self)
        ensures
            decoder.wf(),
            decoder.pending() == Seq::<u8>::empty(),
    {
        let decoder = FrameDecoder { in_body: false, identifier: 0, total: 0, buf: Vec::new() };
        proof {
            assert(decoder.pending() =~= Seq::<u8>::empty());
        }
        decoder
    }

    proof fn lemma_pending_incomplete(self)
        requires
            self.wf(),
        ensures
            !has_complete_frame(self.pending()),
    {
        if self.in_body {
            let p = self.pending();
            assert(p.subrange(0, 4) =~= be_bytes_of_u32(self.total));
            lemma_be_bytes_roundtrip(self.total);
            assert(header_len(p) == self.total as int);
            assert(p.len() == 8 + self.buf@.len());
        }
    }

    /// Feeds one byte into the partial frame; if it completes a frame, the
    /// decoded payload comes back.
    fn push_byte(&mut self, byte: u8) -> (done: Option<DataPacket>)
        requires
            old(self).wf(),
        ensures
            final(self).wf(),
            match done {
                Option::Some(packet) => {
                    &&& parse_frames(old(self).pending() + seq![byte]) == seq![packet@]
                    &&& parse_rest(old(self).pending() + seq![byte]) == Seq::<u8>::empty()
                    &&& final(self).pending() == Seq::<u8>::empty()
                },
                Option::None => {
                    &&& parse_frames(old(self).pending() + seq![byte]) == Seq::<(
                        u32,
                        Seq<u8>,
                    )>::empty()
                    &&& parse_rest(old(self).pending() + seq![byte]) == old(self).pending()
                        + seq![byte]
                    &&& final(self).pending() == old(self).pending() + seq![byte]
                },
            },
    {
        proof {
            old(self).lemma_pending_incomplete();
        }
        if !self.in_body {
            self.buf.push(byte);
            if self.buf.len() == 8 {
                let len_arr = [self.buf[0], self.buf[1], self.buf[2], self.buf[3]];
                let id_arr = [self.buf[4], self.buf[5], self.buf[6], self.buf[7]];
                let total = combine_u8s_into_u32(len_arr);
                let identifier = combine_u8s_into_u32(id_arr);
                proof {
                    let h = old(self).pending() + seq![byte];
                    assert(h =~= self.buf@);
                    assert(len_arr@ =~= h.subrange(0, 4));
                    assert(id_arr@ =~= h.subrange(4, 8));
                    lemma_be_bytes_inverse(h.subrange(0, 4));
                    lemma_be_bytes_inverse(h.subrange(4, 8));
                }
                self.buf.clear();
                if total == 0 {
                    let packet = DataPacket { identifier, bytes: Vec::new() };
                    proof {
                        let h = old(self).pending() + seq![byte];
                        assert(has_complete_frame(h));
                        assert(h.len() == 8 + header_len(h));
                        lemma_parse_single_frame(h);
                        assert(first_frame(h).1 =~= packet.bytes@);
                    }
                    Option::Some(packet)
                } else {
                    self.in_body = true;
                    self.identifier = identifier;
                    self.total = total;
                    proof {
                        let h = old(self).pending() + seq![byte];
                        assert(!has_complete_frame(h));
                        assert(self.pending() =~= h);
                    }
                    Option::None
                }
            } else {
                proof {
                    let h = old(self).pending() + seq![byte];
                    assert(h =~= self.buf@);
                    assert(!has_complete_frame(h));
                }
                Option::None
            }
        } else {
            self.buf.push(byte);
            if self.buf.len() == self.total as usize {
                let identifier = self.identifier;
                let mut data: Vec<u8> = Vec::new();
                core::mem::swap(&mut data, &mut self.buf);
                self.in_body = false;
                self.identifier = 0;
                self.total = 0;
                let packet = DataPacket { identifier, bytes: data };
                proof {
                    let h = old(self).pending() + seq![byte];
                    assert(h =~= be_bytes_of_u32(old(self).total) + be_bytes_of_u32(
                        old(self).identifier,
                    ) + packet.bytes@);
                    assert(h.subrange(0, 4) =~= be_bytes_of_u32(old(self).total));
                    lemma_be_bytes_roundtrip(old(self).total);
                    assert(header_len(h) == old(self).total as int);
                    assert(has_complete_frame(h));
                    assert(h.len() == 8 + header_len(h));
                    lemma_parse_single_frame(h);
                    assert(h.subrange(4, 8) =~= be_bytes_of_u32(old(self).identifier));
                    lemma_be_bytes_roundtrip(old(self).identifier);
                    assert(h.subrange(8, 8 + header_len(h)) =~= packet.bytes@);
                    assert(first_frame(h) == packet@);
                    assert(self.pending() =~= Seq::<u8>::empty());
                }
                Option::Some(packet)
            } else {
                proof {
                    let h = old(self).pending() + seq![byte];
                    assert(h.subrange(0, 4) =~= be_bytes_of_u32(self.total));
                    lemma_be_bytes_roundtrip(self.total);
                    assert(header_len(h) == self.total as int);
                    assert(!has_complete_frame(h));
                    assert(self.pending() =~= h);
                }
                Option::None
            }
        }
    }

    /// How many bytes the Reader Loop should ask the socket for next: the
    /// rest of the 8-byte header, then the rest of the announced payload in
    /// chunks of at most [`CHUNK_SIZE`] bytes.  Always at least one byte.
    pub fn next_read_len(&self) -> (n: usize)
        requires
            self.wf(),
        ensures
            1 <= n <= 8 || n <= CHUNK_SIZE,
            n == (if !self.in_body {
                8 - self.buf@.len()
            } else if self.total - self.buf@.len() <= CHUNK_SIZE {
                self.total - self.buf@.len()
            } else {
                CHUNK_SIZE as int
            }),
    {
        if !self.in_body {
            8 - self.buf.len()
        } else {
            let remaining = self.total as usize - self.buf.len();
            if remaining <= CHUNK_SIZE {
                remaining
            } else {
                CHUNK_SIZE
            }
        }
    }

    /// Consumes one delivery of stream bytes, of any size and alignment, and
    /// returns every payload whose frame is now complete, in stream order.
    /// The result depends only on the total byte stream consumed so far, not
    /// on how reads split it.
    pub fn push(&mut self, chunk: &Vec<u8>) -> (out: Vec<DataPacket>)
        requires
            old(self).wf(),
        ensures
            final(self).wf(),
            out@.map_values(|packet: DataPacket| packet@) == parse_frames(
                old(self).pending() + chunk@,
            ),
            final(self).pending() == parse_rest(old(self).pending() + chunk@),
    {
        let mut out: Vec<DataPacket> = Vec::new();
        let ghost s0 = old(self).pending();
        let mut i: usize = 0;
        proof {
            assert(s0 + chunk@.take(0) =~= s0);
            old(self).lemma_pending_incomplete();
            assert(parse_frames(s0) =~= Seq::<(u32, Seq<u8>)>::empty());
            assert(out@.map_values(|packet: DataPacket| packet@) =~= parse_frames(
                s0 + chunk@.take(0),
            ));
        }
        while i < chunk.len()
            invariant
                i <= chunk@.len(),
                self.wf(),
                out@.map_values(|packet: DataPacket| packet@) == parse_frames(
                    s0 + chunk@.take(i as int),
                ),
                self.pending() == parse_rest(s0 + chunk@.take(i as int)),
            decreases chunk@.len() - i,
        {
            let ghost s_i = s0 + chunk@.take(i as int);
            let byte = chunk[i];
            let done = self.push_byte(byte);
            proof {
                lemma_parse_incremental(s_i, seq![byte]);
                assert(s_i + seq![byte] =~= s0 + chunk@.take(i as int + 1));
            }
            match done {
                Option::Some(packet) => {
                    out.push(packet);
                    proof {
                        assert(out@.map_values(|p: DataPacket| p@) =~= parse_frames(
                            s0 + chunk@.take(i as int + 1),
                        ));
                    }
                },
                Option::None => {
                    proof {
                        assert(out@.map_values(|p: DataPacket| p@) =~= parse_frames(
                            s0 + chunk@.take(i as int + 1),
                        ));
                    }
                },
            }
            i = i + 1;
        }
        proof {
            assert(chunk@.take(chunk@.len() as int) =~= chunk@);
        }
        out
    }
}

} // verus!
