use vstd::prelude::*;
use vstd::string::StringSliceAdditionalSpecFns;

use crate::protocol::{message_of_code, Message};
use crate::globals::{
    Channel, DgBufferResult, DgError, DgResult, DgSize, DoId, Zone, CONTROL_CHANNEL, DG_SIZE_MAX,
};

verus! {

/// The two wire bytes of a 16-bit value, least significant first.
pub open spec fn le_u16(v: u16) -> Seq<u8> {
    seq![v as u8, (v >> 8) as u8]
}

/// The four wire bytes of a 32-bit value, least significant first.
pub open spec fn le_u32(v: u32) -> Seq<u8> {
    seq![v as u8, (v >> 8) as u8, (v >> 16) as u8, (v >> 24) as u8]
}

/// The eight wire bytes of a 64-bit value, least significant first.
pub open spec fn le_u64(v: u64) -> Seq<u8> {
    seq![
        v as u8,
        (v >> 8) as u8,
        (v >> 16) as u8,
        (v >> 24) as u8,
        (v >> 32) as u8,
        (v >> 40) as u8,
        (v >> 48) as u8,
        (v >> 56) as u8,
    ]
}

/// The 16-bit value whose wire bytes open `b`.
pub open spec fn u16_from_le(b: Seq<u8>) -> u16 {
    (b[0] as u16) | ((b[1] as u16) << 8)
}

/// The 32-bit value whose wire bytes open `b`.
pub open spec fn u32_from_le(b: Seq<u8>) -> u32 {
    (b[0] as u32) | ((b[1] as u32) << 8) | ((b[2] as u32) << 16) | ((b[3] as u32) << 24)
}

/// The 64-bit value whose wire bytes open `b`.
pub open spec fn u64_from_le(b: Seq<u8>) -> u64 {
    (b[0] as u64) | ((b[1] as u64) << 8) | ((b[2] as u64) << 16) | ((b[3] as u64) << 24) | ((
    b[4] as u64) << 32) | ((b[5] as u64) << 40) | ((b[6] as u64) << 48) | ((b[7] as u64) << 56)
}

/// The byte that encodes a boolean.
pub open spec fn bool_byte(v: bool) -> u8 {
    if v {
        1
    } else {
        0
    }
}

/// What an append of `bytes` does: it succeeds and extends the buffer when the
/// result stays within the size cap, and otherwise fails and leaves it as it was.
pub open spec fn append_outcome(old: Seq<u8>, bytes: Seq<u8>, r: DgResult, new: Seq<u8>) -> bool {
    if old.len() + bytes.len() <= DG_SIZE_MAX {
        &&& r == Ok::<(), DgError>(())
        &&& new == old + bytes
    } else {
        &&& r == Err::<(), DgError>(DgError::DatagramOverflow)
        &&& new == old
    }
}

/// The wire form of a routing header for internal messages.
pub open spec fn server_header_bytes(to: Seq<Channel>, from: Channel, msg_type: u16) -> Seq<u8>
    recommends
        to.len() < 256,
{
    seq![to.len() as u8] + channels_bytes(to) + le_u64(from) + le_u16(msg_type)
}

/// The wire form of a list of channels, one after the other.
pub open spec fn channels_bytes(to: Seq<Channel>) -> Seq<u8>
    decreases to.len(),
{
    if to.len() == 0 {
        Seq::empty()
    } else {
        channels_bytes(to.drop_last()) + le_u64(to.last())
    }
}

/// The wire form of a routing header for control messages.
pub open spec fn control_header_bytes(msg_type: u16) -> Seq<u8> {
    seq![1u8] + le_u64(CONTROL_CHANNEL) + le_u16(msg_type)
}

/// A bounded, append-only byte buffer: the unit of wire transmission.
pub struct Datagram {
    buffer: Vec<u8>,
}

impl View for Datagram {
    type V = Seq<u8>;

    closed spec fn view(&self) -> Seq<u8> {
        self.buffer@
    }
}

impl Datagram {
    #[verifier::type_invariant]
    spec fn within_cap(&self) -> bool {
        self.buffer@.len() <= DG_SIZE_MAX
    }

    pub fn new() -> (r: Datagram)
        ensures
            r@ == Seq::<u8>::empty(),
    {
        Datagram { buffer: Vec::new() }
    }

    /// Checks whether `length` more bytes fit under the size cap.
    fn check_add_length(&self, length: DgSize) -> (r: DgResult)
        ensures
            r is Ok <==> self@.len() + length <= DG_SIZE_MAX,
            r is Err ==> r == Err::<(), DgError>(DgError::DatagramOverflow),
    {
        proof {
            use_type_invariant(self);
        }
        if self.buffer.len() + length as usize > DG_SIZE_MAX as usize {
            return Err(DgError::DatagramOverflow);
        }
        Ok(())
    }

    /// Moves `bytes` onto the end of the buffer; the caller has checked the cap.
    fn push_bytes(&mut self, bytes: &mut Vec<u8>)
        requires
            old(self)@.len() + old(bytes)@.len() <= DG_SIZE_MAX,
        ensures
            final(self)@ == old(self)@ + old(bytes)@,
    {
        let mut buffer: Vec<u8> = Vec::new();
        std::mem::swap(&mut buffer, &mut self.buffer);
        buffer.append(bytes);
        self.buffer = buffer;
    }

    /// Appends `bytes` when they fit; the whole of them or nothing.
    fn add_bytes(&mut self, mut bytes: Vec<u8>) -> (r: DgResult)
        ensures
            append_outcome(old(self)@, bytes@, r, final(self)@),
    {
        proof {
            use_type_invariant(&*self);
        }
        if bytes.len() > DG_SIZE_MAX as usize {
            return Err(DgError::DatagramOverflow);
        }
        self.check_add_length(bytes.len() as u16)?;
        self.push_bytes(&mut bytes);
        Ok(())
    }

    /// Adds a boolean as the single byte 0x00 or 0x01.
    pub fn add_bool(&mut self, v: bool) -> (r: DgResult)
        ensures
            append_outcome(old(self)@, seq![bool_byte(v)], r, final(self)@),
    {
        if v {
            self.add_u8(1)
        } else {
            self.add_u8(0)
        }
    }

    pub fn add_u8(&mut self, v: u8) -> (r: DgResult)
        ensures
            append_outcome(old(self)@, seq![v], r, final(self)@),
    {
        let bytes: Vec<u8> = vec![v];
        proof {
            assert(bytes@ =~= seq![v]);
        }
        self.add_bytes(bytes)
    }

    pub fn add_u16(&mut self, v: u16) -> (r: DgResult)
        ensures
            append_outcome(old(self)@, le_u16(v), r, final(self)@),
    {
        let bytes: Vec<u8> = vec![v as u8, (v >> 8) as u8];
        proof {
            assert(bytes@ =~= le_u16(v));
        }
        self.add_bytes(bytes)
    }

    pub fn add_u32(&mut self, v: u32) -> (r: DgResult)
        ensures
            append_outcome(old(self)@, le_u32(v), r, final(self)@),
    {
        let bytes: Vec<u8> = vec![v as u8, (v >> 8) as u8, (v >> 16) as u8, (v >> 24) as u8];
        proof {
            assert(bytes@ =~= le_u32(v));
        }
        self.add_bytes(bytes)
    }

    pub fn add_u64(&mut self, v: u64) -> (r: DgResult)
        ensures
            append_outcome(old(self)@, le_u64(v), r, final(self)@),
    {
        let bytes: Vec<u8> = vec![
            v as u8,
            (v >> 8) as u8,
            (v >> 16) as u8,
            (v >> 24) as u8,
            (v >> 32) as u8,
            (v >> 40) as u8,
            (v >> 48) as u8,
            (v >> 56) as u8,
        ];
        proof {
            assert(bytes@ =~= le_u64(v));
        }
        self.add_bytes(bytes)
    }

    // Signed integers travel as their two's complement bit pattern.
    pub fn add_i8(&mut self, v: i8) -> (r: DgResult)
        ensures
            append_outcome(old(self)@, seq![v as u8], r, final(self)@),
    {
        self.add_u8(v as u8)
    }

    pub fn add_i16(&mut self, v: i16) -> (r: DgResult)
        ensures
            append_outcome(old(self)@, le_u16(v as u16), r, final(self)@),
    {
        self.add_u16(v as u16)
    }

    pub fn add_i32(&mut self, v: i32) -> (r: DgResult)
        ensures
            append_outcome(old(self)@, le_u32(v as u32), r, final(self)@),
    {
        self.add_u32(v as u32)
    }

    pub fn add_i64(&mut self, v: i64) -> (r: DgResult)
        ensures
            append_outcome(old(self)@, le_u64(v as u64), r, final(self)@),
    {
        self.add_u64(v as u64)
    }

    /// Adds a datagram or field length tag.
    pub fn add_size(&mut self, v: DgSize) -> (r: DgResult)
        ensures
            append_outcome(old(self)@, le_u16(v), r, final(self)@),
    {
        self.add_u16(v)
    }

    /// Adds a 64-bit channel id.
    pub fn add_channel(&mut self, v: Channel) -> (r: DgResult)
        ensures
            append_outcome(old(self)@, le_u64(v), r, final(self)@),
    {
        self.add_u64(v)
    }

    /// Adds a 32-bit distributed object id.
    pub fn add_doid(&mut self, v: DoId) -> (r: DgResult)
        ensures
            append_outcome(old(self)@, le_u32(v), r, final(self)@),
    {
        self.add_u32(v)
    }

    /// Adds a 32-bit zone id.
    pub fn add_zone(&mut self, v: Zone) -> (r: DgResult)
        ensures
            append_outcome(old(self)@, le_u32(v), r, final(self)@),
    {
        self.add_u32(v)
    }

    /// Adds a parent object id followed by a zone id, both or neither.
    pub fn add_location(&mut self, parent: DoId, zone: Zone) -> (r: DgResult)
        ensures
            append_outcome(old(self)@, le_u32(parent) + le_u32(zone), r, final(self)@),
    {
        self.check_add_length(8)?;
        let r1 = self.add_u32(parent);
        let r2 = self.add_u32(zone);
        proof {
            assert(r1 is Ok && r2 is Ok);
            assert(final(self)@ =~= old(self)@ + (le_u32(parent) + le_u32(zone)));
        }
        Ok(())
    }

    /// Adds raw bytes, with no length tag.
    pub fn add_data(&mut self, v: Vec<u8>) -> (r: DgResult)
        ensures
            append_outcome(old(self)@, v@, r, final(self)@),
    {
        self.add_bytes(v)
    }

    /// Appends the bytes of another datagram.
    pub fn add_datagram(&mut self, dg: Datagram) -> (r: DgResult)
        ensures
            append_outcome(old(self)@, dg@, r, final(self)@),
    {
        self.add_bytes(dg.buffer)
    }

    /// Adds a string as a 16-bit byte length followed by its UTF-8 bytes.
    pub fn add_string(&mut self, v: &str) -> (r: DgResult)
        ensures
            v.spec_bytes().len() <= DG_SIZE_MAX ==> append_outcome(
                old(self)@,
                le_u16(v.spec_bytes().len() as u16) + v.spec_bytes(),
                r,
                final(self)@,
            ),
            v.spec_bytes().len() > DG_SIZE_MAX ==> r == Err::<(), DgError>(
                DgError::DatagramOverflow,
            ) && final(self)@ == old(self)@,
    {
        let bytes: &[u8] = v.as_bytes();
        let n: usize = bytes.len();
        if n > DG_SIZE_MAX as usize {
            return Err(DgError::DatagramOverflow);
        }
        let mut body: Vec<u8> = slice_to_vec(bytes);
        self.add_tagged(&mut body)
    }

    /// Adds a blob as a 16-bit byte length followed by its bytes.
    pub fn add_blob(&mut self, v: Vec<u8>) -> (r: DgResult)
        ensures
            v@.len() <= DG_SIZE_MAX ==> append_outcome(
                old(self)@,
                le_u16(v@.len() as u16) + v@,
                r,
                final(self)@,
            ),
            v@.len() > DG_SIZE_MAX ==> r == Err::<(), DgError>(DgError::DatagramOverflow)
                && final(self)@ == old(self)@,
    {
        let mut body = v;
        if body.len() > DG_SIZE_MAX as usize {
            return Err(DgError::DatagramOverflow);
        }
        self.add_tagged(&mut body)
    }

    /// Adds a 16-bit length tag and then `body`, both or neither.
    fn add_tagged(&mut self, body: &mut Vec<u8>) -> (r: DgResult)
        requires
            old(body)@.len() <= DG_SIZE_MAX,
        ensures
            append_outcome(
                old(self)@,
                le_u16(old(body)@.len() as u16) + old(body)@,
                r,
                final(self)@,
            ),
    {
        proof {
            use_type_invariant(&*self);
        }
        let n: u16 = body.len() as u16;
        if self.buffer.len() + 2 + body.len() > DG_SIZE_MAX as usize {
            return Err(DgError::DatagramOverflow);
        }
        let r1 = self.add_u16(n);
        assert(r1 is Ok);
        self.push_bytes(body);
        proof {
            assert(final(self)@ =~= old(self)@ + (le_u16(n) + old(body)@));
        }
        Ok(())
    }

    /// Reserves `bytes` zero bytes and returns the offset at which they start.
    pub fn add_buffer(&mut self, bytes: DgSize) -> (r: DgBufferResult)
        ensures
            old(self)@.len() + bytes <= DG_SIZE_MAX ==> r == Ok::<DgSize, DgError>(
                old(self)@.len() as DgSize,
            ) && final(self)@ == old(self)@ + Seq::new(bytes as nat, |i: int| 0u8),
            old(self)@.len() + bytes > DG_SIZE_MAX ==> r == Err::<DgSize, DgError>(
                DgError::DatagramOverflow,
            ) && final(self)@ == old(self)@,
    {
        self.check_add_length(bytes)?;
        let start: DgSize = self.buffer.len() as DgSize;
        let mut zeros: Vec<u8> = Vec::new();
        let mut n: u16 = 0;
        while n < bytes
            invariant
                n <= bytes,
                zeros@ == Seq::new(n as nat, |i: int| 0u8),
            decreases bytes - n,
        {
            zeros.push(0);
            n = n + 1;
            proof {
                assert(zeros@ =~= Seq::new(n as nat, |i: int| 0u8));
            }
        }
        self.push_bytes(&mut zeros);
        Ok(start)
    }

    /// Adds the routing header of an internal message: the recipient count,
    /// each recipient, the sender and the message type.
    pub fn add_server_header(&mut self, to: Vec<Channel>, from: Channel, msg_type: u16) -> (r:
        DgResult)
        ensures
            to@.len() < 256 ==> append_outcome(
                old(self)@,
                server_header_bytes(to@, from, msg_type),
                r,
                final(self)@,
            ),
            to@.len() >= 256 ==> r == Err::<(), DgError>(DgError::DatagramOverflow)
                && final(self)@ == old(self)@,
    {
        proof {
            use_type_invariant(&*self);
        }
        if to.len() > 255 {
            return Err(DgError::DatagramOverflow);
        }
        if self.buffer.len() + 1 + 8 * to.len() + 8 + 2 > DG_SIZE_MAX as usize {
            proof {
                lemma_channels_bytes_len(to@);
            }
            return Err(DgError::DatagramOverflow);
        }
        let r0 = self.add_u8(to.len() as u8);
        assert(r0 is Ok);
        let mut i: usize = 0;
        while i < to.len()
            invariant
                i <= to@.len(),
                to@.len() < 256,
                old(self)@.len() + 1 + 8 * to@.len() + 8 + 2 <= DG_SIZE_MAX,
                self@ == old(self)@ + seq![to@.len() as u8] + channels_bytes(to@.subrange(0, i as int)),
            decreases to@.len() - i,
        {
            proof {
                lemma_channels_bytes_len(to@.subrange(0, i as int));
            }
            let ri = self.add_channel(to[i]);
            assert(ri is Ok);
            proof {
                let s = to@.subrange(0, i as int + 1);
                assert(s.drop_last() =~= to@.subrange(0, i as int));
                assert(s.last() == to@[i as int]);
            }
            i = i + 1;
        }
        proof {
            assert(to@.subrange(0, to@.len() as int) =~= to@);
            lemma_channels_bytes_len(to@);
        }
        let rf = self.add_channel(from);
        assert(rf is Ok);
        let rt = self.add_u16(msg_type);
        assert(rt is Ok);
        proof {
            assert(final(self)@ =~= old(self)@ + server_header_bytes(to@, from, msg_type));
        }
        Ok(())
    }

    /// Adds the routing header of a control message: the one control channel as
    /// recipient, no sender, and the message type.
    pub fn add_control_header(&mut self, msg_type: u16) -> (r: DgResult)
        ensures
            append_outcome(old(self)@, control_header_bytes(msg_type), r, final(self)@),
    {
        self.check_add_length(11)?;
        let r0 = self.add_u8(1);
        assert(r0 is Ok);
        let r1 = self.add_channel(CONTROL_CHANNEL);
        assert(r1 is Ok);
        let r2 = self.add_u16(msg_type);
        assert(r2 is Ok);
        proof {
            assert(final(self)@ =~= old(self)@ + control_header_bytes(msg_type));
        }
        Ok(())
    }

    /// The number of bytes held.
    pub fn size(&self) -> (r: DgSize)
        ensures
            r == self@.len(),
    {
        proof {
            use_type_invariant(self);
        }
        self.buffer.len() as DgSize
    }

    /// A copy of the bytes held; the datagram keeps its own.
    pub fn get_data(&self) -> (r: Vec<u8>)
        ensures
            r@ == self@,
    {
        let mut copy: Vec<u8> = Vec::new();
        let mut i: usize = 0;
        while i < self.buffer.len()
            invariant
                i <= self.buffer@.len(),
                copy@ == self.buffer@.subrange(0, i as int),
            decreases self.buffer@.len() - i,
        {
            copy.push(self.buffer[i]);
            i = i + 1;
            proof {
                assert(copy@ =~= self.buffer@.subrange(0, i as int));
            }
        }
        proof {
            assert(copy@ =~= self.buffer@);
        }
        copy
    }

    /// The byte at `pos`.
    fn byte_at(&self, pos: usize) -> (r: u8)
        requires
            pos < self@.len(),
        ensures
            r == self@[pos as int],
    {
        self.buffer[pos]
    }
}

/// How a read of `n` bytes moves an iterator: when they are there it yields
/// `value` and moves the cursor past them; otherwise it fails with an
/// end-of-buffer error and the cursor stays. The bytes never change.
pub open spec fn read_step<T>(
    old: DatagramIterator,
    new: DatagramIterator,
    n: nat,
    r: Result<T, DgError>,
    value: T,
) -> bool {
    &&& new.data() == old.data()
    &&& if old.pos() + n <= old.data().len() {
        &&& r == Ok::<T, DgError>(value)
        &&& new.pos() == old.pos() + n
    } else {
        &&& r == Err::<T, DgError>(DgError::DatagramIteratorEOF)
        &&& new.pos() == old.pos()
    }
}

/// The offset of the message type in a message envelope with `count` recipients.
pub open spec fn msg_type_offset(count: u8) -> nat {
    (1 + 8 * count + 8) as nat
}

/// The message type of the envelope that opens `data`: the first byte is the
/// recipient count, and the 16-bit type follows the recipients and the sender.
pub open spec fn msg_type_of(data: Seq<u8>) -> Result<Message, DgError> {
    if data.len() == 0 {
        Err(DgError::DatagramIteratorEOF)
    } else {
        let off = msg_type_offset(data[0]);
        if off + 2 > data.len() {
            Err(DgError::DatagramIteratorEOF)
        } else {
            match message_of_code(u16_from_le(data.subrange(off as int, off + 2int))) {
                Some(m) => Ok(m),
                None => Err(DgError::UnknownMessageType),
            }
        }
    }
}

/// A sequential reader over a datagram, with a cursor of its own.
pub struct DatagramIterator {
    datagram: Datagram,
    index: u16,
}

impl DatagramIterator {
    /// The bytes being read.
    pub closed spec fn data(self) -> Seq<u8> {
        self.datagram@
    }

    /// The cursor: the offset of the next byte to read.
    pub closed spec fn pos(self) -> nat {
        self.index as nat
    }

    /// The `n` bytes at the cursor.
    pub open spec fn next_bytes(self, n: nat) -> Seq<u8> {
        self.data().subrange(self.pos() as int, (self.pos() + n) as int)
    }

    pub fn new(dg: Datagram) -> (r: DatagramIterator)
        ensures
            r.data() == dg@,
            r.pos() == 0,
    {
        DatagramIterator { datagram: dg, index: 0 }
    }

    /// Checks whether `bytes` more bytes can be read at the cursor.
    pub fn check_read_length(&self, bytes: DgSize) -> (r: DgResult)
        ensures
            r is Ok <==> self.pos() + bytes <= self.data().len(),
            r is Err ==> r == Err::<(), DgError>(DgError::DatagramIteratorEOF),
    {
        let size: u16 = self.datagram.size();
        if self.index as usize + bytes as usize > size as usize {
            return Err(DgError::DatagramIteratorEOF);
        }
        Ok(())
    }

    /// The cursor position in bytes.
    pub fn tell(&self) -> (r: DgSize)
        ensures
            r == self.pos(),
    {
        self.index
    }

    /// Moves the cursor to `to`.
    pub fn seek(&mut self, to: DgSize)
        ensures
            final(self).data() == old(self).data(),
            final(self).pos() == to,
    {
        self.index = to;
    }

    /// Moves the cursor `bytes` forward, if that stays within the data.
    pub fn skip(&mut self, bytes: DgSize) -> (r: DgResult)
        ensures
            read_step(*old(self), *final(self), bytes as nat, r, ()),
    {
        self.advance(bytes)?;
        Ok(())
    }

    /// Checks a read of `n` bytes and moves past them; returns where they start.
    fn advance(&mut self, n: u16) -> (r: Result<usize, DgError>)
        ensures
            read_step(*old(self), *final(self), n as nat, r, old(self).pos() as usize),
            r is Ok ==> old(self).pos() + n <= old(self).data().len() <= DG_SIZE_MAX,
    {
        proof {
            use_type_invariant(&self.datagram);
        }
        self.check_read_length(n)?;
        let start: u16 = self.index;
        self.index = self.index + n;
        Ok(start as usize)
    }

    /// The number of unread bytes; none once the cursor is past the end.
    pub fn get_remaining(&self) -> (r: DgSize)
        ensures
            r == if self.pos() <= self.data().len() {
                self.data().len() - self.pos()
            } else {
                0
            },
    {
        let size: u16 = self.datagram.size();
        if self.index <= size {
            size - self.index
        } else {
            0
        }
    }

    /// Reads the next `bytes` bytes as they are.
    pub fn read_data(&mut self, bytes: DgSize) -> (r: Result<Vec<u8>, DgError>)
        ensures
            match r {
                Ok(v) => read_step(*old(self), *final(self), bytes as nat, Ok::<Seq<u8>, DgError>(v@), old(self).next_bytes(bytes as nat)),
                Err(e) => read_step(*old(self), *final(self), bytes as nat, Err::<Seq<u8>, DgError>(e), old(self).next_bytes(bytes as nat)),
            },
    {
        let start: usize = self.advance(bytes)?;
        let end: usize = start + bytes as usize;
        let mut out: Vec<u8> = Vec::new();
        let mut i: usize = start;
        while i < end
            invariant
                start <= i <= end,
                end <= self.datagram@.len(),
                out@ == self.datagram@.subrange(start as int, i as int),
            decreases end - i,
        {
            out.push(self.datagram.byte_at(i));
            i = i + 1;
            proof {
                assert(out@ =~= self.datagram@.subrange(start as int, i as int));
            }
        }
        Ok(out)
    }

    pub fn read_u8(&mut self) -> (r: Result<u8, DgError>)
        ensures
            read_step(*old(self), *final(self), 1, r, old(self).next_bytes(1)[0]),
    {
        let start: usize = self.advance(1)?;
        Ok(self.datagram.byte_at(start))
    }

    pub fn read_u16(&mut self) -> (r: Result<u16, DgError>)
        ensures
            read_step(*old(self), *final(self), 2, r, u16_from_le(old(self).next_bytes(2))),
    {
        let start: usize = self.advance(2)?;
        let b0: u8 = self.datagram.byte_at(start);
        let b1: u8 = self.datagram.byte_at(start + 1);
        Ok((b0 as u16) | ((b1 as u16) << 8))
    }

    pub fn read_u32(&mut self) -> (r: Result<u32, DgError>)
        ensures
            read_step(*old(self), *final(self), 4, r, u32_from_le(old(self).next_bytes(4))),
    {
        let start: usize = self.advance(4)?;
        let b0: u8 = self.datagram.byte_at(start);
        let b1: u8 = self.datagram.byte_at(start + 1);
        let b2: u8 = self.datagram.byte_at(start + 2);
        let b3: u8 = self.datagram.byte_at(start + 3);
        Ok((b0 as u32) | ((b1 as u32) << 8) | ((b2 as u32) << 16) | ((b3 as u32) << 24))
    }

    pub fn read_u64(&mut self) -> (r: Result<u64, DgError>)
        ensures
            read_step(*old(self), *final(self), 8, r, u64_from_le(old(self).next_bytes(8))),
    {
        let start: usize = self.advance(8)?;
        let b0: u8 = self.datagram.byte_at(start);
        let b1: u8 = self.datagram.byte_at(start + 1);
        let b2: u8 = self.datagram.byte_at(start + 2);
        let b3: u8 = self.datagram.byte_at(start + 3);
        let b4: u8 = self.datagram.byte_at(start + 4);
        let b5: u8 = self.datagram.byte_at(start + 5);
        let b6: u8 = self.datagram.byte_at(start + 6);
        let b7: u8 = self.datagram.byte_at(start + 7);
        Ok((b0 as u64) | ((b1 as u64) << 8) | ((b2 as u64) << 16) | ((b3 as u64) << 24) | ((
        b4 as u64) << 32) | ((b5 as u64) << 40) | ((b6 as u64) << 48) | ((b7 as u64) << 56))
    }

    pub fn read_i8(&mut self) -> (r: Result<i8, DgError>)
        ensures
            read_step(*old(self), *final(self), 1, r, old(self).next_bytes(1)[0] as i8),
    {
        let v: u8 = self.read_u8()?;
        Ok(v as i8)
    }

    pub fn read_i16(&mut self) -> (r: Result<i16, DgError>)
        ensures
            read_step(*old(self), *final(self), 2, r, u16_from_le(old(self).next_bytes(2)) as i16),
    {
        let v: u16 = self.read_u16()?;
        Ok(v as i16)
    }

    pub fn read_i32(&mut self) -> (r: Result<i32, DgError>)
        ensures
            read_step(*old(self), *final(self), 4, r, u32_from_le(old(self).next_bytes(4)) as i32),
    {
        let v: u32 = self.read_u32()?;
        Ok(v as i32)
    }

    pub fn read_i64(&mut self) -> (r: Result<i64, DgError>)
        ensures
            read_step(*old(self), *final(self), 8, r, u64_from_le(old(self).next_bytes(8)) as i64),
    {
        let v: u64 = self.read_u64()?;
        Ok(v as i64)
    }

    /// Reads one byte as a boolean: true exactly when it is 0x01.
    pub fn read_bool(&mut self) -> (r: Result<bool, DgError>)
        ensures
            read_step(*old(self), *final(self), 1, r, old(self).next_bytes(1)[0] == 1),
    {
        let v: u8 = self.read_u8()?;
        Ok(v == 1)
    }

    /// Reads a 16-bit length tag.
    pub fn read_size(&mut self) -> (r: Result<DgSize, DgError>)
        ensures
            read_step(*old(self), *final(self), 2, r, u16_from_le(old(self).next_bytes(2))),
    {
        self.read_u16()
    }

    /// Reads a 64-bit channel id.
    pub fn read_channel(&mut self) -> (r: Result<Channel, DgError>)
        ensures
            read_step(*old(self), *final(self), 8, r, u64_from_le(old(self).next_bytes(8))),
    {
        self.read_u64()
    }

    /// Reads a 32-bit distributed object id.
    pub fn read_doid(&mut self) -> (r: Result<DoId, DgError>)
        ensures
            read_step(*old(self), *final(self), 4, r, u32_from_le(old(self).next_bytes(4))),
    {
        self.read_u32()
    }

    /// Reads a 32-bit zone id.
    pub fn read_zone(&mut self) -> (r: Result<Zone, DgError>)
        ensures
            read_step(*old(self), *final(self), 4, r, u32_from_le(old(self).next_bytes(4))),
    {
        self.read_u32()
    }

    /// The recipient count of the message envelope: its first byte. The cursor
    /// does not move.
    pub fn read_recipient_count(&mut self) -> (r: Result<u8, DgError>)
        ensures
            *final(self) == *old(self),
            r == if old(self).data().len() > 0 {
                Ok::<u8, DgError>(old(self).data()[0])
            } else {
                Err::<u8, DgError>(DgError::DatagramIteratorEOF)
            },
    {
        if self.datagram.size() == 0 {
            return Err(DgError::DatagramIteratorEOF);
        }
        Ok(self.datagram.byte_at(0))
    }

    /// The message type of the envelope, found past the recipients and the
    /// sender. The cursor does not move.
    pub fn read_msg_type(&mut self) -> (r: Result<Message, DgError>)
        ensures
            *final(self) == *old(self),
            r == msg_type_of(old(self).data()),
    {
        let count: u8 = self.read_recipient_count()?;
        let off: usize = 1 + 8 * count as usize + 8;
        let size: u16 = self.datagram.size();
        if off + 2 > size as usize {
            return Err(DgError::DatagramIteratorEOF);
        }
        let b0: u8 = self.datagram.byte_at(off);
        let b1: u8 = self.datagram.byte_at(off + 1);
        let code: u16 = (b0 as u16) | ((b1 as u16) << 8);
        proof {
            let s = self.datagram@.subrange(off as int, off + 2);
            assert(s[0] == b0 && s[1] == b1);
        }
        match Message::from_code(code) {
            Some(m) => Ok(m),
            None => Err(DgError::UnknownMessageType),
        }
    }
}

/// A 16-bit value written after any bytes reads back from where it was written.
pub proof fn lemma_round_trip_u16(prefix: Seq<u8>, x: u16)
    ensures
        u16_from_le((prefix + le_u16(x)).subrange(prefix.len() as int, prefix.len() + 2int)) == x,
        u16_from_le((prefix + le_u16(x)).subrange(prefix.len() as int, prefix.len() + 2int)) as i16
            == x as i16,
{
    let s = (prefix + le_u16(x)).subrange(prefix.len() as int, prefix.len() + 2int);
    assert(s =~= le_u16(x));
    assert(((x as u8) as u16) | ((((x >> 8u16) as u8) as u16) << 8u16) == x) by (bit_vector);
}

/// A 32-bit value written after any bytes reads back from where it was written.
pub proof fn lemma_round_trip_u32(prefix: Seq<u8>, x: u32)
    ensures
        u32_from_le((prefix + le_u32(x)).subrange(prefix.len() as int, prefix.len() + 4int)) == x,
{
    let s = (prefix + le_u32(x)).subrange(prefix.len() as int, prefix.len() + 4int);
    assert(s =~= le_u32(x));
    assert(((x as u8) as u32) | ((((x >> 8u32) as u8) as u32) << 8u32) | ((((x >> 16u32) as u8)
        as u32) << 16u32) | ((((x >> 24u32) as u8) as u32) << 24u32) == x) by (bit_vector);
}

/// A 64-bit value written after any bytes reads back from where it was written.
pub proof fn lemma_round_trip_u64(prefix: Seq<u8>, x: u64)
    ensures
        u64_from_le((prefix + le_u64(x)).subrange(prefix.len() as int, prefix.len() + 8int)) == x,
{
    let s = (prefix + le_u64(x)).subrange(prefix.len() as int, prefix.len() + 8int);
    assert(s =~= le_u64(x));
    assert(((x as u8) as u64) | ((((x >> 8u64) as u8) as u64) << 8u64) | ((((x >> 16u64) as u8)
        as u64) << 16u64) | ((((x >> 24u64) as u8) as u64) << 24u64) | ((((x >> 32u64) as u8)
        as u64) << 32u64) | ((((x >> 40u64) as u8) as u64) << 40u64) | ((((x >> 48u64) as u8)
        as u64) << 48u64) | ((((x >> 56u64) as u8) as u64) << 56u64) == x) by (bit_vector);
}

/// A signed value written after any bytes reads back from where it was written,
/// at each width.
pub proof fn lemma_round_trip_signed(prefix: Seq<u8>, a: i8, b: i16, c: i32, d: i64)
    ensures
        (prefix + seq![a as u8])[prefix.len() as int] as i8 == a,
        u16_from_le((prefix + le_u16(b as u16)).subrange(prefix.len() as int, prefix.len() + 2int))
            as i16 == b,
        u32_from_le((prefix + le_u32(c as u32)).subrange(prefix.len() as int, prefix.len() + 4int))
            as i32 == c,
        u64_from_le((prefix + le_u64(d as u64)).subrange(prefix.len() as int, prefix.len() + 8int))
            as i64 == d,
{
    lemma_round_trip_u16(prefix, b as u16);
    lemma_round_trip_u32(prefix, c as u32);
    lemma_round_trip_u64(prefix, d as u64);
    assert((a as u8) as i8 == a) by (bit_vector);
    assert((b as u16) as i16 == b) by (bit_vector);
    assert((c as u32) as i32 == c) by (bit_vector);
    assert((d as u64) as i64 == d) by (bit_vector);
}

/// A byte or a boolean written after any bytes reads back from where it was written.
pub proof fn lemma_round_trip_u8_bool(prefix: Seq<u8>, x: u8, v: bool)
    ensures
        (prefix + seq![x])[prefix.len() as int] == x,
        ((prefix + seq![bool_byte(v)])[prefix.len() as int] == 1) == v,
{
}

/// Each channel of a list takes eight bytes.
pub proof fn lemma_channels_bytes_len(to: Seq<Channel>)
    ensures
        channels_bytes(to).len() == 8 * to.len(),
    decreases to.len(),
{
    if to.len() > 0 {
        lemma_channels_bytes_len(to.drop_last());
    }
}

/// Copies a byte slice into a new vector.
fn slice_to_vec(s: &[u8]) -> (r: Vec<u8>)
    ensures
        r@ == s@,
{
    let mut v: Vec<u8> = Vec::new();
    let mut i: usize = 0;
    while i < s.len()
        invariant
            i <= s@.len(),
            v@ == s@.subrange(0, i as int),
        decreases s@.len() - i,
    {
        v.push(s[i]);
        i = i + 1;
        proof {
            assert(v@ =~= s@.subrange(0, i as int));
        }
    }
    proof {
        assert(v@ =~= s@);
    }
    v
}

} // verus!
