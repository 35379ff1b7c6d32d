//! The channel codec used on every control-plane link: frames are a
//! four-byte big-endian length followed by the payload.  Oversized frames
//! are refused; partial reads are buffered until a frame completes;
//! within one channel, frames come out in the order they were fed in.
//! The socket reads and writes, and the ancillary file-descriptor
//! passing, live outside the library.

use vstd::prelude::*;

verus! {

/// A frame length as four big-endian bytes.
pub open spec fn enc_len(n: u32) -> Seq<u8> {
    seq![
        ((n >> 24) & 0xff) as u8,
        ((n >> 16) & 0xff) as u8,
        ((n >> 8) & 0xff) as u8,
        (n & 0xff) as u8,
    ]
}

/// Reading four big-endian bytes.
pub open spec fn dec_len_at(b: Seq<u8>, pos: int) -> u32 {
    ((b[pos] as u32) << 24) | ((b[pos + 1] as u32) << 16) | ((b[pos + 2] as u32) << 8) | (b[pos + 3]
        as u32)
}

/// Four big-endian bytes read back as the length they encode.
pub proof fn lemma_len_roundtrip(n: u32, b: Seq<u8>, pos: int)
    requires
        0 <= pos,
        pos + 4 <= b.len(),
        b.subrange(pos, pos + 4) == enc_len(n),
    ensures
        dec_len_at(b, pos) == n,
{
    let s = b.subrange(pos, pos + 4);
    assert(b[pos] == s[0] && b[pos + 1] == s[1] && b[pos + 2] == s[2] && b[pos + 3] == s[3]);
    assert(((((n >> 24) & 0xff) as u8 as u32) << 24) | ((((n >> 16) & 0xff) as u8 as u32) << 16) | (
    (((n >> 8) & 0xff) as u8 as u32) << 8) | ((n & 0xff) as u8 as u32) == n) by (bit_vector);
}

/// One message on the wire: its length, then its bytes.
pub open spec fn enc_frame(payload: Seq<u8>) -> Seq<u8> {
    enc_len(payload.len() as u32) + payload
}

/// Splitting a concatenation found inside a byte string.
pub proof fn lemma_split(b: Seq<u8>, pos: int, s1: Seq<u8>, s2: Seq<u8>)
    requires
        0 <= pos,
        pos + s1.len() + s2.len() <= b.len(),
        b.subrange(pos, pos + s1.len() + s2.len()) == s1 + s2,
    ensures
        b.subrange(pos, pos + s1.len()) == s1,
        b.subrange(pos + s1.len(), pos + s1.len() + s2.len()) == s2,
{
    let whole = b.subrange(pos, pos + s1.len() + s2.len());
    assert(b.subrange(pos, pos + s1.len()) =~= s1) by {
        assert forall|i: int| 0 <= i < s1.len() implies b.subrange(pos, pos + s1.len())[i]
            == s1[i] by {
            assert(whole[i] == (s1 + s2)[i]);
        }
    }
    assert(b.subrange(pos + s1.len(), pos + s1.len() + s2.len()) =~= s2) by {
        assert forall|i: int| 0 <= i < s2.len() implies b.subrange(
            pos + s1.len(),
            pos + s1.len() + s2.len(),
        )[i] == s2[i] by {
            assert(whole[s1.len() + i] == (s1 + s2)[s1.len() + i]);
        }
    }
}

/// Why a frame could not be sent or received.
#[derive(Debug, Clone, Copy, PartialEq, Eq, Structural, Hash)]
pub enum ChannelError {
    /// the payload exceeds the configured frame size
    FrameTooLarge,
    /// the bytes on the wire announce a frame above the configured size:
    /// the peer is broken and must be disconnected
    Malformed,
}

/// Frames a message for the wire: its four-byte big-endian length, then
/// its bytes.  Refused when the payload exceeds the frame size cap.
pub fn encode_frame(payload: &Vec<u8>, max_frame_size: usize) -> (r: Result<Vec<u8>, ChannelError>)
    requires
        max_frame_size + 4 <= usize::MAX,
        max_frame_size <= u32::MAX,
    ensures
        match r {
            Result::Ok(f) => payload@.len() <= max_frame_size && f@ == enc_frame(payload@),
            Result::Err(e) => e == ChannelError::FrameTooLarge && payload@.len() > max_frame_size,
        },
{
    if payload.len() > max_frame_size {
        return Result::Err(ChannelError::FrameTooLarge);
    }
    let n = payload.len() as u32;
    let mut f: Vec<u8> = Vec::new();
    f.push(((n >> 24) & 0xff) as u8);
    f.push(((n >> 16) & 0xff) as u8);
    f.push(((n >> 8) & 0xff) as u8);
    f.push((n & 0xff) as u8);
    proof {
        assert(f@ =~= enc_len(n));
    }
    let mut i: usize = 0;
    while i < payload.len()
        invariant
            0 <= i <= payload@.len(),
            payload@.len() <= max_frame_size,
            max_frame_size + 4 <= usize::MAX,
            f@ == enc_len(payload@.len() as u32) + payload@.subrange(0, i as int),
        decreases payload@.len() - i,
    {
        f.push(payload[i]);
        proof {
            assert(f@ =~= enc_len(payload@.len() as u32) + payload@.subrange(0, i + 1));
        }
        i += 1;
    }
    proof {
        assert(payload@.subrange(0, payload@.len() as int) =~= payload@);
    }
    Result::Ok(f)
}

/// The receive side of a channel: bytes read from the socket are fed in
/// as they arrive and complete frames are taken out, in arrival order.
#[derive(Debug, Clone, PartialEq, Eq)]
pub struct FrameBuffer {
    pub data: Vec<u8>,
}

impl FrameBuffer {
    /// An empty receive buffer.
    pub fn new() -> (r: FrameBuffer)
        ensures
            r.data@.len() == 0,
    {
        let r = FrameBuffer { data: Vec::new() };
        r
    }

    /// Buffers bytes read from the socket, behind what is already there.
    pub fn feed(&mut self, chunk: &Vec<u8>)
        requires
            old(self).data@.len() + chunk@.len() <= usize::MAX,
        ensures
            final(self).data@ == old(self).data@ + chunk@,
    {
        let mut i: usize = 0;
        while i < chunk.len()
            invariant
                0 <= i <= chunk@.len(),
                old(self).data@.len() + chunk@.len() <= usize::MAX,
                self.data@ == old(self).data@ + chunk@.subrange(0, i as int),
            decreases chunk@.len() - i,
        {
            self.data.push(chunk[i]);
            proof {
                assert(self.data@ =~= old(self).data@ + chunk@.subrange(0, i + 1));
            }
            i += 1;
        }
        proof {
            assert(chunk@.subrange(0, chunk@.len() as int) =~= chunk@);
        }
    }

    /// Takes the next complete frame out of the buffer, if one has fully
    /// arrived.  A frame announcing more than the configured size is
    /// malformed: the peer must be disconnected.
    pub fn next_frame(&mut self, max_frame_size: usize) -> (r: Result<
        Option<Vec<u8>>,
        ChannelError,
    >)
        requires
            max_frame_size <= u32::MAX,
        ensures
            match r {
                Result::Ok(Option::None) => final(self).data@ == old(self).data@ && (old(
                    self,
                ).data@.len() < 4 || old(self).data@.len() < 4 + dec_len_at(old(self).data@, 0)),
                Result::Ok(Option::Some(p)) => p@.len() <= max_frame_size && old(self).data@
                    == enc_frame(p@) + final(self).data@,
                Result::Err(e) => e == ChannelError::Malformed && final(self).data@ == old(
                    self,
                ).data@ && old(self).data@.len() >= 4 && dec_len_at(old(self).data@, 0)
                    > max_frame_size,
            },
    {
        if self.data.len() < 4 {
            return Result::Ok(Option::None);
        }
        let n = ((self.data[0] as u32) << 24) | ((self.data[1] as u32) << 16) | ((self.data[2]
            as u32) << 8) | (self.data[3] as u32);
        if n > max_frame_size as u32 {
            return Result::Err(ChannelError::Malformed);
        }
        let count = n as usize;
        if self.data.len() - 4 < count {
            return Result::Ok(Option::None);
        }
        let mut payload: Vec<u8> = Vec::new();
        let mut i: usize = 0;
        while i < count
            invariant
                0 <= i <= count,
                4 + count <= self.data@.len(),
                self.data@.len() <= usize::MAX,
                *self == *old(self),
                payload@ == self.data@.subrange(4, 4 + i),
            decreases count - i,
        {
            payload.push(self.data[4 + i]);
            proof {
                assert(payload@ =~= self.data@.subrange(4, 4 + i + 1));
            }
            i += 1;
        }
        let mut rest: Vec<u8> = Vec::new();
        let mut j: usize = 4 + count;
        while j < self.data.len()
            invariant
                4 + count <= j <= self.data@.len(),
                *self == *old(self),
                rest@ == self.data@.subrange(4 + count, j as int),
            decreases self.data@.len() - j,
        {
            rest.push(self.data[j]);
            proof {
                assert(rest@ =~= self.data@.subrange(4 + count, j + 1));
            }
            j += 1;
        }
        proof {
            let d = self.data@;
            let d0 = d[0];
            let d1 = d[1];
            let d2 = d[2];
            let d3 = d[3];
            assert(n == ((d0 as u32) << 24) | ((d1 as u32) << 16) | ((d2 as u32) << 8) | (d3
                as u32));
            assert({
                let w = ((d0 as u32) << 24) | ((d1 as u32) << 16) | ((d2 as u32) << 8) | (d3
                    as u32);
                (((w >> 24) & 0xff) as u8) == d0 && (((w >> 16) & 0xff) as u8) == d1 && (((w >> 8)
                    & 0xff) as u8) == d2 && ((w & 0xff) as u8) == d3
            }) by (bit_vector);
            assert(d.subrange(0, 4) =~= enc_len(n));
            assert(d =~= enc_len(n) + payload@ + rest@);
            assert(payload@.len() == count == n);
            assert(enc_frame(payload@) =~= enc_len(n) + payload@);
            assert(d =~= enc_frame(payload@) + rest@);
        }
        self.data = rest;
        Result::Ok(Option::Some(payload))
    }
}

/// Feeding one framed message into an empty buffer and taking the next
/// frame yields that message back, whole, with nothing left over: framing
/// round-trips, and what is fed first comes out first.
pub proof fn lemma_frame_roundtrip(payload: Seq<u8>, rest: Seq<u8>, buffer: Seq<u8>)
    requires
        buffer == enc_frame(payload) + rest,
        payload.len() <= u32::MAX,
    ensures
        buffer.len() >= 4,
        dec_len_at(buffer, 0) == payload.len(),
        buffer.subrange(4, 4 + payload.len() as int) == payload,
{
    assert(buffer.subrange(0, 4 + payload.len() as int) =~= enc_frame(payload));
    lemma_split(buffer, 0, enc_len(payload.len() as u32), payload);
    lemma_len_roundtrip(payload.len() as u32, buffer, 0);
}

} // verus!
