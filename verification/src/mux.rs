//! The multiplexed stdout/stderr frame protocol.
//!
//! On attach, logs and exec endpoints (without a TTY) the daemon carries
//! two logical byte streams over one connection by prefixing each payload
//! with an 8-byte header: one stream-selector byte, three reserved bytes,
//! and a big-endian 32-bit payload length. This module encodes and decodes
//! that framing; ordering across channels is kept exactly as received.

use vstd::prelude::*;

use crate::errors::Error;

verus! {

/// The logical stream a multiplexed frame belongs to.
#[derive(Clone, Copy, Debug, PartialEq, Eq, Structural)]
pub enum Channel {
    Stdin,
    Stdout,
    Stderr,
}

/// The selector byte the wire format uses for `c`.
pub open spec fn channel_selector(c: Channel) -> u8 {
    match c {
        Channel::Stdin => 0,
        Channel::Stdout => 1,
        Channel::Stderr => 2,
    }
}

/// The channel a valid selector byte denotes.
pub open spec fn selector_channel(b: u8) -> Channel {
    if b == 0 {
        Channel::Stdin
    } else if b == 1 {
        Channel::Stdout
    } else {
        Channel::Stderr
    }
}

/// One demultiplexed frame: the channel it was tagged with and its payload.
#[derive(Clone, Debug, PartialEq, Eq)]
pub struct MuxFrame {
    pub channel: Channel,
    pub payload: Vec<u8>,
}

impl View for MuxFrame {
    type V = (Channel, Seq<u8>);

    open spec fn view(&self) -> (Channel, Seq<u8>) {
        (self.channel, self.payload@)
    }
}

/// The number a 4-byte big-endian field holds.
pub open spec fn be32_val(b: Seq<u8>) -> int
    recommends
        b.len() == 4,
{
    b[0] * 0x1000000 + b[1] * 0x10000 + b[2] * 0x100 + b[3]
}

/// The 4-byte big-endian encoding of `n`.
pub open spec fn be32_bytes(n: int) -> Seq<u8>
    recommends
        0 <= n < 0x100000000,
{
    seq![
        (n / 0x1000000) as u8,
        ((n / 0x10000) % 0x100) as u8,
        ((n / 0x100) % 0x100) as u8,
        (n % 0x100) as u8,
    ]
}

pub proof fn lemma_be32_round_trip(n: int)
    requires
        0 <= n < 0x100000000,
    ensures
        be32_val(be32_bytes(n)) == n,
{
    assert(n == 0x1000000 * (n / 0x1000000) + n % 0x1000000);
    assert(n % 0x1000000 == 0x10000 * ((n % 0x1000000) / 0x10000) + (n % 0x1000000) % 0x10000);
    assert((n % 0x1000000) / 0x10000 == (n / 0x10000) % 0x100) by (nonlinear_arith);
    assert((n % 0x1000000) % 0x10000 == n % 0x10000) by (nonlinear_arith);
    assert(n % 0x10000 == 0x100 * ((n / 0x100) % 0x100) + n % 0x100) by (nonlinear_arith);
}

/// The wire encoding of one frame: selector, three reserved zero bytes,
/// big-endian payload length, payload.
pub open spec fn frame_bytes(f: (Channel, Seq<u8>)) -> Seq<u8> {
    seq![channel_selector(f.0), 0u8, 0u8, 0u8] + be32_bytes(f.1.len() as int) + f.1
}

/// The wire encoding of a sequence of frames, in order.
pub open spec fn frames_bytes(fs: Seq<(Channel, Seq<u8>)>) -> Seq<u8>
    decreases fs.len(),
{
    if fs.len() == 0 {
        Seq::empty()
    } else {
        frame_bytes(fs[0]) + frames_bytes(fs.skip(1))
    }
}

/// What demultiplexing a complete byte stream must yield: the frames in
/// wire order, or the first error. The stream has to end exactly at a
/// frame boundary; a selector byte outside 0..=2 is a protocol violation.
pub open spec fn spec_demux(s: Seq<u8>) -> Result<Seq<(Channel, Seq<u8>)>, Error>
    decreases s.len(),
{
    if s.len() == 0 {
        Ok(Seq::empty())
    } else if s.len() < 8 {
        Err(Error::Truncated)
    } else if s[0] > 2 {
        Err(Error::Protocol(s[0]))
    } else if be32_val(s.subrange(4, 8)) > s.len() - 8 {
        Err(Error::Truncated)
    } else {
        let len = be32_val(s.subrange(4, 8));
        match spec_demux(s.skip(8 + len)) {
            Ok(rest) => Ok(seq![(selector_channel(s[0]), s.subrange(8, 8 + len))] + rest),
            Err(e) => Err(e),
        }
    }
}

/// The view of a vector of frames.
pub open spec fn frames_view(fs: Vec<MuxFrame>) -> Seq<(Channel, Seq<u8>)> {
    fs@.map_values(|f: MuxFrame| f@)
}

/// `done` prepended to whatever demultiplexing the rest of the stream gives.
pub open spec fn demux_extend(
    done: Seq<(Channel, Seq<u8>)>,
    tail: Result<Seq<(Channel, Seq<u8>)>, Error>,
) -> Result<Seq<(Channel, Seq<u8>)>, Error> {
    match tail {
        Ok(fs) => Ok(done + fs),
        Err(e) => Err(e),
    }
}

/// Serialize frames with the multiplexed framing, in order.
pub fn mux_encode(frames: &Vec<MuxFrame>) -> (r: Vec<u8>)
    requires
        forall|i: int|
            0 <= i < frames@.len() ==> (#[trigger] frames@[i]).payload@.len() < 0x100000000,
    ensures
        r@ == frames_bytes(frames_view(*frames)),
{
    let mut out: Vec<u8> = Vec::new();
    let mut i: usize = 0;
    while i < frames.len()
        invariant
            i <= frames.len(),
            forall|k: int|
                0 <= k < frames@.len() ==> (#[trigger] frames@[k]).payload@.len() < 0x100000000,
            out@ == frames_bytes(frames_view(*frames).take(i as int)),
        decreases frames.len() - i,
    {
        let f = &frames[i];
        let len: usize = f.payload.len();
        out.push(match f.channel {
            Channel::Stdin => 0u8,
            Channel::Stdout => 1u8,
            Channel::Stderr => 2u8,
        });
        out.push(0u8);
        out.push(0u8);
        out.push(0u8);
        out.push((len / 0x1000000) as u8);
        out.push(((len / 0x10000) % 0x100) as u8);
        out.push(((len / 0x100) % 0x100) as u8);
        out.push((len % 0x100) as u8);
        let mut j: usize = 0;
        while j < f.payload.len()
            invariant
                j <= f.payload.len(),
                f == &frames[i as int],
                i < frames.len(),
                out@ == frames_bytes(frames_view(*frames).take(i as int))
                    + seq![channel_selector(f.channel), 0u8, 0u8, 0u8]
                    + be32_bytes(f.payload@.len() as int) + f.payload@.take(j as int),
            decreases f.payload.len() - j,
        {
            let b = f.payload[j];
            out.push(b);
            proof {
                assert(f.payload@.take(j + 1) =~= f.payload@.take(j as int).push(f.payload@[j as int]));
            }
            j += 1;
        }
        proof {
            let fv = frames_view(*frames);
            assert(f.payload@.take(f.payload@.len() as int) =~= f.payload@);
            assert(fv.take(i + 1) =~= fv.take(i as int).push(fv[i as int]));
            lemma_frames_bytes_snoc(fv.take(i as int), fv[i as int]);
            assert(out@ =~= frames_bytes(fv.take(i + 1)));
        }
        i += 1;
    }
    proof {
        assert(frames_view(*frames).take(frames@.len() as int) =~= frames_view(*frames));
    }
    out
}

/// Appending one frame extends the serialized stream by that frame's bytes.
proof fn lemma_frames_bytes_snoc(fs: Seq<(Channel, Seq<u8>)>, f: (Channel, Seq<u8>))
    ensures
        frames_bytes(fs.push(f)) == frames_bytes(fs) + frame_bytes(f),
    decreases fs.len(),
{
    if fs.len() == 0 {
        assert(fs.push(f)[0] == f);
        let e = Seq::<(Channel, Seq<u8>)>::empty();
        assert(fs.push(f).skip(1) =~= e);
        assert(frames_bytes(e) == Seq::<u8>::empty());
        assert(frames_bytes(fs.push(f)) == frame_bytes(f) + Seq::<u8>::empty());
        assert(frames_bytes(fs) == Seq::<u8>::empty());
        assert(frame_bytes(f) + Seq::<u8>::empty() =~= Seq::<u8>::empty() + frame_bytes(f));
    } else {
        assert(fs.push(f)[0] == fs[0]);
        assert(fs.push(f).skip(1) =~= fs.skip(1).push(f));
        lemma_frames_bytes_snoc(fs.skip(1), f);
        assert(frames_bytes(fs.push(f)) == frame_bytes(fs[0]) + (frames_bytes(fs.skip(1))
            + frame_bytes(f)));
        assert(frame_bytes(fs[0]) + (frames_bytes(fs.skip(1)) + frame_bytes(f)) =~= (frame_bytes(
            fs[0],
        ) + frames_bytes(fs.skip(1))) + frame_bytes(f));
    }
}

/// Split a complete multiplexed stream into its frames.
///
/// The result is exactly what [`spec_demux`] assigns to the input: all
/// frames in wire order, or the first truncation or protocol error.
pub fn demux(bytes: &Vec<u8>) -> (r: Result<Vec<MuxFrame>, Error>)
    ensures
        match r {
            Ok(fs) => spec_demux(bytes@) == Ok::<_, Error>(frames_view(fs)),
            Err(e) => spec_demux(bytes@) == Err::<Seq<(Channel, Seq<u8>)>, _>(e),
        },
{
    let n = bytes.len();
    let mut off: usize = 0;
    let mut done: Vec<MuxFrame> = Vec::new();
    proof {
        assert(bytes@.skip(0) =~= bytes@);
        assert(frames_view(done) =~= Seq::<(Channel, Seq<u8>)>::empty());
        match spec_demux(bytes@) {
            Ok(fs) => {
                assert(frames_view(done) + fs =~= fs);
            },
            Err(_) => {},
        }
    }
    while off < n
        invariant
            n == bytes.len(),
            off <= n,
            spec_demux(bytes@) == demux_extend(
                frames_view(done),
                spec_demux(bytes@.skip(off as int)),
            ),
        decreases n - off,
    {
        let ghost rest = bytes@.skip(off as int);
        if n - off < 8 {
            assert(spec_demux(rest) == Err::<Seq<(Channel, Seq<u8>)>, Error>(Error::Truncated));
            return Err(Error::Truncated);
        }
        let sel = bytes[off];
        assert(sel == rest[0]);
        if sel > 2 {
            assert(spec_demux(rest) == Err::<Seq<(Channel, Seq<u8>)>, Error>(Error::Protocol(sel)));
            return Err(Error::Protocol(sel));
        }
        let b0 = bytes[off + 4];
        let b1 = bytes[off + 5];
        let b2 = bytes[off + 6];
        let b3 = bytes[off + 7];
        let len: u32 = (b0 as u32) * 0x1000000 + (b1 as u32) * 0x10000 + (b2 as u32) * 0x100
            + (b3 as u32);
        proof {
            assert(rest.subrange(4, 8) =~= seq![b0, b1, b2, b3]);
            assert(be32_val(rest.subrange(4, 8)) == len as int);
        }
        if (len as usize) > n - off - 8 {
            assert(spec_demux(rest) == Err::<Seq<(Channel, Seq<u8>)>, Error>(Error::Truncated));
            return Err(Error::Truncated);
        }
        let channel = if sel == 0 {
            Channel::Stdin
        } else if sel == 1 {
            Channel::Stdout
        } else {
            Channel::Stderr
        };
        assert(channel == selector_channel(sel));
        let mut payload: Vec<u8> = Vec::new();
        let start = off + 8;
        let mut j: usize = 0;
        while j < len as usize
            invariant
                j <= len as usize,
                start + len as usize <= n,
                n == bytes.len(),
                payload@ == bytes@.subrange(start as int, start + j),
            decreases len as usize - j,
        {
            payload.push(bytes[start + j]);
            proof {
                assert(bytes@.subrange(start as int, start + j + 1) =~= bytes@.subrange(
                    start as int,
                    start + j,
                ).push(bytes@[start + j]));
            }
            j += 1;
        }
        proof {
            assert(payload@ =~= rest.subrange(8, 8 + len as int));
        }
        let ghost prev_done = frames_view(done);
        done.push(MuxFrame { channel, payload });
        proof {
            assert(frames_view(done) =~= prev_done.push((channel, rest.subrange(8, 8 + len as int))));
            assert(bytes@.skip(off + 8 + len as int) =~= rest.skip(8 + len as int));
            match spec_demux(rest.skip(8 + len as int)) {
                Ok(fs) => {
                    assert(spec_demux(rest) == Ok::<_, Error>(
                        seq![(selector_channel(sel), rest.subrange(8, 8 + len as int))] + fs,
                    ));
                    assert(prev_done + (seq![
                        (selector_channel(sel), rest.subrange(8, 8 + len as int)),
                    ] + fs) =~= frames_view(done) + fs);
                },
                Err(e) => {
                    assert(spec_demux(rest) == Err::<Seq<(Channel, Seq<u8>)>, Error>(e));
                },
            }
        }
        off = start + len as usize;
    }
    proof {
        assert(bytes@.skip(off as int) =~= Seq::<u8>::empty());
        assert(spec_demux(bytes@.skip(off as int)) == Ok::<_, Error>(Seq::<(Channel, Seq<u8>)>::empty()));
        assert(frames_view(done) + Seq::<(Channel, Seq<u8>)>::empty() =~= frames_view(done));
    }
    Ok(done)
}

/// Round trip: a stream serialized from any frame sequence demultiplexes
/// back to exactly that sequence, zero-length payloads included.
pub proof fn lemma_mux_round_trip(fs: Seq<(Channel, Seq<u8>)>)
    requires
        forall|i: int| 0 <= i < fs.len() ==> (#[trigger] fs[i]).1.len() < 0x100000000,
    ensures
        spec_demux(frames_bytes(fs)) == Ok::<_, Error>(fs),
    decreases fs.len(),
{
    if fs.len() == 0 {
        assert(fs =~= Seq::<(Channel, Seq<u8>)>::empty());
        assert(frames_bytes(fs) == Seq::<u8>::empty());
        assert(spec_demux(frames_bytes(fs)) == Ok::<_, Error>(Seq::<(Channel, Seq<u8>)>::empty()));
    } else {
        let f = fs[0];
        let s = frames_bytes(fs);
        let hd = frame_bytes(f);
        let plen = f.1.len() as int;
        lemma_be32_round_trip(plen);
        assert(hd.len() == 8 + plen);
        assert(s == hd + frames_bytes(fs.skip(1)));
        assert(s.len() >= 8 + plen);
        assert(s[0] == channel_selector(f.0));
        assert(channel_selector(f.0) <= 2);
        assert(selector_channel(channel_selector(f.0)) == f.0);
        assert(s.subrange(4, 8) =~= be32_bytes(plen));
        assert(be32_val(s.subrange(4, 8)) == plen);
        assert(s.subrange(8, 8 + plen) =~= f.1);
        assert(s.skip(8 + plen) =~= frames_bytes(fs.skip(1)));
        assert(forall|i: int|
            0 <= i < fs.skip(1).len() ==> (#[trigger] fs.skip(1)[i]).1.len() < 0x100000000);
        lemma_mux_round_trip(fs.skip(1));
        assert(spec_demux(s.skip(8 + plen)) == Ok::<_, Error>(fs.skip(1)));
        assert(spec_demux(s) == Ok::<_, Error>(
            seq![(selector_channel(s[0]), s.subrange(8, 8 + plen))] + fs.skip(1),
        ));
        assert(seq![(selector_channel(s[0]), s.subrange(8, 8 + plen))] + fs.skip(1) =~= fs);
    }
}

/// What stands complete at the front of a buffered stream: the frames
/// whose bytes are all in, the unconsumed tail, and the bad selector
/// if the next header has one.
pub open spec fn demux_avail(buf: Seq<u8>) -> (Seq<(Channel, Seq<u8>)>, Seq<u8>, Option<u8>)
    decreases buf.len(),
{
    if buf.len() < 8 {
        (Seq::empty(), buf, None)
    } else if buf[0] > 2 {
        (Seq::empty(), buf, Some(buf[0]))
    } else if be32_val(buf.subrange(4, 8)) > buf.len() - 8 {
        (Seq::empty(), buf, None)
    } else {
        let len = be32_val(buf.subrange(4, 8));
        let rest = demux_avail(buf.skip(8 + len));
        (seq![(selector_channel(buf[0]), buf.subrange(8, 8 + len))] + rest.0, rest.1, rest.2)
    }
}

/// What the incremental demultiplexer hands out agrees with the
/// whole-stream reading: a bad selector is the protocol error, an
/// exhausted buffer is the full frame sequence, and leftover bytes at
/// the end of input are the truncation error.
pub proof fn lemma_demux_avail_spec(buf: Seq<u8>)
    ensures
        ({
            let (fs, left, err) = demux_avail(buf);
            match err {
                Some(sel) => spec_demux(buf) == Err::<Seq<(Channel, Seq<u8>)>, Error>(
                    Error::Protocol(sel),
                ),
                None => if left.len() == 0 {
                    spec_demux(buf) == Ok::<_, Error>(fs)
                } else {
                    spec_demux(buf) == Err::<Seq<(Channel, Seq<u8>)>, Error>(Error::Truncated)
                },
            }
        }),
    decreases buf.len(),
{
    if buf.len() < 8 {
        if buf.len() == 0 {
        }
    } else if buf[0] > 2 {
    } else if be32_val(buf.subrange(4, 8)) > buf.len() - 8 {
    } else {
        let len = be32_val(buf.subrange(4, 8));
        lemma_demux_avail_spec(buf.skip(8 + len));
    }
}

/// The incremental demultiplexer: feed it the stream as it arrives,
/// take each frame as soon as its last byte is in. Only the bytes of
/// the frame under assembly are buffered.
pub struct MuxDemuxer {
    buf: Vec<u8>,
}

impl View for MuxDemuxer {
    type V = Seq<u8>;

    closed spec fn view(&self) -> Seq<u8> {
        self.buf@
    }
}

impl MuxDemuxer {
    /// A demultiplexer that has seen nothing.
    pub fn new() -> (r: MuxDemuxer)
        ensures
            r@ == Seq::<u8>::empty(),
    {
        MuxDemuxer { buf: Vec::new() }
    }

    /// Feed the next piece of the stream.
    ///
    /// The frames are exactly what the buffered bytes complete, as
    /// [`demux_avail`] reads them; the status reports a bad selector
    /// at the next frame head. [`lemma_demux_avail_spec`] ties the
    /// sequence handed out to [`spec_demux`] of the whole stream.
    pub fn feed(&mut self, chunk: &Vec<u8>) -> (r: (Vec<MuxFrame>, Result<(), Error>))
        ensures
            ({
                let avail = demux_avail(old(self)@ + chunk@);
                &&& frames_view(r.0) == avail.0
                &&& final(self)@ == avail.1
                &&& match r.1 {
                    Ok(_) => avail.2 is None,
                    Err(e) => avail.2 matches Some(sel) && e == Error::Protocol(sel),
                }
            }),
    {
        self.buf.extend_from_slice(chunk.as_slice());
        proof {
            assert(self.buf@ =~= old(self)@ + chunk@);
        }
        let mut out: Vec<MuxFrame> = Vec::new();
        let ghost whole = self.buf@;
        let n = self.buf.len();
        let mut off: usize = 0;
        let mut bad: Option<u8> = None;
        proof {
            assert(whole.skip(0) =~= whole);
            assert(frames_view(out) =~= Seq::<(Channel, Seq<u8>)>::empty());
            match demux_avail(whole) {
                (fs, left, err) => {
                    assert(frames_view(out) + fs =~= fs);
                },
            }
        }
        while off < n
            invariant_except_break
                bad is None,
            invariant
                n == self.buf.len(),
                off <= n,
                whole == self.buf@,
                demux_avail(whole) == (
                    frames_view(out) + demux_avail(whole.skip(off as int)).0,
                    demux_avail(whole.skip(off as int)).1,
                    demux_avail(whole.skip(off as int)).2,
                ),
            ensures
                demux_avail(whole.skip(off as int)).0 == Seq::<(Channel, Seq<u8>)>::empty(),
                demux_avail(whole.skip(off as int)).1 == whole.skip(off as int),
                match bad {
                    Some(sel) => demux_avail(whole.skip(off as int)).2 == Some(sel),
                    None => demux_avail(whole.skip(off as int)).2 is None,
                },
            decreases n - off,
        {
            let ghost rest = whole.skip(off as int);
            if n - off < 8 {
                proof {
                    assert(demux_avail(rest).0 =~= Seq::<(Channel, Seq<u8>)>::empty());
                }
                break;
            }
            let sel = self.buf[off];
            assert(sel == rest[0]);
            if sel > 2 {
                proof {
                    assert(demux_avail(rest).0 =~= Seq::<(Channel, Seq<u8>)>::empty());
                }
                bad = Some(sel);
                break;
            }
            let b0 = self.buf[off + 4];
            let b1 = self.buf[off + 5];
            let b2 = self.buf[off + 6];
            let b3 = self.buf[off + 7];
            let len: u32 = (b0 as u32) * 0x1000000 + (b1 as u32) * 0x10000 + (b2 as u32) * 0x100
                + (b3 as u32);
            proof {
                assert(rest.subrange(4, 8) =~= seq![b0, b1, b2, b3]);
                assert(be32_val(rest.subrange(4, 8)) == len as int);
            }
            if (len as usize) > n - off - 8 {
                proof {
                    assert(demux_avail(rest).0 =~= Seq::<(Channel, Seq<u8>)>::empty());
                }
                break;
            }
            let channel = if sel == 0 {
                Channel::Stdin
            } else if sel == 1 {
                Channel::Stdout
            } else {
                Channel::Stderr
            };
            assert(channel == selector_channel(sel));
            let start = off + 8;
            let payload = vstd::slice::slice_to_vec(
                vstd::slice::slice_subrange(self.buf.as_slice(), start, start + len as usize),
            );
            proof {
                assert(payload@ =~= rest.subrange(8, 8 + len as int));
            }
            let ghost prev = frames_view(out);
            out.push(MuxFrame { channel, payload });
            proof {
                assert(frames_view(out) =~= prev.push(
                    (channel, rest.subrange(8, 8 + len as int)),
                ));
                assert(whole.skip(off + 8 + len as int) =~= rest.skip(8 + len as int));
                match demux_avail(rest.skip(8 + len as int)) {
                    (fs, left, err) => {
                        assert(prev + (seq![
                            (selector_channel(sel), rest.subrange(8, 8 + len as int)),
                        ] + fs) =~= frames_view(out) + fs);
                    },
                }
            }
            off = start + len as usize;
        }
        let left = vstd::slice::slice_to_vec(
            vstd::slice::slice_subrange(self.buf.as_slice(), off, n),
        );
        proof {
            assert(left@ =~= whole.skip(off as int));
            match demux_avail(whole) {
                (fs, l, err) => {
                    assert(frames_view(out) + Seq::<(Channel, Seq<u8>)>::empty() =~= frames_view(
                        out,
                    ));
                },
            }
        }
        self.buf = left;
        match bad {
            Some(sel) => (out, Err(Error::Protocol(sel))),
            None => (out, Ok(())),
        }
    }

    /// Close the stream: it must end exactly at a frame boundary, or
    /// the bytes of the unfinished frame are the truncation error.
    pub fn finish(self) -> (r: Result<(), Error>)
        ensures
            self@.len() == 0 ==> r == Ok::<(), Error>(()),
            self@.len() > 0 ==> r == Err::<(), Error>(Error::Truncated),
    {
        if self.buf.len() == 0 {
            Ok(())
        } else {
            Err(Error::Truncated)
        }
    }
}

} // verus!
