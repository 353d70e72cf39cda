//! Frames on the wire: four bytes of length, the highest first, and the body.

use vstd::prelude::*;

verus! {

/// The longest body that is accepted. A peer may claim any length, so it is
/// tested before anything is stored.
pub const MAX_FRAME: usize = 8 * 1024 * 1024;

/// Why a frame cannot be read.
#[derive(Clone, Copy, PartialEq, Eq, Debug, Structural)]
pub enum FrameError {
    /// The peer closed inside the header.
    TruncatedHeader,
    /// The header claims more than `MAX_FRAME` bytes.
    TooLarge(usize),
    /// The peer closed inside the body.
    TruncatedBody,
}

/// The length that the first four bytes of a frame claim.
pub open spec fn claimed(b: Seq<u8>) -> int {
    b[0] * 0x1000000 + b[1] * 0x10000 + b[2] * 0x100 + b[3]
}

/// A length as four bytes, the highest first.
pub open spec fn length_bytes(n: u32) -> Seq<u8> {
    seq![
        (n / 0x1000000) as u8,
        (n / 0x10000 % 0x100) as u8,
        (n / 0x100 % 0x100) as u8,
        (n % 0x100) as u8,
    ]
}

/// The frame that carries a body. The length is taken modulo two to the
/// thirty-second.
pub open spec fn frame(body: Seq<u8>) -> Seq<u8> {
    length_bytes((body.len() % 0x1_0000_0000) as u32) + body
}

/// The frame that carries a body.
pub fn write_frame(body: &[u8]) -> (r: Vec<u8>)
    ensures
        r@ == frame(body@),
{
    let n: u64 = body.len() as u64 % 0x1_0000_0000;
    let len: u32 = n as u32;
    let mut out: Vec<u8> = Vec::new();
    out.push((len / 0x1000000) as u8);
    out.push((len / 0x10000 % 0x100) as u8);
    out.push((len / 0x100 % 0x100) as u8);
    out.push((len % 0x100) as u8);
    out.extend_from_slice(body);
    assert(out@ =~= frame(body@));
    out
}

/// What the reader of a frame asks for or has come to.
pub enum FramePoll {
    /// At most this many more bytes are to be read, and at least one.
    More(usize),
    /// The frame is complete: its body.
    Body(Vec<u8>),
    /// The peer closed before the frame began.
    Closed,
    /// The frame cannot be read.
    Bad(FrameError),
}

/// Reads one frame from the bytes that a connection delivers piece by piece.
pub struct FrameReader {
    got: Vec<u8>,
}

impl View for FrameReader {
    type V = Seq<u8>;

    closed spec fn view(&self) -> Seq<u8> {
        self.got@
    }
}

/// Where a reader stands after the bytes `got`, with the peer open or closed.
pub open spec fn polled(got: Seq<u8>, closed: bool, r: FramePoll) -> bool {
    if got.len() < 4 {
        if !closed {
            r == FramePoll::More((4 - got.len()) as usize)
        } else if got.len() == 0 {
            r is Closed
        } else {
            r == FramePoll::Bad(FrameError::TruncatedHeader)
        }
    } else if claimed(got) > MAX_FRAME {
        r == FramePoll::Bad(FrameError::TooLarge(claimed(got) as usize))
    } else if got.len() < 4 + claimed(got) {
        if !closed {
            r == FramePoll::More((4 + claimed(got) - got.len()) as usize)
        } else {
            r == FramePoll::Bad(FrameError::TruncatedBody)
        }
    } else {
        r is Body && r->Body_0@ == got.subrange(4, 4 + claimed(got))
    }
}

impl FrameReader {
    /// A reader that has seen nothing yet.
    pub fn new() -> (r: FrameReader)
        ensures
            r@ == Seq::<u8>::empty(),
    {
        FrameReader { got: Vec::new() }
    }

    /// Says what comes next: read on, a body, a clean end or an error. A claim
    /// over the limit is refused from the header alone.
    pub fn poll(&self, closed: bool) -> (r: FramePoll)
        ensures
            polled(self@, closed, r),
    {
        let got: usize = self.got.len();
        if got < 4 {
            if !closed {
                return FramePoll::More(4 - got);
            }
            return if got == 0 {
                FramePoll::Closed
            } else {
                FramePoll::Bad(FrameError::TruncatedHeader)
            };
        }
        let len: u32 = self.got[0] as u32 * 0x1000000 + self.got[1] as u32 * 0x10000 + self.got[2] as u32
            * 0x100 + self.got[3] as u32;
        let n: usize = len as usize;
        if n > MAX_FRAME {
            return FramePoll::Bad(FrameError::TooLarge(n));
        }
        if got < 4 + n {
            return if !closed {
                FramePoll::More(4 + n - got)
            } else {
                FramePoll::Bad(FrameError::TruncatedBody)
            };
        }
        let body = vstd::slice::slice_subrange(self.got.as_slice(), 4, 4 + n);
        FramePoll::Body(vstd::slice::slice_to_vec(body))
    }

    /// Takes in bytes that were read.
    pub fn feed(&mut self, chunk: &[u8])
        ensures
            final(self)@ == old(self)@ + chunk@,
    {
        self.got.extend_from_slice(chunk);
        assert(self.got@ =~= old(self).got@ + chunk@);
    }
}

/// All that a peer sends, read from the front.
pub struct Source {
    bytes: Vec<u8>,
    pos: usize,
}

impl View for Source {
    type V = Seq<u8>;

    closed spec fn view(&self) -> Seq<u8> {
        self.bytes@.skip(self.pos as int)
    }
}

impl Source {
    /// The read position lies within what was sent.
    pub closed spec fn wf(&self) -> bool {
        self.pos <= self.bytes@.len()
    }

    /// A peer that sends these bytes and closes.
    pub fn new(bytes: Vec<u8>) -> (r: Source)
        ensures
            r.wf(),
            r@ == bytes@,
    {
        let r = Source { bytes, pos: 0 };
        assert(r.bytes@.skip(0) =~= bytes@);
        r
    }

    /// Takes up to `max` bytes.
    fn take(&mut self, max: usize) -> (r: Vec<u8>)
        requires
            old(self).wf(),
        ensures
            final(self).wf(),
            r@.len() == (if old(self)@.len() < max { old(self)@.len() } else { max as nat }),
            r@ == old(self)@.take(r@.len() as int),
            final(self)@ == old(self)@.skip(r@.len() as int),
    {
        let left: usize = self.bytes.len() - self.pos;
        let n: usize = if left < max {
            left
        } else {
            max
        };
        let piece = vstd::slice::slice_to_vec(
            vstd::slice::slice_subrange(self.bytes.as_slice(), self.pos, self.pos + n),
        );
        assert(piece@ =~= self@.take(n as int));
        self.pos = self.pos + n;
        assert(self@ =~= old(self)@.skip(n as int));
        piece
    }
}

/// What reading one frame gives on the bytes that are left.
pub open spec fn frame_read(rem: Seq<u8>) -> Result<Option<Seq<u8>>, FrameError> {
    if rem.len() == 0 {
        Ok(None)
    } else if rem.len() < 4 {
        Err(FrameError::TruncatedHeader)
    } else if claimed(rem) > MAX_FRAME {
        Err(FrameError::TooLarge(claimed(rem) as usize))
    } else if rem.len() < 4 + claimed(rem) {
        Err(FrameError::TruncatedBody)
    } else {
        Ok(Some(rem.subrange(4, 4 + claimed(rem))))
    }
}

/// Reads one frame: its body, or `None` where the peer closed before it began.
pub fn read_frame(r: &mut Source) -> (res: Result<Option<Vec<u8>>, FrameError>)
    requires
        old(r).wf(),
    ensures
        final(r).wf(),
        match res {
            Ok(None) => frame_read(old(r)@) == Ok::<Option<Seq<u8>>, FrameError>(None),
            Ok(Some(b)) => frame_read(old(r)@) == Ok::<Option<Seq<u8>>, FrameError>(Some(b@)),
            Err(e) => frame_read(old(r)@) == Err::<Option<Seq<u8>>, FrameError>(e),
        },
        res is Ok && res->Ok_0 is Some ==> final(r)@ == old(r)@.skip(4 + claimed(old(r)@)),
{
    let mut reader = FrameReader::new();
    let mut closed = false;
    let ghost all = r@;
    assert(reader@ + r@ =~= all);
    loop
        invariant
            r.wf(),
            reader@ + r@ == all,
            closed ==> r@.len() == 0,
            all == old(r)@,
            reader@.len() <= 4 || (claimed(all) <= MAX_FRAME && reader@.len() <= 4 + claimed(all)),
        decreases r@.len(), (if closed {
                0int
            } else {
                1int
            }),
    {
        let ghost got = reader@;
        assert(got.len() >= 4 ==> claimed(got) == claimed(all));
        match reader.poll(closed) {
            FramePoll::More(n) => {
                let piece = r.take(n);
                assert((got + piece@) + r@ =~= all);
                if piece.len() == 0 {
                    closed = true;
                }
                reader.feed(piece.as_slice());
                assert(reader@ + r@ == all);
            },
            FramePoll::Body(b) => {
                assert(b@ =~= all.subrange(4, 4 + claimed(all)));
                assert(r@ =~= all.skip(4 + claimed(all)));
                return Ok(Some(b));
            },
            FramePoll::Closed => {
                return Ok(None);
            },
            FramePoll::Bad(e) => {
                return Err(e);
            },
        }
    }
}

/// A frame that was written is read back, and what follows it is left: for any
/// body within the limit, and anything after it.
pub proof fn law_frame_round_trip(body: Seq<u8>, after: Seq<u8>)
    requires
        body.len() <= MAX_FRAME,
    ensures
        frame_read(frame(body) + after) == Ok::<Option<Seq<u8>>, FrameError>(Some(body)),
        (frame(body) + after).skip(4 + claimed(frame(body) + after)) == after,
{
    let n = body.len() as u32;
    let all = frame(body) + after;
    assert(all[0] == (n / 0x1000000) as u8);
    assert(all[1] == (n / 0x10000 % 0x100) as u8);
    assert(all[2] == (n / 0x100 % 0x100) as u8);
    assert(all[3] == (n % 0x100) as u8);
    assert(claimed(all) == body.len());
    assert(all.subrange(4, 4 + claimed(all)) =~= body);
    assert(all.skip(4 + claimed(all)) =~= after);
}

/// A header that claims too much is refused whatever follows it.
pub proof fn law_oversized_refused(header: Seq<u8>, after: Seq<u8>)
    requires
        header.len() == 4,
        claimed(header) > MAX_FRAME,
    ensures
        frame_read(header + after) == Err::<Option<Seq<u8>>, FrameError>(
            FrameError::TooLarge(claimed(header) as usize),
        ),
{
    assert(claimed(header + after) == claimed(header));
}

} // verus!
