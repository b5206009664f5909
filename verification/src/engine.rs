//! The streaming chunk reader/rewriter: validates the signature,
//! merges adjacent same-tag chunks, applies the transform, and emits
//! freshly framed chunks.

use vstd::prelude::*;
use crate::checksum::{crc32_of, crc32_over};
use crate::chunk::ChunkInfo;
use crate::codec::{be32, be_of, bytes_to_int, int_to_bytes};
use crate::errors::{ErrKind, RewriteError};
use crate::transform::{
    apply_transform, apply_transform_spec, SpecOutcome, TransformKind, TransformOutcome,
};

verus! {

/// The fixed 8-byte signature every valid stream begins with.
pub open spec fn png_sig() -> Seq<u8> {
    seq![0x89u8, 0x50u8, 0x4eu8, 0x47u8, 0x0du8, 0x0au8, 0x1au8, 0x0au8]
}

/// The stream begins with the signature.
pub open spec fn sig_ok(s: Seq<u8>) -> bool {
    s.len() >= 8 && s.subrange(0, 8) == png_sig()
}

/// The declared payload length of the chunk whose header starts at `h`.
pub open spec fn len_at(s: Seq<u8>, h: int) -> int {
    be32(s.subrange(h, h + 4))
}

/// The type tag of the chunk whose header starts at `h`.
pub open spec fn tag_at(s: Seq<u8>, h: int) -> Seq<u8> {
    s.subrange(h + 4, h + 8)
}

/// The payload of the chunk whose header starts at `h`.
pub open spec fn payload_at(s: Seq<u8>, h: int) -> Seq<u8> {
    s.subrange(h + 8, h + 8 + len_at(s, h))
}

/// The on-wire checksum of the chunk whose header starts at `h`.
pub open spec fn crc_at(s: Seq<u8>, h: int) -> int {
    be32(s.subrange(h + 8 + len_at(s, h), h + 12 + len_at(s, h)))
}

/// The position just past the chunk whose header starts at `h`.
pub open spec fn next_at(s: Seq<u8>, h: int) -> int {
    h + 12 + len_at(s, h)
}

/// One framed chunk as it is emitted: length, tag, payload, and the
/// checksum of tag and payload, each length and checksum big-endian.
pub open spec fn frame(tag: Seq<u8>, payload: Seq<u8>) -> Seq<u8>
    recommends
        tag.len() == 4,
        payload.len() < 0x1_0000_0000,
{
    be_of(payload.len() as int) + tag + payload + be_of(crc32_of(tag + payload) as int)
}

/// Reads and validates the run of consecutive chunks with this tag
/// whose first header starts at `h`: the merged payload and the
/// position of the next header, or the first validation error.
pub open spec fn collect_run(s: Seq<u8>, h: int, tag: Seq<u8>) -> Result<(Seq<u8>, int), ErrKind>
    decreases s.len() - h,
    when 8 <= h && s.len() - h >= 8
{
    let len = len_at(s, h);
    if s.len() - (h + 8) < len {
        Err(ErrKind::Truncated)
    } else if s.len() - (h + 8 + len) < 4 {
        Err(ErrKind::Checksum(tag))
    } else if crc_at(s, h) != crc32_of(tag_at(s, h) + payload_at(s, h)) {
        Err(ErrKind::Checksum(tag))
    } else {
        let j = next_at(s, h);
        if s.len() - j >= 8 && tag_at(s, j) == tag {
            match collect_run(s, j, tag) {
                Ok(p) => Ok((payload_at(s, h) + p.0, p.1)),
                Err(e) => Err(e),
            }
        } else {
            Ok((payload_at(s, h), j))
        }
    }
}

/// A successful run always advances and stays inside the stream.
pub proof fn lemma_collect_run_bounds(s: Seq<u8>, h: int, tag: Seq<u8>)
    requires
        8 <= h,
        s.len() - h >= 8,
    ensures
        collect_run(s, h, tag) matches Ok(p) ==> h + 12 <= p.1 <= s.len(),
    decreases s.len() - h,
{
    let len = len_at(s, h);
    if s.len() - (h + 8) >= len && s.len() - (h + 8 + len) >= 4 && crc_at(s, h) == crc32_of(
        tag_at(s, h) + payload_at(s, h),
    ) {
        let j = next_at(s, h);
        if s.len() - j >= 8 && tag_at(s, j) == tag {
            lemma_collect_run_bounds(s, j, tag);
        }
    }
}

/// What one merged run contributes to the output: the emitted bytes
/// and the next header position, or the error that stops the rewrite.
pub enum RunStep {
    Fail(ErrKind),
    Go(Seq<u8>, int),
}

/// Processes the single merged run whose first header starts at `h`.
pub open spec fn run_step(t: TransformKind, s: Seq<u8>, h: int) -> RunStep
    recommends
        8 <= h,
        s.len() - h >= 8,
{
    let tag = tag_at(s, h);
    match collect_run(s, h, tag) {
        Err(e) => RunStep::Fail(e),
        Ok(p) => match apply_transform_spec(t, tag, p.0) {
            SpecOutcome::Fail => RunStep::Fail(ErrKind::Transform),
            SpecOutcome::Drop => RunStep::Go(Seq::empty(), p.1),
            SpecOutcome::Keep(np) => if np.len() > 0xffff_ffff {
                RunStep::Fail(ErrKind::TooLarge)
            } else {
                RunStep::Go(frame(tag, np), p.1)
            },
        },
    }
}

/// A successful step advances and stays inside the stream.
pub proof fn lemma_run_step_bounds(t: TransformKind, s: Seq<u8>, h: int)
    requires
        8 <= h,
        s.len() - h >= 8,
    ensures
        run_step(t, s, h) matches RunStep::Go(em, j) ==> h + 12 <= j <= s.len(),
{
    lemma_collect_run_bounds(s, h, tag_at(s, h));
}

/// Rewrites every run from header position `h` to the end of the
/// stream: the emitted bytes up to the first error, and that error if
/// one occurs. Fewer than 8 bytes left is a clean end.
pub open spec fn rewrite_chunks(t: TransformKind, s: Seq<u8>, h: int) -> (Seq<u8>, Option<
    ErrKind,
>)
    decreases s.len() - h,
    when 8 <= h <= s.len()
{
    if s.len() - h < 8 {
        (Seq::empty(), Option::<ErrKind>::None)
    } else {
        match run_step(t, s, h) {
            RunStep::Fail(e) => (Seq::empty(), Option::Some(e)),
            RunStep::Go(em, j) => {
                proof {
                    lemma_run_step_bounds(t, s, h);
                }
                let rest = rewrite_chunks(t, s, j);
                (em + rest.0, rest.1)
            },
        }
    }
}

/// The whole rewrite of a stream: what is written to the sink and the
/// error that stopped the rewrite, if any. A missing or wrong
/// signature writes nothing; otherwise the signature is written
/// verbatim and every run follows.
pub open spec fn spec_rewrite(t: TransformKind, s: Seq<u8>) -> (Seq<u8>, Option<ErrKind>) {
    if !sig_ok(s) {
        (Seq::empty(), Option::Some(ErrKind::Signature))
    } else {
        let r = rewrite_chunks(t, s, 8);
        (png_sig() + r.0, r.1)
    }
}

/// An executable copy of the signature bytes.
fn png_signature() -> (v: Vec<u8>)
    ensures
        v@ == png_sig(),
{
    let mut v: Vec<u8> = Vec::new();
    v.push(0x89u8);
    v.push(0x50u8);
    v.push(0x4eu8);
    v.push(0x47u8);
    v.push(0x0du8);
    v.push(0x0au8);
    v.push(0x1au8);
    v.push(0x0au8);
    proof {
        assert(v@ =~= png_sig());
    }
    v
}

/// A fresh copy of `n` bytes of `v` starting at `start`.
fn copy_range(v: &Vec<u8>, start: usize, n: usize) -> (r: Vec<u8>)
    requires
        start + n <= v@.len(),
    ensures
        r@ == v@.subrange(start as int, start + n),
{
    let len = v.len();
    let mut r: Vec<u8> = Vec::new();
    let mut i: usize = 0;
    while i < n
        invariant
            i <= n,
            start + n <= len,
            len == v@.len(),
            r@ == v@.subrange(start as int, start + i),
        decreases n - i,
    {
        r.push(v[start + i]);
        proof {
            assert(r@ =~= v@.subrange(start as int, start + i + 1));
        }
        i += 1;
    }
    r
}

/// True when two 4-byte tags hold the same bytes.
fn tags_equal(a: &Vec<u8>, b: &Vec<u8>) -> (r: bool)
    requires
        a@.len() == 4,
        b@.len() == 4,
    ensures
        r == (a@ == b@),
{
    let r = a[0] == b[0] && a[1] == b[1] && a[2] == b[2] && a[3] == b[3];
    proof {
        if r {
            assert(a@ =~= b@);
        }
    }
    r
}

/// A reader that looks one chunk header ahead in the input stream and
/// rewrites the stream into an output sink.
pub struct PngReader {
    input: Vec<u8>,
    pos: usize,
    started: bool,
    failed: bool,
    info: Option<ChunkInfo>,
    transform: TransformKind,
}

impl PngReader {
    /// The input bytes this reader consumes.
    pub closed spec fn stream(self) -> Seq<u8> {
        self.input@
    }

    /// The transform this reader is bound to.
    pub closed spec fn tkind(self) -> TransformKind {
        self.transform
    }

    /// No byte has been consumed yet.
    pub closed spec fn fresh(self) -> bool {
        !self.started && self.pos == 0 && self.info is None && !self.failed
    }

    /// The position of the next unprocessed header: the position of
    /// the peeked header if one is held, else the read position.
    pub closed spec fn head(self) -> int {
        if self.info is Some {
            self.pos - 8
        } else {
            self.pos as int
        }
    }

    /// The signature step has run.
    pub closed spec fn is_started(self) -> bool {
        self.started
    }

    /// The signature step failed; the reader is exhausted.
    pub closed spec fn is_failed(self) -> bool {
        self.failed
    }

    /// A header is currently peeked.
    pub closed spec fn peeked(self) -> bool {
        self.info is Some
    }

    /// The reader's internal consistency: the cursor is inside the
    /// stream, a peeked header holds the 8 bytes just before the
    /// cursor, and the flags follow the state machine.
    pub closed spec fn wf(self) -> bool {
        &&& self.pos <= self.input@.len()
        &&& (self.info matches Some(ci) ==> {
            &&& self.started
            &&& !self.failed
            &&& self.pos >= 16
            &&& ci@.len() == 8
            &&& ci@ == self.input@.subrange(self.pos - 8, self.pos as int)
        })
        &&& (!self.started ==> self.pos == 0 && self.info is None && !self.failed)
        &&& (self.failed ==> self.info is None)
        &&& (self.started && !self.failed ==> self.pos >= 8 && sig_ok(self.input@))
    }

    /// Between runs: a header is peeked exactly when 8 bytes were
    /// available at the head position.
    pub closed spec fn boundary(self) -> bool {
        self.started && !self.failed ==> (self.info is None ==> self.stream().len() - self.pos
            < 8)
    }

    /// A reader over `input`, bound to one transform.
    pub fn new(input: Vec<u8>, transform: TransformKind) -> (r: PngReader)
        ensures
            r.wf(),
            r.fresh(),
            r.boundary(),
            !r.is_started(),
            !r.is_failed(),
            !r.peeked(),
            r.stream() == input@,
            r.tkind() == transform,
    {
        PngReader { input, pos: 0, started: false, failed: false, info: None, transform }
    }

    /// Checks the fixed signature once. On the first call, a matching
    /// signature is consumed and written to `out` verbatim; a missing
    /// or wrong signature is a fatal structural error and writes
    /// nothing. Later calls do nothing.
    #[verifier::loop_isolation(false)]
    pub fn check_header(&mut self, out: &mut Vec<u8>) -> (r: Result<(), RewriteError>)
        requires
            old(self).wf(),
        ensures
            final(self).wf(),
            final(self).stream() == old(self).stream(),
            final(self).tkind() == old(self).tkind(),
            old(self).is_started() ==> *final(self) == *old(self) && final(out)@ == old(out)@
                && r is Ok,
            !old(self).is_started() ==> final(self).is_started() && !final(self).peeked() && (
            if sig_ok(old(self).stream()) {
                &&& r is Ok
                &&& final(out)@ == old(out)@ + png_sig()
                &&& !final(self).is_failed()
                &&& final(self).head() == 8
            } else {
                &&& r matches Err(e) && e is BadSignature
                &&& final(out)@ == old(out)@
                &&& final(self).is_failed()
            }),
    {
        if self.started {
            return Ok(());
        }
        self.started = true;
        if self.input.len() < 8 {
            self.failed = true;
            return Err(RewriteError::BadSignature);
        }
        let ghost snap = *self;
        let sig = png_signature();
        let mut i: usize = 0;
        while i < 8
            invariant
                *self == snap,
                self.input@.len() >= 8,
                self.started,
                !self.failed,
                self.pos == 0,
                self.info is None,
                sig@ == png_sig(),
                i <= 8,
                forall|k: int| 0 <= k < i ==> self.input@[k] == png_sig()[k],
            decreases 8 - i,
        {
            if self.input[i] != sig[i] {
                proof {
                    assert(self.input@.subrange(0, 8)[i as int] == self.input@[i as int]);
                }
                self.failed = true;
                return Err(RewriteError::BadSignature);
            }
            i += 1;
        }
        proof {
            assert(self.input@.subrange(0, 8) =~= png_sig());
        }
        self.pos = 8;
        let mut sigv = sig;
        out.append(&mut sigv);
        Ok(())
    }

    /// Peeks the next 8-byte chunk header if none is held and at
    /// least 8 bytes remain; runs the signature step first if it has
    /// not run. Fewer than 8 remaining bytes is a clean end.
    fn look_ahead(&mut self, out: &mut Vec<u8>) -> (r: Result<(), RewriteError>)
        requires
            old(self).wf(),
        ensures
            final(self).wf(),
            final(self).stream() == old(self).stream(),
            final(self).tkind() == old(self).tkind(),
            match r {
                Err(e) => {
                    &&& e is BadSignature
                    &&& !old(self).started
                    &&& !sig_ok(old(self).stream())
                    &&& final(out)@ == old(out)@
                    &&& final(self).is_started() && final(self).is_failed()
                    &&& final(self).info is None
                },
                Ok(()) => {
                    &&& final(out)@ == old(out)@ + (
                    if !old(self).started && sig_ok(old(self).stream()) {
                        png_sig()
                    } else {
                        Seq::<u8>::empty()
                    })
                    &&& (old(self).info is Some ==> *final(self) == *old(self))
                    &&& (old(self).is_failed() ==> *final(self) == *old(self))
                    &&& (old(self).info is None && !old(self).is_failed() ==> {
                        let h = if old(self).started {
                            old(self).pos as int
                        } else {
                            8
                        };
                        &&& final(self).is_started() && !final(self).is_failed()
                        &&& final(self).head() == h
                        &&& (final(self).info is Some <==> old(self).stream().len() - h >= 8)
                        &&& final(self).boundary()
                    })
                },
            },
    {
        if self.info.is_some() {
            return Ok(());
        }
        self.check_header(out)?;
        if self.failed {
            return Ok(());
        }
        if self.input.len() - self.pos >= 8 {
            let hdr = copy_range(&self.input, self.pos, 8);
            self.pos = self.pos + 8;
            self.info = Some(ChunkInfo::from_bytes(hdr));
        }
        Ok(())
    }

    /// Reads, validates and merges the run of consecutive chunks that
    /// share the peeked header's type tag: for each chunk the payload
    /// is read in full, the on-wire checksum is compared against one
    /// computed over tag and payload, and the payloads are
    /// concatenated. On return the header after the run is peeked (or
    /// the stream is exhausted). Writes nothing.
    #[verifier::loop_isolation(false)]
    fn chunk_data(&mut self, out: &mut Vec<u8>) -> (r: Result<Vec<u8>, RewriteError>)
        requires
            old(self).wf(),
            old(self).is_started(),
            !old(self).is_failed(),
            old(self).info is Some,
        ensures
            final(self).wf(),
            final(self).stream() == old(self).stream(),
            final(self).tkind() == old(self).tkind(),
            final(self).is_started(),
            final(out)@ == old(out)@,
            ({
                let s = old(self).stream();
                let h = old(self).head();
                let tag = tag_at(s, h);
                match r {
                    Ok(data) => {
                        &&& collect_run(s, h, tag) matches Ok(p) && data@ == p.0
                        &&& collect_run(s, h, tag) matches Ok(p) ==> final(self).head() == p.1
                            && (final(self).peeked() <==> s.len() - p.1 >= 8)
                        &&& !final(self).is_failed()
                        &&& final(self).boundary()
                    },
                    Err(e) => collect_run(s, h, tag) matches Err(k) && e.kind() == k,
                }
            }),
    {
        let ghost s = self.input@;
        let ghost h0 = self.head();
        let ghost t0 = self.transform;
        let ghost out0 = out@;
        let tag: Vec<u8> = match &self.info {
            Some(ci) => ci.raw_type(),
            None => {
                proof {
                    assert(false);
                }
                return Err(RewriteError::TruncatedPayload);
            },
        };
        let ghost tags = tag@;
        proof {
            assert(self.info matches Some(ci) && ci@.subrange(4, 8) =~= tag_at(s, h0));
        }
        let mut data: Vec<u8> = Vec::new();
        loop
            invariant
                self.wf(),
                self.is_started(),
                !self.is_failed(),
                self.input@ == s,
                self.transform == t0,
                self.info is Some,
                out@ == out0,
                tag@ == tags,
                tag_at(s, self.head()) == tags,
                8 <= self.head(),
                s.len() - self.head() >= 8,
                match collect_run(s, h0, tags) {
                    Ok(p) => collect_run(s, self.head(), tags) matches Ok(q) && p.0 == data@
                        + q.0 && p.1 == q.1,
                    Err(k) => collect_run(s, self.head(), tags) matches Err(k2) && k2 == k,
                },
            decreases s.len() - self.head(),
        {
            let ghost cur = self.head();
            let info: ChunkInfo = match &self.info {
                Some(ci) => ci.duplicate(),
                None => {
                    proof {
                        assert(false);
                    }
                    return Err(RewriteError::TruncatedPayload);
                },
            };
            self.info = None;
            proof {
                assert(info@.subrange(0, 4) =~= s.subrange(cur, cur + 4));
                assert(info@.subrange(4, 8) =~= s.subrange(cur + 4, cur + 8));
            }
            let size32 = info.size();
            let size = size32 as usize;
            proof {
                assert(size as int == len_at(s, cur));
            }
            if self.input.len() - self.pos < size {
                proof {
                    assert(collect_run(s, cur, tags) == Err::<(Seq<u8>, int), ErrKind>(
                        ErrKind::Truncated,
                    ));
                }
                return Err(RewriteError::TruncatedPayload);
            }
            let mut payload = copy_range(&self.input, self.pos, size);
            self.pos = self.pos + size;
            proof {
                assert(payload@ =~= payload_at(s, cur));
            }
            if self.input.len() - self.pos < 4 {
                proof {
                    assert(collect_run(s, cur, tags) == Err::<(Seq<u8>, int), ErrKind>(
                        ErrKind::Checksum(tags),
                    ));
                }
                return Err(RewriteError::ChecksumMismatch(tag));
            }
            let crcb = copy_range(&self.input, self.pos, 4);
            self.pos = self.pos + 4;
            let wire = bytes_to_int(crcb.as_slice());
            let computed = crc32_over(&tag, &payload);
            proof {
                assert(crcb@ =~= s.subrange(cur + 8 + len_at(s, cur), cur + 12 + len_at(s, cur)));
                assert(wire as int == crc_at(s, cur));
            }
            if wire != computed {
                proof {
                    assert(collect_run(s, cur, tags) == Err::<(Seq<u8>, int), ErrKind>(
                        ErrKind::Checksum(tags),
                    ));
                }
                return Err(RewriteError::ChecksumMismatch(tag));
            }
            let ghost j = next_at(s, cur);
            let ghost data_before = data@;
            data.append(&mut payload);
            match self.look_ahead(out) {
                Ok(()) => {},
                Err(e) => {
                    proof {
                        assert(false);
                    }
                    return Err(e);
                },
            }
            let keep_going: bool = match &self.info {
                None => false,
                Some(ci) => {
                    let ntag = ci.raw_type();
                    tags_equal(&ntag, &tag)
                },
            };
            proof {
                assert(self.peeked() <==> s.len() - j >= 8);
                assert(self.head() == j);
                if self.peeked() {
                    assert(self.info matches Some(ci) && ci@.subrange(4, 8) =~= tag_at(s, j));
                }
            }
            if !keep_going {
                proof {
                    assert(collect_run(s, cur, tags) == Ok::<(Seq<u8>, int), ErrKind>((
                        payload_at(s, cur),
                        j,
                    )));
                    assert(data@ =~= data_before + payload_at(s, cur));
                }
                return Ok(data);
            }
            proof {
                assert(s.len() - j >= 8 && tag_at(s, j) == tags);
                assert(collect_run(s, cur, tags) == (match collect_run(s, j, tags) {
                    Ok(q) => Ok::<(Seq<u8>, int), ErrKind>((payload_at(s, cur) + q.0, q.1)),
                    Err(e) => Err::<(Seq<u8>, int), ErrKind>(e),
                }));
                if collect_run(s, h0, tags) is Ok {
                    let p = collect_run(s, h0, tags)->Ok_0;
                    let q = collect_run(s, j, tags);
                    assert(q is Ok);
                    assert(p.0 =~= (data_before + payload_at(s, cur)) + q->Ok_0.0);
                    assert(data@ =~= data_before + payload_at(s, cur));
                }
            }
        }
    }

    /// True while the stream may still hold work: before the
    /// signature step, or while a header is peeked.
    pub fn has_data(&self) -> (r: bool)
        ensures
            r == (!self.is_started() || self.peeked()),
    {
        if !self.started {
            return true;
        }
        self.info.is_some()
    }

    /// Processes one merged run: reads and validates it, applies the
    /// transform, and writes the resulting chunk (if kept) with a
    /// rewritten length field and a freshly computed checksum. Runs
    /// the signature step first when it has not run yet.
    fn write_chunk(&mut self, out: &mut Vec<u8>) -> (r: Result<(), RewriteError>)
        requires
            old(self).wf(),
            old(self).boundary(),
            old(self).is_started() ==> !old(self).is_failed() && old(self).peeked(),
        ensures
            final(self).wf(),
            final(self).stream() == old(self).stream(),
            final(self).tkind() == old(self).tkind(),
            ({
                let s = old(self).stream();
                let t = old(self).tkind();
                if !old(self).is_started() && !sig_ok(s) {
                    &&& r matches Err(e) && e is BadSignature
                    &&& final(out)@ == old(out)@
                    &&& final(self).is_started() && final(self).is_failed()
                } else {
                    let base = if old(self).is_started() {
                        old(out)@
                    } else {
                        old(out)@ + png_sig()
                    };
                    let h = if old(self).is_started() {
                        old(self).head()
                    } else {
                        8int
                    };
                    if s.len() - h < 8 {
                        &&& r is Ok
                        &&& final(out)@ == base
                        &&& final(self).is_started() && !final(self).is_failed()
                        &&& !final(self).peeked()
                        &&& final(self).boundary()
                    } else {
                        match run_step(t, s, h) {
                            RunStep::Fail(k) => {
                                &&& r matches Err(e) && e.kind() == k
                                &&& final(out)@ == base
                            },
                            RunStep::Go(em, j) => {
                                &&& r is Ok
                                &&& final(out)@ == base + em
                                &&& final(self).is_started() && !final(self).is_failed()
                                &&& final(self).head() == j
                                &&& (final(self).peeked() <==> s.len() - j >= 8)
                                &&& final(self).boundary()
                            },
                        }
                    }
                }
            }),
    {
        let ghost s = self.input@;
        match self.look_ahead(out) {
            Ok(()) => {},
            Err(e) => {
                return Err(e);
            },
        }
        if self.info.is_none() {
            return Ok(());
        }
        let ghost h = self.head();
        let info: ChunkInfo = match &self.info {
            Some(ci) => ci.duplicate(),
            None => {
                proof {
                    assert(false);
                }
                return Ok(());
            },
        };
        let data = match self.chunk_data(out) {
            Ok(d) => d,
            Err(e) => {
                return Err(e);
            },
        };
        let tag = info.raw_type();
        proof {
            assert(info@.subrange(4, 8) =~= tag_at(s, h));
        }
        let new_payload: Vec<u8> = match apply_transform(self.transform, &info, data) {
            Err(e) => {
                return Err(e);
            },
            Ok(TransformOutcome::Drop) => {
                proof {
                    assert(out@ =~= out@ + Seq::<u8>::empty());
                }
                return Ok(());
            },
            Ok(TransformOutcome::Keep(p)) => p,
        };
        if new_payload.len() as u64 > 0xffff_ffffu64 {
            return Err(RewriteError::PayloadTooLarge);
        }
        let ghost np0 = new_payload@;
        let ghost base = out@;
        let size = new_payload.len() as u32;
        proof {
            assert(size as int == np0.len());
        }
        let mut header = info;
        header.set_size(size);
        let crc = crc32_over(&tag, &new_payload);
        let mut hb = header.bytes();
        let mut np = new_payload;
        let mut crcb = int_to_bytes(crc);
        out.append(&mut hb);
        out.append(&mut np);
        out.append(&mut crcb);
        proof {
            assert(header@ == be_of(np0.len() as int) + tag_at(s, h));
            assert(crc == crc32_of(tag_at(s, h) + np0));
            assert(out@ =~= base + frame(tag_at(s, h), np0));
        }
        Ok(())
    }

    /// Drains the whole stream: validates the signature, then rewrites
    /// run after run until fewer than 8 bytes remain. On success `out`
    /// has gained exactly the rewritten stream; on a fatal error it
    /// has gained the valid prefix written before the error, and
    /// nothing for the chunk in flight.
    #[verifier::rlimit(60)]
    pub fn write_all(&mut self, out: &mut Vec<u8>) -> (r: Result<(), RewriteError>)
        requires
            old(self).wf(),
            old(self).fresh(),
        ensures
            final(self).wf(),
            ({
                let rw = spec_rewrite(old(self).tkind(), old(self).stream());
                match r {
                    Ok(()) => {
                        &&& rw.1 is None
                        &&& final(out)@ == old(out)@ + rw.0
                        &&& final(self).is_started() && !final(self).peeked()
                    },
                    Err(e) => rw.1 == Option::Some(e.kind()) && final(out)@ == old(out)@
                        + rw.0,
                }
            }),
    {
        let ghost s = self.input@;
        let ghost t = self.transform;
        let ghost out0 = out@;
        let ghost mut acc: Seq<u8> = Seq::empty();
        #[verifier::loop_isolation(false)]
        while self.has_data()
            invariant
                self.wf(),
                self.input@ == s,
                self.transform == t,
                !self.is_failed(),
                self.boundary(),
                !self.is_started() ==> out@ == out0 && acc == Seq::<u8>::empty() && self.fresh(),
                self.is_started() ==> {
                    &&& sig_ok(s)
                    &&& out@ == out0 + png_sig() + acc
                    &&& rewrite_chunks(t, s, 8).0 == acc + rewrite_chunks(t, s, self.head()).0
                    &&& rewrite_chunks(t, s, 8).1 == rewrite_chunks(t, s, self.head()).1
                    &&& 8 <= self.head() <= s.len()
                },
            decreases s.len() - self.head() + (if self.is_started() {
                0int
            } else {
                1int
            }),
        {
            let ghost h = self.head();
            let ghost was_started = self.is_started();
            match self.write_chunk(out) {
                Err(e) => {
                    proof {
                        if !was_started && !sig_ok(s) {
                            assert(out0 + spec_rewrite(t, s).0 =~= out0);
                        } else {
                            let h_eff: int = if was_started {
                                h
                            } else {
                                8int
                            };
                            let acc_eff: Seq<u8> = if was_started {
                                acc
                            } else {
                                Seq::empty()
                            };
                            assert(s.len() - h_eff >= 8);
                            match run_step(t, s, h_eff) {
                                RunStep::Fail(k) => {
                                    assert(rewrite_chunks(t, s, h_eff) == (
                                        Seq::<u8>::empty(),
                                        Option::Some(k),
                                    ));
                                    assert(rewrite_chunks(t, s, 8).1 == Option::Some(k));
                                    assert(rewrite_chunks(t, s, 8).0 =~= acc_eff);
                                    assert(spec_rewrite(t, s).0 =~= png_sig() + acc_eff);
                                    assert(out@ =~= out0 + spec_rewrite(t, s).0);
                                },
                                RunStep::Go(em, j) => {
                                    assert(false);
                                },
                            }
                        }
                    }
                    return Err(e);
                },
                Ok(()) => {
                    proof {
                        let h_eff: int = if was_started {
                            h
                        } else {
                            8int
                        };
                        if s.len() - h_eff < 8 {
                            assert(!was_started);
                            assert(out@ =~= out0 + png_sig() + acc);
                        } else {
                            lemma_run_step_bounds(t, s, h_eff);
                            let em = run_step(t, s, h_eff)->Go_0;
                            let j = run_step(t, s, h_eff)->Go_1;
                            assert(rewrite_chunks(t, s, h_eff).0 == em + rewrite_chunks(
                                t,
                                s,
                                j,
                            ).0);
                            assert(rewrite_chunks(t, s, h_eff).1 == rewrite_chunks(t, s, j).1);
                            if was_started {
                                let acc_old = acc;
                                acc = acc + em;
                                assert(rewrite_chunks(t, s, 8).0 == acc + rewrite_chunks(
                                    t,
                                    s,
                                    j,
                                ).0) by {
                                    assert(acc_old + (em + rewrite_chunks(t, s, j).0) =~= (
                                    acc_old + em) + rewrite_chunks(t, s, j).0);
                                }
                                assert(out@ =~= out0 + png_sig() + acc);
                            } else {
                                acc = em;
                                assert(out@ =~= out0 + png_sig() + acc);
                            }
                        }
                    }
                },
            }
        }
        proof {
            assert(self.is_started() && !self.peeked());
            assert(s.len() - self.head() < 8);
            assert(rewrite_chunks(t, s, self.head()) == (
                Seq::<u8>::empty(),
                Option::<ErrKind>::None,
            ));
            assert(rewrite_chunks(t, s, 8).0 =~= acc);
            assert(spec_rewrite(t, s).0 =~= png_sig() + acc);
            assert(out@ =~= out0 + spec_rewrite(t, s).0);
        }
        Ok(())
    }
}

/// Rewrites a whole stream with the pass-through transform: on
/// success `out` gains a byte-exact structural copy (adjacent
/// same-tag chunks merged); on a fatal error it gains the valid
/// prefix written before the error, and the error says exactly what
/// the stream's first fault is.
pub fn copy_plain(input: Vec<u8>, out: &mut Vec<u8>) -> (r: Result<(), RewriteError>)
    ensures
        ({
            let rw = spec_rewrite(TransformKind::Noop, input@);
            match r {
                Ok(()) => rw.1 is None && final(out)@ == old(out)@ + rw.0,
                Err(e) => rw.1 == Option::Some(e.kind()) && final(out)@ == old(out)@ + rw.0,
            }
        }),
{
    let mut png = PngReader::new(input, TransformKind::Noop);
    png.write_all(out)
}

/// Rewrites a whole stream with the re-encoding transform: ancillary
/// chunks are dropped, the image-data payload is re-stored without
/// its inner compression, and every other chunk passes through. On a
/// fatal error `out` gains the valid prefix written before it, and
/// nothing for the chunk in flight.
pub fn copy_reflate(input: Vec<u8>, out: &mut Vec<u8>) -> (r: Result<(), RewriteError>)
    ensures
        ({
            let rw = spec_rewrite(TransformKind::Reflate, input@);
            match r {
                Ok(()) => rw.1 is None && final(out)@ == old(out)@ + rw.0,
                Err(e) => rw.1 == Option::Some(e.kind()) && final(out)@ == old(out)@ + rw.0,
            }
        }),
{
    let mut png = PngReader::new(input, TransformKind::Reflate);
    png.write_all(out)
}

} // verus!
