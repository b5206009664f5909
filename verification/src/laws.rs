//! The laws of the rewriter, each stated over the spec model and
//! proved once for all inputs.

use vstd::prelude::*;
use crate::checksum::crc32_of;
use crate::codec::{be_of, lemma_be32_of_be_of, lemma_be32_range, lemma_be_of_be32};
use crate::engine::{
    collect_run, crc_at, frame, len_at, next_at, payload_at, png_sig, rewrite_chunks, run_step,
    sig_ok, spec_rewrite, tag_at, RunStep,
};
use crate::errors::ErrKind;
use crate::transform::{apply_transform_spec, idat_tag, is_lower, SpecOutcome, TransformKind};

verus! {

/// A stream tail from `h` made of whole, checksum-valid chunks that
/// ends exactly at a chunk boundary, with no two adjacent chunks
/// sharing a type tag.
pub open spec fn chunks_valid_separate_from(s: Seq<u8>, h: int) -> bool
    decreases s.len() - h,
    when 8 <= h <= s.len()
{
    if h == s.len() {
        true
    } else if s.len() - h < 8 {
        false
    } else {
        let len = len_at(s, h);
        &&& s.len() - (h + 8) >= len
        &&& s.len() - (h + 8 + len) >= 4
        &&& crc_at(s, h) == crc32_of(tag_at(s, h) + payload_at(s, h))
        &&& (s.len() - next_at(s, h) >= 8 ==> tag_at(s, next_at(s, h)) != tag_at(s, h))
        &&& chunks_valid_separate_from(s, next_at(s, h))
    }
}

/// The pass-through rewrite reproduces every valid, separate tail
/// byte for byte and reports no error.
proof fn lemma_rc_noop(s: Seq<u8>, h: int)
    requires
        8 <= h <= s.len(),
        chunks_valid_separate_from(s, h),
    ensures
        rewrite_chunks(TransformKind::Noop, s, h).0 == s.subrange(h, s.len() as int),
        rewrite_chunks(TransformKind::Noop, s, h).1 is None,
    decreases s.len() - h,
{
    let t = TransformKind::Noop;
    if h == s.len() {
        assert(rewrite_chunks(t, s, h).0 =~= s.subrange(h, s.len() as int));
    } else {
        let len = len_at(s, h);
        let tag = tag_at(s, h);
        let p = payload_at(s, h);
        let j = next_at(s, h);
        assert(collect_run(s, h, tag) == Ok::<(Seq<u8>, int), ErrKind>((p, j)));
        lemma_be32_range(s.subrange(h, h + 4));
        assert(p.len() == len);
        assert(run_step(t, s, h) == RunStep::Go(frame(tag, p), j));
        lemma_be_of_be32(s.subrange(h, h + 4));
        lemma_be_of_be32(s.subrange(h + 8 + len, h + 12 + len));
        assert(be_of(p.len() as int) == s.subrange(h, h + 4));
        assert(be_of(crc32_of(tag + p) as int) == s.subrange(h + 8 + len, h + 12 + len));
        assert(frame(tag, p) =~= s.subrange(h, j));
        lemma_rc_noop(s, j);
        assert(rewrite_chunks(t, s, h).0 =~= s.subrange(h, s.len() as int));
    }
}

/// Round trip under pass-through: a stream with a valid signature,
/// whole and checksum-valid chunks up to its exact end, and no two
/// adjacent chunks of one tag, is rewritten to itself.
pub proof fn lemma_roundtrip_noop(s: Seq<u8>)
    requires
        sig_ok(s),
        chunks_valid_separate_from(s, 8),
    ensures
        spec_rewrite(TransformKind::Noop, s).0 == s,
        spec_rewrite(TransformKind::Noop, s).1 is None,
{
    lemma_rc_noop(s, 8);
    assert(png_sig() + s.subrange(8, s.len() as int) =~= s);
}

/// Checksum recomputation: the last 4 bytes of an emitted frame are
/// the encoded checksum of its type tag and its (new) payload,
/// independent of whatever checksum stood on the wire.
pub proof fn lemma_checksum_recomputed(tag: Seq<u8>, payload: Seq<u8>)
    requires
        tag.len() == 4,
        payload.len() < 0x1_0000_0000,
    ensures
        frame(tag, payload).len() == 12 + payload.len(),
        frame(tag, payload).subrange(8 + payload.len() as int, 12 + payload.len() as int)
            == be_of(crc32_of(tag + payload) as int),
{
    assert(frame(tag, payload).subrange(8 + payload.len() as int, 12 + payload.len() as int)
        =~= be_of(crc32_of(tag + payload) as int));
}

/// A frame standing at offset `o` of a stream parses back into its
/// own length, tag, payload and checksum.
proof fn lemma_frame_parses(s: Seq<u8>, o: int, tag: Seq<u8>, p: Seq<u8>)
    requires
        tag.len() == 4,
        p.len() < 0x1_0000_0000,
        8 <= o,
        o + 12 + p.len() <= s.len(),
        s.subrange(o, o + 12 + p.len()) == frame(tag, p),
    ensures
        len_at(s, o) == p.len(),
        tag_at(s, o) == tag,
        payload_at(s, o) == p,
        crc_at(s, o) == crc32_of(tag + p),
        next_at(s, o) == o + 12 + p.len(),
{
    let f = frame(tag, p);
    let n = p.len() as int;
    assert(s.subrange(o, o + 4) =~= be_of(n)) by {
        assert forall|k: int| 0 <= k < 4 implies s.subrange(o, o + 4)[k] == be_of(n)[k] by {
            assert(s.subrange(o, o + 12 + n)[k] == f[k]);
        }
    }
    lemma_be32_of_be_of(n);
    assert(len_at(s, o) == p.len());
    assert(tag_at(s, o) =~= tag) by {
        assert forall|k: int| 0 <= k < 4 implies s.subrange(o + 4, o + 8)[k] == tag[k] by {
            assert(s.subrange(o, o + 12 + n)[4 + k] == f[4 + k]);
        }
    }
    assert(payload_at(s, o) =~= p) by {
        assert forall|k: int| 0 <= k < n implies s.subrange(o + 8, o + 8 + n)[k] == p[k] by {
            assert(s.subrange(o, o + 12 + n)[8 + k] == f[8 + k]);
        }
    }
    assert(s.subrange(o + 8 + n, o + 12 + n) =~= be_of(crc32_of(tag + p) as int)) by {
        assert forall|k: int| 0 <= k < 4 implies s.subrange(o + 8 + n, o + 12 + n)[k] == be_of(
            crc32_of(tag + p) as int,
        )[k] by {
            assert(s.subrange(o, o + 12 + n)[8 + n + k] == f[8 + n + k]);
        }
    }
    lemma_be32_of_be_of(crc32_of(tag + p) as int);
}

/// A stream of the signature and one frame parses as that one run.
proof fn lemma_run_of_one(tag: Seq<u8>, m: Seq<u8>)
    requires
        tag.len() == 4,
        m.len() < 0x1_0000_0000,
    ensures
        ({
            let u = png_sig() + frame(tag, m);
            &&& sig_ok(u)
            &&& u.len() == 20 + m.len()
            &&& collect_run(u, 8, tag) == Ok::<(Seq<u8>, int), ErrKind>((m, u.len() as int))
            &&& tag_at(u, 8) == tag
        }),
{
    let u = png_sig() + frame(tag, m);
    assert(sig_ok(u)) by {
        assert(u.subrange(0, 8) =~= png_sig());
    }
    assert(u.subrange(8, 20 + m.len() as int) =~= frame(tag, m));
    lemma_frame_parses(u, 8, tag, m);
}

/// A stream of the signature and three same-tag frames parses as one
/// merged run holding the concatenated payloads.
#[verifier::rlimit(100)]
#[verifier::spinoff_prover]
proof fn lemma_run_of_three(tag: Seq<u8>, p1: Seq<u8>, p2: Seq<u8>, p3: Seq<u8>)
    requires
        tag.len() == 4,
        p1.len() + p2.len() + p3.len() < 0x1_0000_0000,
    ensures
        ({
            let s = png_sig() + frame(tag, p1) + frame(tag, p2) + frame(tag, p3);
            &&& sig_ok(s)
            &&& s.len() == 44 + p1.len() + p2.len() + p3.len()
            &&& collect_run(s, 8, tag) == Ok::<(Seq<u8>, int), ErrKind>((
                p1 + p2 + p3,
                s.len() as int,
            ))
            &&& tag_at(s, 8) == tag
        }),
{
    let s = png_sig() + frame(tag, p1) + frame(tag, p2) + frame(tag, p3);
    let n1 = p1.len() as int;
    let n2 = p2.len() as int;
    let n3 = p3.len() as int;
    let o1 = 8int;
    let o2 = 20 + n1;
    let o3 = 32 + n1 + n2;
    let ab = png_sig() + frame(tag, p1);
    let abc = ab + frame(tag, p2);
    assert(s.len() == 44 + n1 + n2 + n3);
    assert(sig_ok(s)) by {
        assert(s.subrange(0, 8) =~= png_sig());
    }
    assert(s.subrange(o1, o1 + 12 + n1) =~= frame(tag, p1)) by {
        assert forall|k: int| 0 <= k < 12 + n1 implies s.subrange(o1, o1 + 12 + n1)[k] == frame(
            tag,
            p1,
        )[k] by {
            assert(s[o1 + k] == abc[o1 + k]);
            assert(abc[o1 + k] == ab[o1 + k]);
            assert(ab[o1 + k] == frame(tag, p1)[k]);
        }
    }
    assert(s.subrange(o2, o2 + 12 + n2) =~= frame(tag, p2)) by {
        assert forall|k: int| 0 <= k < 12 + n2 implies s.subrange(o2, o2 + 12 + n2)[k] == frame(
            tag,
            p2,
        )[k] by {
            assert(s[o2 + k] == abc[o2 + k]);
            assert(abc[o2 + k] == frame(tag, p2)[k]);
        }
    }
    assert(s.subrange(o3, o3 + 12 + n3) =~= frame(tag, p3)) by {
        assert forall|k: int| 0 <= k < 12 + n3 implies s.subrange(o3, o3 + 12 + n3)[k] == frame(
            tag,
            p3,
        )[k] by {
            assert(s[o3 + k] == frame(tag, p3)[k]);
        }
    }
    lemma_frame_parses(s, o1, tag, p1);
    lemma_frame_parses(s, o2, tag, p2);
    lemma_frame_parses(s, o3, tag, p3);
    assert(collect_run(s, o3, tag) == Ok::<(Seq<u8>, int), ErrKind>((p3, s.len() as int)));
    assert(collect_run(s, o2, tag) == Ok::<(Seq<u8>, int), ErrKind>((p2 + p3, s.len() as int)));
    assert(collect_run(s, o1, tag) == Ok::<(Seq<u8>, int), ErrKind>((
        p1 + (p2 + p3),
        s.len() as int,
    )));
    assert(p1 + (p2 + p3) =~= p1 + p2 + p3);
}

/// Merge correctness: three consecutive chunks of one tag are
/// rewritten exactly as the single chunk holding their concatenated
/// payloads; the transform sees one merged payload.
#[verifier::rlimit(100)]
#[verifier::spinoff_prover]
pub proof fn lemma_merge_three(t: TransformKind, tag: Seq<u8>, p1: Seq<u8>, p2: Seq<u8>, p3: Seq<
    u8,
>)
    requires
        tag.len() == 4,
        p1.len() + p2.len() + p3.len() < 0x1_0000_0000,
    ensures
        ({
            let merged = png_sig() + frame(tag, p1) + frame(tag, p2) + frame(tag, p3);
            let single = png_sig() + frame(tag, p1 + p2 + p3);
            spec_rewrite(t, merged).0 == spec_rewrite(t, single).0 && spec_rewrite(t, merged).1
                == spec_rewrite(t, single).1
        }),
{
    let s = png_sig() + frame(tag, p1) + frame(tag, p2) + frame(tag, p3);
    let u = png_sig() + frame(tag, p1 + p2 + p3);
    let m = p1 + p2 + p3;
    lemma_run_of_three(tag, p1, p2, p3);
    lemma_run_of_one(tag, m);
    assert(rewrite_chunks(t, s, s.len() as int) == (
        Seq::<u8>::empty(),
        Option::<ErrKind>::None,
    ));
    assert(rewrite_chunks(t, u, u.len() as int) == (
        Seq::<u8>::empty(),
        Option::<ErrKind>::None,
    ));
    match apply_transform_spec(t, tag, m) {
        SpecOutcome::Fail => {
            assert(run_step(t, s, 8) == RunStep::Fail(ErrKind::Transform));
            assert(run_step(t, u, 8) == RunStep::Fail(ErrKind::Transform));
        },
        SpecOutcome::Drop => {
            assert(run_step(t, s, 8) == RunStep::Go(Seq::<u8>::empty(), s.len() as int));
            assert(run_step(t, u, 8) == RunStep::Go(Seq::<u8>::empty(), u.len() as int));
            assert(rewrite_chunks(t, s, 8).0 =~= rewrite_chunks(t, u, 8).0);
        },
        SpecOutcome::Keep(np) => {
            if np.len() > 0xffff_ffff {
                assert(run_step(t, s, 8) == RunStep::Fail(ErrKind::TooLarge));
                assert(run_step(t, u, 8) == RunStep::Fail(ErrKind::TooLarge));
            } else {
                assert(run_step(t, s, 8) == RunStep::Go(frame(tag, np), s.len() as int));
                assert(run_step(t, u, 8) == RunStep::Go(frame(tag, np), u.len() as int));
                assert(rewrite_chunks(t, s, 8).0 =~= rewrite_chunks(t, u, 8).0);
            }
        },
    }
}

/// Drop suppresses framing: when the transform drops the first
/// chunk, the output holds no bytes for it, and what follows the
/// signature in the output is exactly the next kept chunk's frame.
#[verifier::rlimit(100)]
#[verifier::spinoff_prover]
pub proof fn lemma_drop_suppresses(t: TransformKind, tag: Seq<u8>, p: Seq<u8>, tag2: Seq<u8>,
    q: Seq<u8>, nq: Seq<u8>)
    requires
        tag.len() == 4,
        tag2.len() == 4,
        tag2 != tag,
        p.len() < 0x1_0000_0000,
        q.len() < 0x1_0000_0000,
        nq.len() <= 0xffff_ffff,
        apply_transform_spec(t, tag, p) == SpecOutcome::Drop,
        apply_transform_spec(t, tag2, q) == SpecOutcome::Keep(nq),
    ensures
        ({
            let s = png_sig() + frame(tag, p) + frame(tag2, q);
            spec_rewrite(t, s).0 == png_sig() + frame(tag2, nq) && spec_rewrite(t, s).1 is None
        }),
{
    let s = png_sig() + frame(tag, p) + frame(tag2, q);
    let n1 = p.len() as int;
    let n2 = q.len() as int;
    let o1 = 8int;
    let o2 = 20 + n1;
    assert(sig_ok(s)) by {
        assert(s.subrange(0, 8) =~= png_sig());
    }
    assert(s.subrange(o1, o1 + 12 + n1) =~= frame(tag, p));
    assert(s.subrange(o2, o2 + 12 + n2) =~= frame(tag2, q));
    lemma_frame_parses(s, o1, tag, p);
    lemma_frame_parses(s, o2, tag2, q);
    assert(collect_run(s, o1, tag) == Ok::<(Seq<u8>, int), ErrKind>((p, o2)));
    assert(run_step(t, s, o1) == RunStep::Go(Seq::<u8>::empty(), o2));
    assert(collect_run(s, o2, tag2) == Ok::<(Seq<u8>, int), ErrKind>((q, s.len() as int)));
    assert(run_step(t, s, o2) == RunStep::Go(frame(tag2, nq), s.len() as int));
    assert(rewrite_chunks(t, s, s.len() as int) == (
        Seq::<u8>::empty(),
        Option::<ErrKind>::None,
    ));
    assert(rewrite_chunks(t, s, o2).0 =~= frame(tag2, nq));
    assert(rewrite_chunks(t, s, o2).1 is None);
    assert(rewrite_chunks(t, s, 8).0 =~= frame(tag2, nq));
    assert(spec_rewrite(t, s).0 == png_sig() + frame(tag2, nq));
}

/// Truncation detection: a first chunk whose declared length exceeds
/// the remaining bytes stops the rewrite with a truncation error and
/// writes nothing beyond the signature.
pub proof fn lemma_truncation_detected(t: TransformKind, s: Seq<u8>)
    requires
        sig_ok(s),
        s.len() - 8 >= 8,
        len_at(s, 8) > s.len() - 16,
    ensures
        spec_rewrite(t, s).1 == Option::Some(ErrKind::Truncated),
        spec_rewrite(t, s).0 == png_sig(),
{
    assert(collect_run(s, 8, tag_at(s, 8)) == Err::<(Seq<u8>, int), ErrKind>(ErrKind::Truncated));
    assert(run_step(t, s, 8) == RunStep::Fail(ErrKind::Truncated));
    assert(png_sig() + Seq::<u8>::empty() =~= png_sig());
}

/// Checksum tamper detection: a chunk whose on-wire checksum field
/// differs anywhere from the checksum of its tag and payload stops
/// the rewrite with a mismatch error naming that tag, and writes
/// nothing beyond the signature.
pub proof fn lemma_checksum_tamper_detected(t: TransformKind, tag: Seq<u8>, p: Seq<u8>, c: Seq<
    u8,
>)
    requires
        tag.len() == 4,
        c.len() == 4,
        p.len() < 0x1_0000_0000,
        c != be_of(crc32_of(tag + p) as int),
    ensures
        ({
            let s = png_sig() + be_of(p.len() as int) + tag + p + c;
            spec_rewrite(t, s).1 == Option::Some(ErrKind::Checksum(tag)) && spec_rewrite(t, s).0
                == png_sig()
        }),
{
    let s = png_sig() + be_of(p.len() as int) + tag + p + c;
    let n = p.len() as int;
    assert(sig_ok(s)) by {
        assert(s.subrange(0, 8) =~= png_sig());
    }
    assert(s.subrange(8, 12) =~= be_of(n));
    assert(s.subrange(12, 16) =~= tag);
    assert(s.subrange(16, 16 + n) =~= p);
    assert(s.subrange(16 + n, 20 + n) =~= c);
    lemma_be32_of_be_of(n);
    assert(len_at(s, 8) == n);
    assert(tag_at(s, 8) == tag);
    assert(payload_at(s, 8) == p);
    assert(crc_at(s, 8) != crc32_of(tag + p)) by {
        if crc_at(s, 8) == crc32_of(tag + p) {
            lemma_be_of_be32(c);
            assert(c == be_of(crc32_of(tag + p) as int));
        }
    }
    assert(collect_run(s, 8, tag) == Err::<(Seq<u8>, int), ErrKind>(ErrKind::Checksum(tag)));
    assert(run_step(t, s, 8) == RunStep::Fail(ErrKind::Checksum(tag)));
    assert(png_sig() + Seq::<u8>::empty() =~= png_sig());
}

/// Flipping a single bit of a 4-byte field changes the field.
pub proof fn lemma_bit_flip_changes_field(c: Seq<u8>, i: int, m: u8)
    requires
        c.len() == 4,
        0 <= i < 4,
        m != 0,
    ensures
        c.update(i, c[i] ^ m) != c,
{
    let b = c[i];
    assert(b ^ m != b) by (bit_vector)
        requires
            m != 0,
    ;
    assert(c.update(i, b ^ m)[i] == b ^ m);
}

/// Checksum tamper detection under a bit flip: flipping any nonempty
/// set of bits inside one byte of the on-wire checksum — a single
/// bit included — with the payload untouched, yields the mismatch
/// error naming the chunk's tag.
pub proof fn lemma_single_bit_tamper_detected(t: TransformKind, tag: Seq<u8>, p: Seq<u8>, i: int,
    m: u8)
    requires
        tag.len() == 4,
        p.len() < 0x1_0000_0000,
        0 <= i < 4,
        m != 0,
    ensures
        ({
            let good = be_of(crc32_of(tag + p) as int);
            let c = good.update(i, good[i] ^ m);
            let s = png_sig() + be_of(p.len() as int) + tag + p + c;
            spec_rewrite(t, s).1 == Option::Some(ErrKind::Checksum(tag)) && spec_rewrite(t, s).0
                == png_sig()
        }),
{
    let good = be_of(crc32_of(tag + p) as int);
    lemma_bit_flip_changes_field(good, i, m);
    lemma_checksum_tamper_detected(t, tag, p, good.update(i, good[i] ^ m));
}

/// Empty file after signature: a stream of exactly the signature
/// completes with no error, writing only the signature.
pub proof fn lemma_empty_after_signature(t: TransformKind)
    ensures
        spec_rewrite(t, png_sig()).0 == png_sig(),
        spec_rewrite(t, png_sig()).1 is None,
{
    assert(png_sig().subrange(0, 8) =~= png_sig());
    assert(png_sig() + Seq::<u8>::empty() =~= png_sig());
}

/// Case heuristic: under the re-encoding transform a chunk whose
/// tag's first byte is lowercase is dropped, and a chunk whose first
/// byte is not lowercase and whose tag is not the image-data tag is
/// kept byte for byte.
pub proof fn lemma_case_heuristic(tag: Seq<u8>, p: Seq<u8>)
    requires
        tag.len() == 4,
    ensures
        is_lower(tag[0]) ==> apply_transform_spec(TransformKind::Reflate, tag, p)
            == SpecOutcome::Drop,
        !is_lower(tag[0]) && tag != idat_tag() ==> apply_transform_spec(
            TransformKind::Reflate,
            tag,
            p,
        ) == SpecOutcome::Keep(p),
{
}

} // verus!
