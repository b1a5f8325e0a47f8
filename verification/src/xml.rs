//! The XML wire decoder.
//!
//! Supported subset: one element per comment, `<d p="ATTR">CONTENT</d>`. The
//! attribute string holds six comma-separated decimal fields —
//! `timeline_offset, motion_code, font_size, color, sender_id, comment_id` —
//! and the element text is the content, with the four standard entities
//! (`&amp; &lt; &gt; &quot;`) decoded. The input is cut at every `<`; a chunk
//! opening with `d p="` is one comment record. A structurally broken element
//! (no closing quote, or no `>` after it — the input is truncated or not this
//! format at all) aborts the whole decode; a record with a malformed
//! attribute (wrong field count, non-numeric field) is reported by its index
//! among the records and does not abort it.

use vstd::prelude::*;
use crate::error::DanmakuError;
use crate::normalize::{RawRecord, RecordFailure};
use crate::text::{dec_val, first_sep, is_dec, lemma_first_sep_props, parse_u64, spec_split,
    split_bytes, views, slice_suffix};

verus! {

/// The view of a raw record: exec fields plus the content bytes as a `Seq`.
pub struct RawView {
    pub timeline_offset: u64,
    pub mode_code: u64,
    pub font_size: u32,
    pub color: u32,
    pub alpha: u8,
    pub sender_id: u64,
    pub comment_id: Option<u64>,
    pub content: Seq<u8>,
}

impl View for RawRecord {
    type V = RawView;

    open spec fn view(&self) -> RawView {
        RawView {
            timeline_offset: self.timeline_offset,
            mode_code: self.mode_code,
            font_size: self.font_size,
            color: self.color,
            alpha: self.alpha,
            sender_id: self.sender_id,
            comment_id: self.comment_id,
            content: self.content@,
        }
    }
}

// ---------------------------------------------------------------------------
// Entity decoding.
// ---------------------------------------------------------------------------

pub open spec fn ent_amp() -> Seq<u8> {
    seq![38u8, 97, 109, 112, 59]
}

pub open spec fn ent_lt() -> Seq<u8> {
    seq![38u8, 108, 116, 59]
}

pub open spec fn ent_gt() -> Seq<u8> {
    seq![38u8, 103, 116, 59]
}

pub open spec fn ent_quot() -> Seq<u8> {
    seq![38u8, 113, 117, 111, 116, 59]
}

/// Decode the four standard entities; anything else is kept literally.
pub open spec fn spec_xml_unescape(s: Seq<u8>) -> Seq<u8>
    decreases s.len(),
{
    if s.len() == 0 {
        Seq::empty()
    } else if s.len() >= 5 && s.subrange(0, 5) == ent_amp() {
        seq![38u8] + spec_xml_unescape(s.skip(5))
    } else if s.len() >= 4 && s.subrange(0, 4) == ent_lt() {
        seq![60u8] + spec_xml_unescape(s.skip(4))
    } else if s.len() >= 4 && s.subrange(0, 4) == ent_gt() {
        seq![62u8] + spec_xml_unescape(s.skip(4))
    } else if s.len() >= 6 && s.subrange(0, 6) == ent_quot() {
        seq![34u8] + spec_xml_unescape(s.skip(6))
    } else {
        seq![s[0]] + spec_xml_unescape(s.skip(1))
    }
}

pub fn xml_unescape(s: &[u8]) -> (r: Vec<u8>)
    ensures
        r@ == spec_xml_unescape(s@),
{
    let n = s.len();
    let mut out: Vec<u8> = Vec::new();
    let mut i: usize = 0;
    proof {
        assert(s@.skip(0) =~= s@);
    }
    while i < n
        invariant
            i <= n,
            n == s@.len(),
            spec_xml_unescape(s@) == out@ + spec_xml_unescape(s@.skip(i as int)),
        decreases n - i,
    {
        let ghost t = s@.skip(i as int);
        let ghost pre = out@;
        if s[i] == 38 && n - i >= 5 && s[i + 1] == 97 && s[i + 2] == 109 && s[i + 3] == 112 && s[i
            + 4] == 59 {
            proof {
                assert(t.subrange(0, 5) =~= ent_amp());
                assert(t.skip(5) =~= s@.skip(i + 5));
            }
            out.push(38);
            i = i + 5;
        } else if s[i] == 38 && n - i >= 4 && s[i + 1] == 108 && s[i + 2] == 116 && s[i + 3]
            == 59 {
            proof {
                assert(t.subrange(0, 4) =~= ent_lt());
                if t.len() >= 5 && t.subrange(0, 5) == ent_amp() {
                    assert(t.subrange(0, 5)[1] == 97);
                }
                assert(t.skip(4) =~= s@.skip(i + 4));
            }
            out.push(60);
            i = i + 4;
        } else if s[i] == 38 && n - i >= 4 && s[i + 1] == 103 && s[i + 2] == 116 && s[i + 3]
            == 59 {
            proof {
                assert(t.subrange(0, 4) =~= ent_gt());
                if t.len() >= 5 && t.subrange(0, 5) == ent_amp() {
                    assert(t.subrange(0, 5)[1] == 97);
                }
                if t.len() >= 4 && t.subrange(0, 4) == ent_lt() {
                    assert(t.subrange(0, 4)[1] == 108);
                }
                assert(t.skip(4) =~= s@.skip(i + 4));
            }
            out.push(62);
            i = i + 4;
        } else if s[i] == 38 && n - i >= 6 && s[i + 1] == 113 && s[i + 2] == 117 && s[i + 3] == 111
            && s[i + 4] == 116 && s[i + 5] == 59 {
            proof {
                assert(t.subrange(0, 6) =~= ent_quot());
                if t.len() >= 5 && t.subrange(0, 5) == ent_amp() {
                    assert(t.subrange(0, 5)[1] == 97);
                }
                if t.len() >= 4 && t.subrange(0, 4) == ent_lt() {
                    assert(t.subrange(0, 4)[1] == 108);
                }
                if t.len() >= 4 && t.subrange(0, 4) == ent_gt() {
                    assert(t.subrange(0, 4)[1] == 103);
                }
                assert(t.skip(6) =~= s@.skip(i + 6));
            }
            out.push(34);
            i = i + 6;
        } else {
            proof {
                if t.len() >= 5 && t.subrange(0, 5) == ent_amp() {
                    assert(t[0] == 38 && t[1] == 97 && t[2] == 109 && t[3] == 112 && t[4] == 59);
                }
                if t.len() >= 4 && t.subrange(0, 4) == ent_lt() {
                    assert(t[0] == 38 && t[1] == 108 && t[2] == 116 && t[3] == 59);
                }
                if t.len() >= 4 && t.subrange(0, 4) == ent_gt() {
                    assert(t[0] == 38 && t[1] == 103 && t[2] == 116 && t[3] == 59);
                }
                if t.len() >= 6 && t.subrange(0, 6) == ent_quot() {
                    assert(t[0] == 38 && t[1] == 113 && t[2] == 117 && t[3] == 111 && t[4] == 116
                        && t[5] == 59);
                }
                assert(t.skip(1) =~= s@.skip(i + 1));
            }
            out.push(s[i]);
            i = i + 1;
        }
        proof {
            assert(spec_xml_unescape(s@) == out@ + spec_xml_unescape(s@.skip(i as int)));
        }
    }
    proof {
        assert(s@.skip(n as int) =~= Seq::<u8>::empty());
        assert(out@ + Seq::<u8>::empty() =~= out@);
    }
    out
}

// ---------------------------------------------------------------------------
// Chunk grammar.
// ---------------------------------------------------------------------------

/// `d p="` — the opening of a comment element, after the `<` cut.
pub open spec fn elem_open() -> Seq<u8> {
    seq![100u8, 32, 112, 61, 34]
}

pub open spec fn chunk_is_elem(c: Seq<u8>) -> bool {
    c.len() >= 5 && c.subrange(0, 5) == elem_open()
}

/// A decimal attribute field that fits the given bound.
pub open spec fn dec_fits(f: Seq<u8>, bound: nat) -> bool {
    is_dec(f) && dec_val(f) <= bound
}

/// The six attribute fields, all decimal and in range.
pub open spec fn attr_ok(fs: Seq<Seq<u8>>) -> bool {
    &&& fs.len() >= 6
    &&& dec_fits(fs[0], u64::MAX as nat)
    &&& dec_fits(fs[1], u64::MAX as nat)
    &&& dec_fits(fs[2], u32::MAX as nat)
    &&& dec_fits(fs[3], u32::MAX as nat)
    &&& dec_fits(fs[4], u64::MAX as nat)
    &&& dec_fits(fs[5], u64::MAX as nat)
}

/// An element chunk whose structure is broken — no closing quote, or no `>`
/// right after it: the input is truncated or not this format at all, which is
/// fatal for the whole decode.
pub open spec fn chunk_structural_bad(c: Seq<u8>) -> bool {
    chunk_is_elem(c) && {
        let t = c.skip(5);
        let q = first_sep(t, 34) as int;
        q >= t.len() || !(q + 2 <= t.len() && t[q + 1] == 62)
    }
}

/// Whether any element chunk is structurally broken.
pub open spec fn spec_xml_fatal(cs: Seq<Seq<u8>>) -> bool {
    exists|i: int| 0 <= i < cs.len() && chunk_structural_bad(#[trigger] cs[i])
}

/// Executable form of `chunk_structural_bad`.
fn chunk_bad(c: &[u8]) -> (r: bool)
    requires
        chunk_is_elem(c@),
    ensures
        r == chunk_structural_bad(c@),
{
    let t = slice_suffix(c, 5);
    let tn = t.len();
    let mut q: usize = 0;
    while q < tn && t[q] != 34
        invariant
            q <= tn,
            tn == t@.len(),
            forall|j: int| 0 <= j < q ==> t@[j] != 34,
        decreases tn - q,
    {
        q = q + 1;
    }
    proof {
        lemma_first_sep_props(t@, 34);
        let f0 = first_sep(t@, 34) as int;
        if f0 < q {
            assert(t@[f0] != 34);
        }
        if q < f0 && q < tn {
            assert(t@[q as int] != 34);
        }
        assert(f0 == q);
    }
    if q >= tn {
        return true;
    }
    !(tn - q >= 2 && t[q + 1] == 62)
}

/// What an element chunk decodes to, if anything.
pub open spec fn spec_chunk_record(c: Seq<u8>) -> Option<RawView> {
    let t = c.skip(5);
    let q = first_sep(t, 34) as int;
    if q >= t.len() {
        None
    } else if !(q + 2 <= t.len() && t[q + 1] == 62) {
        None
    } else {
        let fs = spec_split(t.subrange(0, q), 44);
        if !attr_ok(fs) {
            None
        } else {
            Some(
                RawView {
                    timeline_offset: dec_val(fs[0]) as u64,
                    mode_code: dec_val(fs[1]) as u64,
                    font_size: dec_val(fs[2]) as u32,
                    color: dec_val(fs[3]) as u32,
                    alpha: 255,
                    sender_id: dec_val(fs[4]) as u64,
                    comment_id: Some(dec_val(fs[5]) as u64),
                    content: spec_xml_unescape(t.skip(q + 2)),
                },
            )
        }
    }
}

/// Parse one element chunk exactly as `spec_chunk_record` describes.
pub fn parse_xml_chunk(c: &[u8]) -> (r: Option<RawRecord>)
    requires
        chunk_is_elem(c@),
    ensures
        match r {
            Some(rec) => spec_chunk_record(c@) == Some(rec@),
            None => spec_chunk_record(c@) is None,
        },
{
    let t = slice_suffix(c, 5);
    let tn = t.len();
    // find the closing quote
    let mut q: usize = 0;
    while q < tn && t[q] != 34
        invariant
            q <= tn,
            tn == t@.len(),
            forall|j: int| 0 <= j < q ==> t@[j] != 34,
        decreases tn - q,
    {
        q = q + 1;
    }
    proof {
        lemma_first_sep_props(t@, 34);
        let f0 = first_sep(t@, 34) as int;
        if f0 < q {
            assert(t@[f0] != 34);
        }
        if q < f0 && q < tn {
            assert(t@[q as int] != 34);
        }
        assert(f0 == q);
    }
    if q >= tn {
        return None;
    }
    if !(tn - q >= 2 && t[q + 1] == 62) {
        return None;
    }
    let attr = &t[0..q];
    proof {
        assert(attr@ =~= t@.subrange(0, q as int));
    }
    let fields = split_bytes(attr, 44);
    let ghost fs = spec_split(t@.subrange(0, q as int), 44);
    proof {
        assert(views(fields@) == fs);
        assert(forall|i: int| 0 <= i < fields@.len() ==> views(fields@)[i] == #[trigger] fields@[i]@);
    }
    if fields.len() < 6 {
        return None;
    }
    let offset = match parse_u64(&fields[0]) {
        Some(v) => v,
        None => {
            return None;
        },
    };
    let mode = match parse_u64(&fields[1]) {
        Some(v) => v,
        None => {
            return None;
        },
    };
    let font_size = match parse_u64(&fields[2]) {
        Some(v) => v,
        None => {
            return None;
        },
    };
    if font_size > u32::MAX as u64 {
        return None;
    }
    let color = match parse_u64(&fields[3]) {
        Some(v) => v,
        None => {
            return None;
        },
    };
    if color > u32::MAX as u64 {
        return None;
    }
    let sender = match parse_u64(&fields[4]) {
        Some(v) => v,
        None => {
            return None;
        },
    };
    let id = match parse_u64(&fields[5]) {
        Some(v) => v,
        None => {
            return None;
        },
    };
    let raw_content = slice_suffix(t, q + 2);
    let content = xml_unescape(raw_content);
    Some(
        RawRecord {
            timeline_offset: offset,
            mode_code: mode,
            font_size: font_size as u32,
            color: color as u32,
            alpha: 255,
            sender_id: sender,
            comment_id: Some(id),
            content,
        },
    )
}

// ---------------------------------------------------------------------------
// The whole document.
// ---------------------------------------------------------------------------

/// The records a chunk sequence decodes to, in order; malformed element
/// chunks contribute nothing here (they are reported separately).
pub open spec fn spec_xml_records(cs: Seq<Seq<u8>>) -> Seq<RawView>
    decreases cs.len(),
{
    if cs.len() == 0 {
        Seq::empty()
    } else {
        let head: Seq<RawView> = if chunk_is_elem(cs[0]) {
            match spec_chunk_record(cs[0]) {
                Some(v) => seq![v],
                None => Seq::empty(),
            }
        } else {
            Seq::empty()
        };
        head + spec_xml_records(cs.skip(1))
    }
}

/// The indices (among element chunks) of the malformed ones.
pub open spec fn spec_xml_failures(cs: Seq<Seq<u8>>, base: int) -> Seq<int>
    decreases cs.len(),
{
    if cs.len() == 0 {
        Seq::empty()
    } else if chunk_is_elem(cs[0]) {
        let head: Seq<int> = if spec_chunk_record(cs[0]) is None {
            seq![base]
        } else {
            Seq::empty()
        };
        head + spec_xml_failures(cs.skip(1), base + 1)
    } else {
        spec_xml_failures(cs.skip(1), base)
    }
}

/// Decode an XML document: cut at `<`, decode every `d p="` element chunk.
///
/// A structurally broken element (truncated: no closing quote or no `>`) is
/// fatal for the whole input. Otherwise the records are exactly
/// `spec_xml_records` of the chunks; every element with a malformed attribute
/// is reported as `MalformedInput` with its index among the element chunks,
/// exactly `spec_xml_failures` of them.
pub fn decode_xml(input: &[u8]) -> (r: Result<(Vec<RawRecord>, Vec<RecordFailure>), DanmakuError>)
    ensures
        r is Err <==> spec_xml_fatal(spec_split(input@, 60)),
        match r {
            Ok(p) => {
                let cs = spec_split(input@, 60);
                &&& p.0@.map_values(|rec: RawRecord| rec@) == spec_xml_records(cs)
                &&& p.1@.map_values(|f: RecordFailure| f.index as int) == spec_xml_failures(cs, 0)
                &&& forall|i: int|
                    0 <= i < p.1@.len() ==> ((#[trigger] p.1@[i]).error matches
                        DanmakuError::MalformedInput { index } && index == p.1@[i].index)
            },
            Err(e) => e matches DanmakuError::MalformedInput { .. },
        },
{
    let chunks = split_bytes(input, 60);
    let ghost cs = spec_split(input@, 60);
    proof {
        assert(views(chunks@) == cs);
        assert(forall|i: int| 0 <= i < chunks@.len() ==> views(chunks@)[i] == #[trigger] chunks@[i]@);
    }
    let n = chunks.len();
    let mut records: Vec<RawRecord> = Vec::new();
    let mut fails: Vec<RecordFailure> = Vec::new();
    let mut elem_count: usize = 0;
    let mut j: usize = 0;
    proof {
        assert(cs.skip(0) =~= cs);
        assert(Seq::<RawView>::empty() + spec_xml_records(cs) =~= spec_xml_records(cs));
        assert(Seq::<int>::empty() + spec_xml_failures(cs, 0) =~= spec_xml_failures(cs, 0));
        assert(records@.map_values(|rec: RawRecord| rec@) =~= Seq::<RawView>::empty());
        assert(fails@.map_values(|f: RecordFailure| f.index as int) =~= Seq::<int>::empty());
    }
    while j < n
        invariant
            j <= n,
            n == chunks@.len(),
            views(chunks@) == cs,
            cs == spec_split(input@, 60),
            cs.len() == n,
            elem_count <= j,
            spec_xml_records(cs) == records@.map_values(|rec: RawRecord| rec@)
                + spec_xml_records(cs.skip(j as int)),
            spec_xml_failures(cs, 0) == fails@.map_values(|f: RecordFailure| f.index as int)
                + spec_xml_failures(cs.skip(j as int), elem_count as int),
            forall|i: int|
                0 <= i < fails@.len() ==> ((#[trigger] fails@[i]).error matches
                    DanmakuError::MalformedInput { index } && index == fails@[i].index),
            forall|k: int| 0 <= k < j ==> !chunk_structural_bad(#[trigger] cs[k]),
        decreases n - j,
    {
        let ghost tail = cs.skip(j as int);
        proof {
            assert(tail[0] == cs[j as int]);
            assert(tail.skip(1) =~= cs.skip(j + 1));
            assert(chunks@[j as int]@ == cs[j as int]);
        }
        let ck = &chunks[j];
        let is_elem = ck.len() >= 5 && ck[0] == 100 && ck[1] == 32 && ck[2] == 112 && ck[3] == 61
            && ck[4] == 34;
        proof {
            if is_elem {
                assert(ck@.subrange(0, 5) =~= elem_open());
            } else {
                if ck@.len() >= 5 && ck@.subrange(0, 5) == elem_open() {
                    assert(ck@[0] == 100 && ck@[1] == 32 && ck@[2] == 112 && ck@[3] == 61 && ck@[4]
                        == 34);
                }
            }
            assert(is_elem == chunk_is_elem(cs[j as int]));
        }
        if is_elem {
            if chunk_bad(ck.as_slice()) {
                proof {
                    assert(chunk_structural_bad(cs[j as int]));
                }
                return Err(DanmakuError::MalformedInput { index: elem_count });
            }
            let ghost pre_records = records@;
            let ghost pre_fails = fails@;
            match parse_xml_chunk(ck.as_slice()) {
                Some(rec) => {
                    records.push(rec);
                    proof {
                        assert(records@.map_values(|rec2: RawRecord| rec2@) =~= pre_records
                            .map_values(|rec2: RawRecord| rec2@).push(records@.last()@));
                        assert(seq![records@.last()@] + spec_xml_records(cs.skip(j + 1))
                            =~= spec_xml_records(tail));
                        assert(pre_records.map_values(|rec2: RawRecord| rec2@).push(
                            records@.last()@,
                        ) + spec_xml_records(cs.skip(j + 1)) =~= pre_records.map_values(
                            |rec2: RawRecord| rec2@,
                        ) + spec_xml_records(tail));
                        assert(Seq::<int>::empty() + spec_xml_failures(
                            cs.skip(j + 1),
                            elem_count as int + 1,
                        ) =~= spec_xml_failures(cs.skip(j + 1), elem_count as int + 1));
                        assert(spec_xml_failures(tail, elem_count as int) == spec_xml_failures(
                            cs.skip(j + 1),
                            elem_count as int + 1,
                        ));
                    }
                },
                None => {
                    fails.push(
                        RecordFailure {
                            index: elem_count,
                            error: DanmakuError::MalformedInput { index: elem_count },
                        },
                    );
                    proof {
                        assert(fails@.map_values(|f: RecordFailure| f.index as int) =~= pre_fails
                            .map_values(|f: RecordFailure| f.index as int).push(elem_count as int));
                        assert(seq![elem_count as int] + spec_xml_failures(
                            cs.skip(j + 1),
                            elem_count + 1,
                        ) =~= spec_xml_failures(tail, elem_count as int));
                        assert(pre_fails.map_values(|f: RecordFailure| f.index as int).push(
                            elem_count as int,
                        ) + spec_xml_failures(cs.skip(j + 1), elem_count + 1) =~= pre_fails
                            .map_values(|f: RecordFailure| f.index as int) + spec_xml_failures(
                            tail,
                            elem_count as int,
                        ));
                        assert(Seq::<RawView>::empty() + spec_xml_records(cs.skip(j + 1))
                            =~= spec_xml_records(cs.skip(j + 1)));
                        assert(spec_xml_records(tail) == spec_xml_records(cs.skip(j + 1)));
                    }
                },
            }
            elem_count = elem_count + 1;
        } else {
            proof {
                assert(Seq::<RawView>::empty() + spec_xml_records(cs.skip(j + 1))
                    =~= spec_xml_records(cs.skip(j + 1)));
                assert(spec_xml_records(tail) == spec_xml_records(cs.skip(j + 1)));
                assert(spec_xml_failures(tail, elem_count as int) == spec_xml_failures(
                    cs.skip(j + 1),
                    elem_count as int,
                ));
            }
        }
        j = j + 1;
    }
    proof {
        assert(cs.skip(n as int) =~= Seq::<Seq<u8>>::empty());
        assert(records@.map_values(|rec: RawRecord| rec@) + Seq::<RawView>::empty()
            =~= records@.map_values(|rec: RawRecord| rec@));
        assert(fails@.map_values(|f: RecordFailure| f.index as int) + Seq::<int>::empty()
            =~= fails@.map_values(|f: RecordFailure| f.index as int));
    }
    Ok((records, fails))
}

} // verus!
