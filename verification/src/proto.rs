//! The protobuf wire decoder.
//!
//! The top-level message carries the comments as a repeated length-delimited
//! field 1; every other field is skipped by wire type. Each comment
//! sub-message carries, as optional fields: 1 `timeline_offset`, 2
//! `mode_code`, 3 `font_size`, 4 `color`, 5 `sender_id`, 6 `comment_id`
//! (varints) and 7 `content` (bytes); missing fields take the documented
//! defaults (mode 1, colour white, font size 0 meaning the track's base
//! size). A structurally malformed top-level message (truncated varint or
//! length, unknown wire type) is fatal; a malformed sub-message is a
//! per-record failure that does not abort the decode.

use vstd::prelude::*;
use crate::error::DanmakuError;
use crate::normalize::{RawRecord, RecordFailure};
use crate::special::copy_bytes;
use crate::xml::RawView;

verus! {

/// Base-128 varint at position `i`: its value and the position after it.
pub open spec fn varint_at(s: Seq<u8>, i: int) -> Option<(nat, int)>
    decreases s.len() - i,
{
    if i < 0 || i >= s.len() {
        None
    } else if s[i] < 128 {
        Some((s[i] as nat, i + 1))
    } else {
        match varint_at(s, i + 1) {
            Some(p) => Some((((s[i] - 128) as nat) + 128 * p.0, p.1)),
            None => None,
        }
    }
}

/// Positions after a varint stay inside the buffer.
pub proof fn lemma_varint_bounds(s: Seq<u8>, i: int)
    ensures
        match varint_at(s, i) {
            Some(p) => i < p.1 <= s.len(),
            None => true,
        },
    decreases s.len() - i,
{
    if 0 <= i < s.len() && s[i] >= 128 {
        lemma_varint_bounds(s, i + 1);
    }
}

/// Read one varint; `None` when truncated or over `u64::MAX`.
pub fn read_varint(s: &[u8], i: usize) -> (r: Option<(u64, usize)>)
    requires
        i <= s@.len(),
    ensures
        match r {
            Some(p) => varint_at(s@, i as int) == Some((p.0 as nat, p.1 as int)) && i < p.1
                <= s@.len(),
            None => match varint_at(s@, i as int) {
                Some(q) => q.0 > u64::MAX,
                None => true,
            },
        },
    decreases s@.len() - i,
{
    if i >= s.len() {
        return None;
    }
    let b = s[i];
    if b < 128 {
        return Some((b as u64, i + 1));
    }
    match read_varint(s, i + 1) {
        Some((v, j)) => {
            let w: u128 = ((b - 128) as u128) + 128 * (v as u128);
            if w > u64::MAX as u128 {
                None
            } else {
                Some((w as u64, j))
            }
        },
        None => {
            proof {
                match varint_at(s@, i as int) {
                    Some(q) => {
                        match varint_at(s@, i + 1) {
                            Some(p) => {
                                assert(128 * p.0 >= p.0);
                            },
                            None => {},
                        }
                    },
                    None => {},
                }
            }
            None
        },
    }
}

/// The defaults of a comment sub-message's fields.
pub open spec fn empty_view() -> RawView {
    RawView {
        timeline_offset: 0,
        mode_code: 1,
        font_size: 0,
        color: 0xFF_FF_FF,
        alpha: 255,
        sender_id: 0,
        comment_id: None,
        content: Seq::empty(),
    }
}

/// A varint field applied to the accumulated record; `None` when the value
/// does not fit the field.
pub open spec fn apply_varint_field(acc: RawView, f: nat, v: nat) -> Option<RawView> {
    if v > u64::MAX {
        None
    } else if f == 1 {
        Some(RawView { timeline_offset: v as u64, ..acc })
    } else if f == 2 {
        Some(RawView { mode_code: v as u64, ..acc })
    } else if f == 3 {
        if v > u32::MAX {
            None
        } else {
            Some(RawView { font_size: v as u32, ..acc })
        }
    } else if f == 4 {
        if v > u32::MAX {
            None
        } else {
            Some(RawView { color: v as u32, ..acc })
        }
    } else if f == 5 {
        Some(RawView { sender_id: v as u64, ..acc })
    } else if f == 6 {
        Some(RawView { comment_id: Some(v as u64), ..acc })
    } else {
        Some(acc)
    }
}

/// One comment sub-message, field by field. `fuel` only bounds the recursion;
/// every step consumes at least one byte, so `s.len()` is always enough.
pub open spec fn spec_elem_fields(s: Seq<u8>, i: int, acc: RawView, fuel: nat) -> Option<RawView>
    decreases fuel,
{
    if i >= s.len() {
        Some(acc)
    } else if fuel == 0 {
        None
    } else {
        match varint_at(s, i) {
            None => None,
            Some(t) => if t.0 > u64::MAX {
                None
            } else {
                let f = t.0 / 8;
                let w = t.0 % 8;
                let j = t.1;
                if w == 0 {
                    match varint_at(s, j) {
                        None => None,
                        Some(p) => match apply_varint_field(acc, f, p.0) {
                            None => None,
                            Some(a2) => spec_elem_fields(s, p.1, a2, (fuel - 1) as nat),
                        },
                    }
                } else if w == 2 {
                    match varint_at(s, j) {
                        None => None,
                        Some(p) => if p.0 > s.len() - p.1 {
                            None
                        } else {
                            let a2 = if f == 7 {
                                RawView { content: s.subrange(p.1, p.1 + p.0), ..acc }
                            } else {
                                acc
                            };
                            spec_elem_fields(s, p.1 + p.0, a2, (fuel - 1) as nat)
                        },
                    }
                } else if w == 1 {
                    if j + 8 <= s.len() {
                        spec_elem_fields(s, j + 8, acc, (fuel - 1) as nat)
                    } else {
                        None
                    }
                } else if w == 5 {
                    if j + 4 <= s.len() {
                        spec_elem_fields(s, j + 4, acc, (fuel - 1) as nat)
                    } else {
                        None
                    }
                } else {
                    None
                }
            },
        }
    }
}

/// What one comment sub-message decodes to, if anything.
pub open spec fn spec_elem(s: Seq<u8>) -> Option<RawView> {
    spec_elem_fields(s, 0, empty_view(), s.len())
}

fn parse_elem_fields(s: &[u8], i: usize, acc: RawRecord, fuel: usize) -> (r: Option<RawRecord>)
    requires
        i <= s@.len(),
    ensures
        match r {
            Some(rec) => spec_elem_fields(s@, i as int, acc@, fuel as nat) == Some(rec@),
            None => spec_elem_fields(s@, i as int, acc@, fuel as nat) is None,
        },
    decreases fuel,
{
    if i >= s.len() {
        return Some(acc);
    }
    if fuel == 0 {
        return None;
    }
    let (tag, j) = match read_varint(s, i) {
        Some(p) => p,
        None => {
            return None;
        },
    };
    let f = tag / 8;
    let w = tag % 8;
    if w == 0 {
        match read_varint(s, j) {
            Some((v, k)) => {
                let a2 = apply_field(acc, f, v);
                match a2 {
                    Some(a3) => parse_elem_fields(s, k, a3, fuel - 1),
                    None => None,
                }
            },
            None => {
                proof {
                    lemma_varint_bounds(s@, j as int);
                }
                None
            },
        }
    } else if w == 2 {
        match read_varint(s, j) {
            Some((len, k)) => {
                if len > (s.len() - k) as u64 {
                    None
                } else {
                    let a2 = if f == 7 {
                        let sub = &s[k..k + (len as usize)];
                        proof {
                            assert(sub@ =~= s@.subrange(k as int, k + len as int));
                        }
                        RawRecord { content: copy_bytes(sub), ..acc }
                    } else {
                        acc
                    };
                    parse_elem_fields(s, k + (len as usize), a2, fuel - 1)
                }
            },
            None => {
                proof {
                    lemma_varint_bounds(s@, j as int);
                }
                None
            },
        }
    } else if w == 1 {
        if s.len() - j >= 8 {
            parse_elem_fields(s, j + 8, acc, fuel - 1)
        } else {
            None
        }
    } else if w == 5 {
        if s.len() - j >= 4 {
            parse_elem_fields(s, j + 4, acc, fuel - 1)
        } else {
            None
        }
    } else {
        None
    }
}

fn apply_field(acc: RawRecord, f: u64, v: u64) -> (r: Option<RawRecord>)
    ensures
        match r {
            Some(rec) => apply_varint_field(acc@, f as nat, v as nat) == Some(rec@),
            None => apply_varint_field(acc@, f as nat, v as nat) is None,
        },
{
    if f == 1 {
        Some(RawRecord { timeline_offset: v, ..acc })
    } else if f == 2 {
        Some(RawRecord { mode_code: v, ..acc })
    } else if f == 3 {
        if v > u32::MAX as u64 {
            None
        } else {
            Some(RawRecord { font_size: v as u32, ..acc })
        }
    } else if f == 4 {
        if v > u32::MAX as u64 {
            None
        } else {
            Some(RawRecord { color: v as u32, ..acc })
        }
    } else if f == 5 {
        Some(RawRecord { sender_id: v, ..acc })
    } else if f == 6 {
        Some(RawRecord { comment_id: Some(v), ..acc })
    } else {
        Some(acc)
    }
}

/// Parse one comment sub-message.
pub fn parse_elem(s: &[u8]) -> (r: Option<RawRecord>)
    ensures
        match r {
            Some(rec) => spec_elem(s@) == Some(rec@),
            None => spec_elem(s@) is None,
        },
{
    let acc = RawRecord {
        timeline_offset: 0,
        mode_code: 1,
        font_size: 0,
        color: 0xFF_FF_FF,
        alpha: 255,
        sender_id: 0,
        comment_id: None,
        content: Vec::new(),
    };
    proof {
        assert(acc@.content =~= Seq::<u8>::empty());
        assert(acc@ == empty_view());
    }
    parse_elem_fields(s, 0, acc, s.len())
}

/// The top-level scan: the byte ranges of the repeated comment field, or
/// `None` when the top-level message itself is malformed.
pub open spec fn spec_top(s: Seq<u8>, i: int, fuel: nat) -> Option<Seq<Seq<u8>>>
    decreases fuel,
{
    if i >= s.len() {
        Some(Seq::empty())
    } else if fuel == 0 {
        None
    } else {
        match varint_at(s, i) {
            None => None,
            Some(t) => if t.0 > u64::MAX {
                None
            } else {
                let f = t.0 / 8;
                let w = t.0 % 8;
                let j = t.1;
                if w == 2 {
                    match varint_at(s, j) {
                        None => None,
                        Some(p) => if p.0 > s.len() - p.1 {
                            None
                        } else {
                            match spec_top(s, p.1 + p.0, (fuel - 1) as nat) {
                                None => None,
                                Some(ms) => if f == 1 {
                                    Some(seq![s.subrange(p.1, p.1 + p.0)] + ms)
                                } else {
                                    Some(ms)
                                },
                            }
                        },
                    }
                } else if w == 0 {
                    match varint_at(s, j) {
                        None => None,
                        Some(p) => if p.0 > u64::MAX {
                            None
                        } else {
                            spec_top(s, p.1, (fuel - 1) as nat)
                        },
                    }
                } else if w == 1 {
                    if j + 8 <= s.len() {
                        spec_top(s, j + 8, (fuel - 1) as nat)
                    } else {
                        None
                    }
                } else if w == 5 {
                    if j + 4 <= s.len() {
                        spec_top(s, j + 4, (fuel - 1) as nat)
                    } else {
                        None
                    }
                } else {
                    None
                }
            },
        }
    }
}

/// The comment sub-messages of a document.
pub open spec fn spec_messages(s: Seq<u8>) -> Option<Seq<Seq<u8>>> {
    spec_top(s, 0, s.len())
}

fn scan_top(s: &[u8], i: usize, fuel: usize) -> (r: Option<Vec<Vec<u8>>>)
    requires
        i <= s@.len(),
    ensures
        match r {
            Some(ms) => spec_top(s@, i as int, fuel as nat) == Some(crate::text::views(ms@)),
            None => spec_top(s@, i as int, fuel as nat) is None,
        },
    decreases fuel,
{
    if i >= s.len() {
        let ms: Vec<Vec<u8>> = Vec::new();
        proof {
            assert(crate::text::views(ms@) =~= Seq::<Seq<u8>>::empty());
        }
        return Some(ms);
    }
    if fuel == 0 {
        return None;
    }
    let (tag, j) = match read_varint(s, i) {
        Some(p) => p,
        None => {
            return None;
        },
    };
    let w = tag % 8;
    let f = tag / 8;
    if w == 2 {
        match read_varint(s, j) {
            Some((len, k)) => {
                if len > (s.len() - k) as u64 {
                    None
                } else {
                    match scan_top(s, k + (len as usize), fuel - 1) {
                        Some(mut ms) => {
                            if f == 1 {
                                let sub = &s[k..k + (len as usize)];
                                proof {
                                    assert(sub@ =~= s@.subrange(k as int, k + len as int));
                                }
                                let ghost pre = crate::text::views(ms@);
                                ms.insert(0, copy_bytes(sub));
                                proof {
                                    assert(crate::text::views(ms@) =~= seq![
                                        s@.subrange(k as int, k + len as int),
                                    ] + pre);
                                }
                            }
                            Some(ms)
                        },
                        None => None,
                    }
                }
            },
            None => {
                proof {
                    lemma_varint_bounds(s@, j as int);
                }
                None
            },
        }
    } else if w == 0 {
        match read_varint(s, j) {
            Some((_v, k)) => scan_top(s, k, fuel - 1),
            None => {
                proof {
                    lemma_varint_bounds(s@, j as int);
                }
                None
            },
        }
    } else if w == 1 {
        if s.len() - j >= 8 {
            scan_top(s, j + 8, fuel - 1)
        } else {
            None
        }
    } else if w == 5 {
        if s.len() - j >= 4 {
            scan_top(s, j + 4, fuel - 1)
        } else {
            None
        }
    } else {
        None
    }
}


/// The records a message sequence decodes to, in order.
pub open spec fn spec_proto_records(ms: Seq<Seq<u8>>) -> Seq<RawView>
    decreases ms.len(),
{
    if ms.len() == 0 {
        Seq::empty()
    } else {
        let head: Seq<RawView> = match spec_elem(ms[0]) {
            Some(v) => seq![v],
            None => Seq::empty(),
        };
        head + spec_proto_records(ms.skip(1))
    }
}

/// The indices of the malformed sub-messages.
pub open spec fn spec_proto_failures(ms: Seq<Seq<u8>>, base: int) -> Seq<int>
    decreases ms.len(),
{
    if ms.len() == 0 {
        Seq::empty()
    } else {
        let head: Seq<int> = if spec_elem(ms[0]) is None {
            seq![base]
        } else {
            Seq::empty()
        };
        head + spec_proto_failures(ms.skip(1), base + 1)
    }
}

/// Decode a protobuf document.
///
/// Fatal (`Err`, `MalformedInput` at index 0) exactly when the top-level
/// message is structurally malformed; otherwise the records are exactly
/// `spec_proto_records` of the sub-messages and every malformed sub-message
/// is reported as `MalformedInput` with its index.
pub fn decode_protobuf(input: &[u8]) -> (r: Result<
    (Vec<RawRecord>, Vec<RecordFailure>),
    DanmakuError,
>)
    ensures
        r is Ok <==> spec_messages(input@) is Some,
        match r {
            Ok(p) => {
                let ms = spec_messages(input@)->Some_0;
                &&& p.0@.map_values(|rec: RawRecord| rec@) == spec_proto_records(ms)
                &&& p.1@.map_values(|f: RecordFailure| f.index as int) == spec_proto_failures(ms, 0)
                &&& forall|i: int|
                    0 <= i < p.1@.len() ==> ((#[trigger] p.1@[i]).error matches
                        DanmakuError::MalformedInput { index } && index == p.1@[i].index)
            },
            Err(e) => e == (DanmakuError::MalformedInput { index: 0 }),
        },
{
    let msgs = match scan_top(input, 0, input.len()) {
        Some(m) => m,
        None => {
            return Err(DanmakuError::MalformedInput { index: 0 });
        },
    };
    let ghost ms = spec_messages(input@)->Some_0;
    proof {
        assert(crate::text::views(msgs@) == ms);
        assert(forall|i: int| 0 <= i < msgs@.len() ==> crate::text::views(msgs@)[i] == #[trigger] msgs@[i]@);
    }
    let n = msgs.len();
    let mut records: Vec<RawRecord> = Vec::new();
    let mut fails: Vec<RecordFailure> = Vec::new();
    let mut j: usize = 0;
    proof {
        assert(ms.skip(0) =~= ms);
        assert(Seq::<RawView>::empty() + spec_proto_records(ms) =~= spec_proto_records(ms));
        assert(Seq::<int>::empty() + spec_proto_failures(ms, 0) =~= spec_proto_failures(ms, 0));
        assert(records@.map_values(|rec: RawRecord| rec@) =~= Seq::<RawView>::empty());
        assert(fails@.map_values(|f: RecordFailure| f.index as int) =~= Seq::<int>::empty());
    }
    while j < n
        invariant
            j <= n,
            n == msgs@.len(),
            crate::text::views(msgs@) == ms,
            ms.len() == n,
            spec_proto_records(ms) == records@.map_values(|rec: RawRecord| rec@)
                + spec_proto_records(ms.skip(j as int)),
            spec_proto_failures(ms, 0) == fails@.map_values(|f: RecordFailure| f.index as int)
                + spec_proto_failures(ms.skip(j as int), j as int),
            forall|i: int|
                0 <= i < fails@.len() ==> ((#[trigger] fails@[i]).error matches
                    DanmakuError::MalformedInput { index } && index == fails@[i].index),
        decreases n - j,
    {
        let ghost tail = ms.skip(j as int);
        proof {
            assert(tail[0] == ms[j as int]);
            assert(tail.skip(1) =~= ms.skip(j + 1));
            assert(msgs@[j as int]@ == ms[j as int]);
        }
        let ghost pre_records = records@;
        let ghost pre_fails = fails@;
        match parse_elem(msgs[j].as_slice()) {
            Some(rec) => {
                records.push(rec);
                proof {
                    assert(records@.map_values(|rec2: RawRecord| rec2@) =~= pre_records.map_values(
                        |rec2: RawRecord| rec2@,
                    ).push(records@.last()@));
                    assert(seq![records@.last()@] + spec_proto_records(ms.skip(j + 1))
                        =~= spec_proto_records(tail));
                    assert(pre_records.map_values(|rec2: RawRecord| rec2@).push(records@.last()@)
                        + spec_proto_records(ms.skip(j + 1)) =~= pre_records.map_values(
                        |rec2: RawRecord| rec2@,
                    ) + spec_proto_records(tail));
                    assert(Seq::<int>::empty() + spec_proto_failures(ms.skip(j + 1), j as int + 1)
                        =~= spec_proto_failures(ms.skip(j + 1), j as int + 1));
                    assert(spec_proto_failures(tail, j as int) == spec_proto_failures(
                        ms.skip(j + 1),
                        j as int + 1,
                    ));
                }
            },
            None => {
                fails.push(
                    RecordFailure {
                        index: j,
                        error: DanmakuError::MalformedInput { index: j },
                    },
                );
                proof {
                    assert(fails@.map_values(|f: RecordFailure| f.index as int) =~= pre_fails
                        .map_values(|f: RecordFailure| f.index as int).push(j as int));
                    assert(seq![j as int] + spec_proto_failures(ms.skip(j + 1), j as int + 1)
                        =~= spec_proto_failures(tail, j as int));
                    assert(pre_fails.map_values(|f: RecordFailure| f.index as int).push(j as int)
                        + spec_proto_failures(ms.skip(j + 1), j as int + 1) =~= pre_fails
                        .map_values(|f: RecordFailure| f.index as int) + spec_proto_failures(
                        tail,
                        j as int,
                    ));
                    assert(Seq::<RawView>::empty() + spec_proto_records(ms.skip(j + 1))
                        =~= spec_proto_records(ms.skip(j + 1)));
                    assert(spec_proto_records(tail) == spec_proto_records(ms.skip(j + 1)));
                }
            },
        }
        j = j + 1;
    }
    proof {
        assert(ms.skip(n as int) =~= Seq::<Seq<u8>>::empty());
        assert(records@.map_values(|rec: RawRecord| rec@) + Seq::<RawView>::empty()
            =~= records@.map_values(|rec: RawRecord| rec@));
        assert(fails@.map_values(|f: RecordFailure| f.index as int) + Seq::<int>::empty()
            =~= fails@.map_values(|f: RecordFailure| f.index as int));
    }
    Ok((records, fails))
}

} // verus!
