//! The pipeline orchestrator: wire decode, normalization, lane allocation,
//! and track rendering, with the per-record tolerance policy.

use vstd::prelude::*;
use crate::comment::{Comment, CommentView, Config, MotionClass, key_le, sorted_by_key,
    sorted_by_key_v, views_c};
use crate::error::DanmakuError;
use crate::lane::{fixed_step_v, scroll_step_v, FixedPool, LaneAssignment, ScrollLane, ScrollPool};
use crate::normalize::{normalize, spec_fatal_in, spec_reject_error_matches, spec_reject_indices,
    spec_survivors, views_r, RecordFailure};
use crate::proto::{decode_protobuf, spec_messages, spec_proto_failures, spec_proto_records};
use crate::text::spec_split;
use crate::writer::{spec_event, spec_header, write_event, write_head};
use crate::xml::{decode_xml, spec_xml_failures, spec_xml_fatal, spec_xml_records, RawView};

verus! {

/// The wire format of the input bytes.
#[derive(Clone, Copy, PartialEq, Eq, Structural, Debug)]
pub enum WireFormat {
    Xml,
    Protobuf,
}

/// The result of a full pipeline run: the track text, the per-record
/// failures (tolerant mode), and whether any comment was force-placed
/// because its lane pool was exhausted (degraded mode, never an error).
pub struct ProcessOutput {
    pub track: Vec<u8>,
    pub failures: Vec<RecordFailure>,
    pub degraded: bool,
}

/// One comment's effect on the three lane pools: the comment's own pool
/// takes one allocation step exactly as its `allocate` ensures, the other two
/// are untouched, and scripted comments touch none and get no lane.
pub open spec fn layout_step(
    c: Comment,
    a: Option<LaneAssignment>,
    cap: int,
    s0: Seq<ScrollLane>,
    s1: Seq<ScrollLane>,
    t0: Seq<u64>,
    t1: Seq<u64>,
    b0: Seq<u64>,
    b1: Seq<u64>,
) -> bool {
    match c.motion_class {
        MotionClass::ScrollRightLeft => (a matches Some(x) && scroll_step_v(
            s0,
            s1,
            c.timeline_offset,
            c.duration,
            true,
            x,
            cap,
        )) && t1 == t0 && b1 == b0,
        MotionClass::ScrollLeftRight => (a matches Some(x) && scroll_step_v(
            s0,
            s1,
            c.timeline_offset,
            c.duration,
            false,
            x,
            cap,
        )) && t1 == t0 && b1 == b0,
        MotionClass::FixedTop => (a matches Some(x) && fixed_step_v(
            t0,
            t1,
            c.timeline_offset,
            c.duration,
            x,
            cap,
        )) && s1 == s0 && b1 == b0,
        MotionClass::FixedBottom => (a matches Some(x) && fixed_step_v(
            b0,
            b1,
            c.timeline_offset,
            c.duration,
            x,
            cap,
        )) && s1 == s0 && t1 == t0,
        MotionClass::Scripted => a is None && s1 == s0 && t1 == t0 && b1 == b0,
    }
}

/// A full allocation run: pool states evolve from empty, one `layout_step`
/// per comment in order.
pub open spec fn layout_trace(
    cs: Seq<Comment>,
    asg: Seq<Option<LaneAssignment>>,
    cap: int,
    st: Seq<Seq<ScrollLane>>,
    tt: Seq<Seq<u64>>,
    bt: Seq<Seq<u64>>,
) -> bool {
    &&& asg.len() == cs.len()
    &&& st.len() == cs.len() + 1
    &&& tt.len() == cs.len() + 1
    &&& bt.len() == cs.len() + 1
    &&& st[0] == Seq::<ScrollLane>::empty()
    &&& tt[0] == Seq::<u64>::empty()
    &&& bt[0] == Seq::<u64>::empty()
    &&& forall|k: int|
        0 <= k < cs.len() ==> #[trigger] layout_step(
            cs[k],
            asg[k],
            cap,
            st[k],
            st[k + 1],
            tt[k],
            tt[k + 1],
            bt[k],
            bt[k + 1],
        )
}

/// Assign every non-scripted comment its lane, in ascending
/// `(timeline_offset, comment_id)` order: scroll comments share one pool,
/// fixed-top and fixed-bottom use one pool each, scripted comments bypass
/// allocation. Every comment receives exactly one assignment, its lane index
/// is always under the configured cap, and a forced placement is recorded on
/// the assignment.
pub fn layout_comments(comments: &Vec<Comment>, cfg: &Config) -> (r: Vec<Option<LaneAssignment>>)
    requires
        cfg.wf(),
        sorted_by_key(comments@),
        forall|i: int| 0 <= i < comments@.len() ==> (#[trigger] comments@[i]).wf(),
    ensures
        r@.len() == comments@.len(),
        forall|i: int|
            0 <= i < r@.len() ==> ((#[trigger] r@[i]) is Some <==> comments@[i].motion_class
                != MotionClass::Scripted),
        forall|i: int|
            0 <= i < r@.len() ==> match #[trigger] r@[i] {
                Some(a) => a.lane < cfg.lane_cap,
                None => true,
            },
        exists|st: Seq<Seq<ScrollLane>>, tt: Seq<Seq<u64>>, bt: Seq<Seq<u64>>|
            #[trigger] layout_trace(comments@, r@, cfg.lane_cap as int, st, tt, bt),
{
    let cap = cfg.lane_cap;
    let mut scroll = ScrollPool::new();
    let mut top = FixedPool::new();
    let mut bottom = FixedPool::new();
    let mut out: Vec<Option<LaneAssignment>> = Vec::new();
    let mut last_t: u64 = 0;
    let n = comments.len();
    let mut i: usize = 0;
    let ghost mut st: Seq<Seq<ScrollLane>> = seq![Seq::<ScrollLane>::empty()];
    let ghost mut tt: Seq<Seq<u64>> = seq![Seq::<u64>::empty()];
    let ghost mut bt: Seq<Seq<u64>> = seq![Seq::<u64>::empty()];
    while i < n
        invariant
            i <= n,
            n == comments@.len(),
            cfg.wf(),
            cap == cfg.lane_cap,
            st.len() == i + 1,
            tt.len() == i + 1,
            bt.len() == i + 1,
            st[0] == Seq::<ScrollLane>::empty(),
            tt[0] == Seq::<u64>::empty(),
            bt[0] == Seq::<u64>::empty(),
            st[i as int] == scroll.lanes@,
            tt[i as int] == top.free_at@,
            bt[i as int] == bottom.free_at@,
            forall|k: int|
                0 <= k < i ==> #[trigger] layout_step(
                    comments@[k],
                    out@[k],
                    cap as int,
                    st[k],
                    st[k + 1],
                    tt[k],
                    tt[k + 1],
                    bt[k],
                    bt[k + 1],
                ),
            sorted_by_key(comments@),
            forall|k: int| 0 <= k < comments@.len() ==> (#[trigger] comments@[k]).wf(),
            scroll.wf(cap as int),
            top.wf(cap as int),
            bottom.wf(cap as int),
            forall|k: int| 0 <= k < scroll.lanes@.len() ==> (#[trigger] scroll.lanes@[k]).t0
                <= last_t,
            i > 0 ==> last_t == comments@[i - 1].timeline_offset,
            i == 0 ==> last_t == 0,
            out@.len() == i,
            forall|k: int|
                0 <= k < out@.len() ==> ((#[trigger] out@[k]) is Some <==> comments@[k].motion_class
                    != MotionClass::Scripted),
            forall|k: int|
                0 <= k < out@.len() ==> match #[trigger] out@[k] {
                    Some(a) => a.lane < cap,
                    None => true,
                },
        decreases n - i,
    {
        let c = &comments[i];
        proof {
            if i > 0 {
                assert(key_le(comments@[i - 1], comments@[i as int]));
            }
        }
        let asg: Option<LaneAssignment> = match c.motion_class {
            MotionClass::ScrollRightLeft => Some(
                scroll.allocate(cap, c.timeline_offset, c.duration, true),
            ),
            MotionClass::ScrollLeftRight => Some(
                scroll.allocate(cap, c.timeline_offset, c.duration, false),
            ),
            MotionClass::FixedTop => Some(top.allocate(cap, c.timeline_offset, c.duration)),
            MotionClass::FixedBottom => Some(bottom.allocate(cap, c.timeline_offset, c.duration)),
            MotionClass::Scripted => None,
        };
        out.push(asg);
        proof {
            st = st.push(scroll.lanes@);
            tt = tt.push(top.free_at@);
            bt = bt.push(bottom.free_at@);
            assert(layout_step(
                comments@[i as int],
                out@[i as int],
                cap as int,
                st[i as int],
                st[i + 1],
                tt[i as int],
                tt[i + 1],
                bt[i as int],
                bt[i + 1],
            ));
        }
        last_t = c.timeline_offset;
        i = i + 1;
    }
    proof {
        assert(layout_trace(comments@, out@, cfg.lane_cap as int, st, tt, bt));
    }
    out
}

/// Whether any assignment records a forced placement.
pub fn any_degraded(assignments: &Vec<Option<LaneAssignment>>) -> (r: bool)
    ensures
        r <==> exists|i: int|
            0 <= i < assignments@.len() && match #[trigger] assignments@[i] {
                Some(a) => a.degraded,
                None => false,
            },
{
    let n = assignments.len();
    let mut i: usize = 0;
    while i < n
        invariant
            i <= n,
            n == assignments@.len(),
            forall|k: int|
                0 <= k < i ==> !match #[trigger] assignments@[k] {
                    Some(a) => a.degraded,
                    None => false,
                },
        decreases n - i,
    {
        let hit = match &assignments[i] {
            Some(a) => a.degraded,
            None => false,
        };
        if hit {
            return true;
        }
        i = i + 1;
    }
    false
}

/// The lane an assignment denotes; scripted comments carry none and their
/// event ignores it.
pub open spec fn lane_of(a: Option<LaneAssignment>) -> int {
    match a {
        Some(x) => x.lane as int,
        None => 0,
    }
}

/// The event lines of a laid-out comment sequence, in order.
pub open spec fn spec_track_events(
    cs: Seq<Comment>,
    asg: Seq<Option<LaneAssignment>>,
    w: int,
    h: int,
    rh: int,
) -> Seq<u8>
    decreases cs.len(),
{
    if cs.len() == 0 {
        Seq::empty()
    } else {
        spec_event(cs[0], lane_of(asg[0]), w, h, rh) + spec_track_events(
            cs.skip(1),
            asg.skip(1),
            w,
            h,
            rh,
        )
    }
}

/// The whole track: the header once, then one event per comment.
pub open spec fn spec_track(
    cs: Seq<Comment>,
    asg: Seq<Option<LaneAssignment>>,
    cfg: Config,
) -> Seq<u8> {
    spec_header(cfg.canvas_width as nat, cfg.canvas_height as nat) + spec_track_events(
        cs,
        asg,
        cfg.canvas_width as int,
        cfg.canvas_height as int,
        cfg.row_height as int,
    )
}

/// Render the header and every event, byte-exactly.
pub fn write_track(comments: &Vec<Comment>, assignments: &Vec<Option<LaneAssignment>>, cfg: &Config)
    -> (out: Vec<u8>)
    requires
        cfg.wf(),
        assignments@.len() == comments@.len(),
        forall|i: int| 0 <= i < comments@.len() ==> (#[trigger] comments@[i]).wf(),
        forall|i: int|
            0 <= i < assignments@.len() ==> match #[trigger] assignments@[i] {
                Some(a) => a.lane < cfg.lane_cap,
                None => true,
            },
    ensures
        out@ == spec_track(comments@, assignments@, *cfg),
{
    let mut out: Vec<u8> = Vec::new();
    write_head(cfg, &mut out);
    let ghost head = out@;
    let n = comments.len();
    let mut i: usize = 0;
    proof {
        assert(comments@.skip(0) =~= comments@);
        assert(assignments@.skip(0) =~= assignments@);
        assert(head + Seq::<u8>::empty() =~= head);
    }
    while i < n
        invariant
            i <= n,
            n == comments@.len(),
            assignments@.len() == n,
            cfg.wf(),
            forall|k: int| 0 <= k < comments@.len() ==> (#[trigger] comments@[k]).wf(),
            forall|k: int|
                0 <= k < assignments@.len() ==> match #[trigger] assignments@[k] {
                    Some(a) => a.lane < cfg.lane_cap,
                    None => true,
                },
            out@ == head + spec_track_events(
                comments@.subrange(0, i as int),
                assignments@.subrange(0, i as int),
                cfg.canvas_width as int,
                cfg.canvas_height as int,
                cfg.row_height as int,
            ),
            head == spec_header(cfg.canvas_width as nat, cfg.canvas_height as nat),
        decreases n - i,
    {
        let ghost pre = out@;
        let c = &comments[i];
        let lane: usize = match &assignments[i] {
            Some(a) => a.lane,
            None => 0,
        };
        write_event(c, lane, cfg, &mut out);
        proof {
            let w = cfg.canvas_width as int;
            let h = cfg.canvas_height as int;
            let rh = cfg.row_height as int;
            lemma_track_events_append_one(
                comments@.subrange(0, i as int),
                assignments@.subrange(0, i as int),
                comments@[i as int],
                assignments@[i as int],
                w,
                h,
                rh,
            );
            assert(comments@.subrange(0, i as int).push(comments@[i as int]) =~= comments@.subrange(
                0,
                i + 1,
            ));
            assert(assignments@.subrange(0, i as int).push(assignments@[i as int])
                =~= assignments@.subrange(0, i + 1));
            assert(out@ =~= head + spec_track_events(
                comments@.subrange(0, i + 1),
                assignments@.subrange(0, i + 1),
                w,
                h,
                rh,
            ));
        }
        i = i + 1;
    }
    proof {
        assert(comments@.subrange(0, n as int) =~= comments@);
        assert(assignments@.subrange(0, n as int) =~= assignments@);
    }
    out
}

#[verifier::rlimit(60)]
proof fn lemma_track_events_append_one(
    cs: Seq<Comment>,
    asg: Seq<Option<LaneAssignment>>,
    c: Comment,
    a: Option<LaneAssignment>,
    w: int,
    h: int,
    rh: int,
)
    requires
        cs.len() == asg.len(),
    ensures
        spec_track_events(cs.push(c), asg.push(a), w, h, rh) == spec_track_events(cs, asg, w, h, rh)
            + spec_event(c, lane_of(a), w, h, rh),
    decreases cs.len(),
{
    if cs.len() == 0 {
        assert(cs.push(c)[0] == c);
        assert(asg.push(a)[0] == a);
        assert(cs.push(c).skip(1) =~= Seq::<Comment>::empty());
        assert(asg.push(a).skip(1) =~= Seq::<Option<LaneAssignment>>::empty());
        assert(spec_track_events(Seq::<Comment>::empty(), Seq::<Option<LaneAssignment>>::empty(), w, h, rh)
            == Seq::<u8>::empty());
        assert(spec_event(c, lane_of(a), w, h, rh) + Seq::<u8>::empty() =~= spec_event(
            c,
            lane_of(a),
            w,
            h,
            rh,
        ));
        assert(Seq::<u8>::empty() + spec_event(c, lane_of(a), w, h, rh) =~= spec_event(
            c,
            lane_of(a),
            w,
            h,
            rh,
        ));
    } else {
        lemma_track_events_append_one(cs.skip(1), asg.skip(1), c, a, w, h, rh);
        assert(cs.push(c).skip(1) =~= cs.skip(1).push(c));
        assert(asg.push(a).skip(1) =~= asg.skip(1).push(a));
        assert(cs.push(c)[0] == cs[0]);
        assert(asg.push(a)[0] == asg[0]);
        assert(spec_track_events(cs.push(c), asg.push(a), w, h, rh) =~= spec_track_events(
            cs,
            asg,
            w,
            h,
            rh,
        ) + spec_event(c, lane_of(a), w, h, rh));
    }
}

/// The record views the wire bytes decode to (for a protobuf input whose
/// top-level message is malformed, decoding is fatal and this is empty).
pub open spec fn spec_decoded(input: Seq<u8>, format: WireFormat) -> Seq<RawView> {
    match format {
        WireFormat::Xml => spec_xml_records(spec_split(input, 60)),
        WireFormat::Protobuf => match spec_messages(input) {
            Some(ms) => spec_proto_records(ms),
            None => Seq::empty(),
        },
    }
}

/// The per-record decode failure indices of the wire bytes.
pub open spec fn spec_decode_failure_indices(input: Seq<u8>, format: WireFormat) -> Seq<int> {
    match format {
        WireFormat::Xml => spec_xml_failures(spec_split(input, 60), 0),
        WireFormat::Protobuf => match spec_messages(input) {
            Some(ms) => spec_proto_failures(ms, 0),
            None => Seq::empty(),
        },
    }
}

/// Whether the whole input is structurally invalid for its declared format.
pub open spec fn spec_decode_fatal(input: Seq<u8>, format: WireFormat) -> bool {
    match format {
        WireFormat::Xml => spec_xml_fatal(spec_split(input, 60)),
        WireFormat::Protobuf => spec_messages(input) is None,
    }
}

/// Run the whole pipeline on raw wire bytes.
///
/// Whole-input structural failures are fatal, as is — in strict mode — the
/// first per-record failure, except a special-comment syntax error, which
/// always degrades gracefully. On success the track is exactly `spec_track`
/// of the surviving comments (the most recent `max_count` of a sorted
/// arrangement of `spec_survivors` of the decoded records) under a per-pool
/// lane assignment within the cap; the report lists exactly the decode
/// failures followed by the rejected records; and the degraded flag is set
/// exactly when some comment was force-placed.
pub fn process(input: &[u8], format: WireFormat, cfg: &Config, strict: bool) -> (r: Result<
    ProcessOutput,
    DanmakuError,
>)
    requires
        cfg.wf(),
    ensures
        r is Err <==> (spec_decode_fatal(input@, format) || (strict && spec_decode_failure_indices(
            input@,
            format,
        ).len() > 0) || (strict && spec_fatal_in(spec_decoded(input@, format), 0))),
        match r {
            Ok(o) => {
                let head = spec_header(cfg.canvas_width as nat, cfg.canvas_height as nat);
                let rvs = spec_decoded(input@, format);
                let dec_idx = spec_decode_failure_indices(input@, format);
                let rej_idx = spec_reject_indices(rvs, 0);
                let svs = spec_survivors(rvs, 0, *cfg);
                &&& o.track@.len() >= head.len()
                &&& o.track@.subrange(0, head.len() as int) == head
                &&& exists|comments: Seq<Comment>, asg: Seq<Option<LaneAssignment>>|
                    {
                        &&& #[trigger] spec_track(comments, asg, *cfg) == o.track@
                        &&& comments.len() == (if svs.len() <= cfg.max_count {
                            svs.len() as int
                        } else {
                            cfg.max_count as int
                        })
                        &&& sorted_by_key(comments)
                        &&& (exists|mid: Seq<CommentView>|
                            sorted_by_key_v(mid) && #[trigger] mid.to_multiset()
                                == svs.to_multiset() && views_c(comments) == mid.skip(
                                mid.len() - comments.len(),
                            ))
                        &&& asg.len() == comments.len()
                        &&& (forall|k: int|
                            0 <= k < asg.len() ==> (((#[trigger] asg[k]) is Some
                                <==> comments[k].motion_class != MotionClass::Scripted) && match asg[k] {
                                Some(a) => a.lane < cfg.lane_cap,
                                None => true,
                            }))
                        &&& (exists|st: Seq<Seq<ScrollLane>>, tt: Seq<Seq<u64>>, bt: Seq<Seq<u64>>|
                            #[trigger] layout_trace(comments, asg, cfg.lane_cap as int, st, tt, bt))
                        &&& o.degraded == (exists|k: int|
                            0 <= k < asg.len() && match #[trigger] asg[k] {
                                Some(a) => a.degraded,
                                None => false,
                            })
                    }
                &&& o.failures@.map_values(|f: RecordFailure| f.index as int) == dec_idx + rej_idx
                &&& forall|k: int|
                    0 <= k < dec_idx.len() ==> (#[trigger] o.failures@[k]).error
                        == (DanmakuError::MalformedInput { index: o.failures@[k].index })
                &&& forall|k: int|
                    dec_idx.len() <= k < o.failures@.len() ==> spec_reject_error_matches(
                        rvs[(#[trigger] o.failures@[k]).index as int],
                        o.failures@[k].index as int,
                        o.failures@[k].error,
                    )
                &&& strict ==> forall|k: int|
                    0 <= k < o.failures@.len() ==> ((#[trigger] o.failures@[k]).error matches
                        DanmakuError::SpecialCommentSyntax { .. })
            },
            Err(e) => {
                let rvs = spec_decoded(input@, format);
                let dec_idx = spec_decode_failure_indices(input@, format);
                ||| (spec_decode_fatal(input@, format) && (e matches DanmakuError::MalformedInput {
                    ..
                }))
                ||| (strict && dec_idx.len() > 0 && e == (DanmakuError::MalformedInput {
                    index: dec_idx[0] as usize,
                }))
                ||| (strict && exists|k: int|
                    0 <= k < rvs.len() && crate::normalize::spec_record_rejected(
                        #[trigger] rvs[k],
                    ) && !crate::normalize::spec_graceful_rejected(rvs[k])
                        && spec_reject_error_matches(rvs[k], k, e))
            },
        },
{
    let ghost rvs = spec_decoded(input@, format);
    let ghost dec_idx = spec_decode_failure_indices(input@, format);
    let (records, mut decode_failures) = match format {
        WireFormat::Xml => {
            match decode_xml(input) {
                Ok(p) => p,
                Err(e) => {
                    return Err(e);
                },
            }
        },
        WireFormat::Protobuf => {
            match decode_protobuf(input) {
                Ok(p) => p,
                Err(e) => {
                    return Err(e);
                },
            }
        },
    };
    proof {
        assert(views_r(records@) =~= records@.map_values(|rec: crate::normalize::RawRecord| rec@));
        assert(views_r(records@) == rvs);
        assert(decode_failures@.map_values(|f: RecordFailure| f.index as int) == dec_idx);
    }
    if strict && decode_failures.len() > 0 {
        proof {
            assert(decode_failures@.map_values(|f: RecordFailure| f.index as int)[0] == dec_idx[0]);
        }
        let f = decode_failures.remove(0);
        return Err(f.error);
    }
    let (comments, mut norm_failures) = match normalize(records, cfg, strict) {
        Ok(p) => p,
        Err(e) => {
            return Err(e);
        },
    };
    let assignments = layout_comments(&comments, cfg);
    let degraded = any_degraded(&assignments);
    let track = write_track(&comments, &assignments, cfg);
    proof {
        let head = spec_header(cfg.canvas_width as nat, cfg.canvas_height as nat);
        assert(track@.subrange(0, head.len() as int) =~= head);
    }
    let mut failures = decode_failures;
    let ghost pre_fail = failures@;
    let ghost norm_fail = norm_failures@;
    failures.append(&mut norm_failures);
    proof {
        assert(failures@ =~= pre_fail + norm_fail);
        assert(failures@.map_values(|f: RecordFailure| f.index as int) =~= pre_fail.map_values(
            |f: RecordFailure| f.index as int,
        ) + norm_fail.map_values(|f: RecordFailure| f.index as int));
        if strict {
            assert(pre_fail.len() == 0);
        }
    }
    Ok(ProcessOutput { track, failures, degraded })
}

} // verus!
