//! The comment normalizer: pairs each raw wire record with its parsed
//! animation (scripted comments only), resolves defaults, assigns missing
//! identifiers sequentially, applies the caller's filters, and produces the
//! final comment sequence, ascending by `(timeline_offset, comment_id)` and
//! capped to the most recent `max_count`.

use vstd::prelude::*;
use crate::comment::{AnimationView, Comment, CommentView, Config, MotionClass, key_le, key_le_v,
    sorted_by_key, sorted_by_key_v, views_c, MAX_TIME};
use crate::error::DanmakuError;
use crate::special::{parse_special, special_fields_ok, matches_fields, spec_kf_count,
    spec_keyframe};
use crate::text::{dec_val, sdec_val, spec_split};
use crate::xml::RawView;

verus! {

/// One raw record as a wire decoder hands it over.
pub struct RawRecord {
    pub timeline_offset: u64,
    pub mode_code: u64,
    pub font_size: u32,
    pub color: u32,
    pub alpha: u8,
    pub sender_id: u64,
    pub comment_id: Option<u64>,
    pub content: Vec<u8>,
}

/// One collected per-record failure: the record index and its error.
pub struct RecordFailure {
    pub index: usize,
    pub error: DanmakuError,
}

/// Whether the caller blocks this motion class.
pub open spec fn spec_blocked(cfg: Config, mc: MotionClass) -> bool {
    match mc {
        MotionClass::ScrollRightLeft => cfg.block_scroll,
        MotionClass::ScrollLeftRight => cfg.block_scroll,
        MotionClass::FixedTop => cfg.block_top,
        MotionClass::FixedBottom => cfg.block_bottom,
        MotionClass::Scripted => cfg.block_scripted,
    }
}

/// The duration a normalized comment receives: scaled base for scroll
/// classes, the fixed base for static classes, the declared duration for
/// scripted ones.
pub open spec fn spec_duration(cfg: Config, mc: MotionClass, anim_duration: int) -> int {
    match mc {
        MotionClass::ScrollRightLeft => cfg.scroll_duration(),
        MotionClass::ScrollLeftRight => cfg.scroll_duration(),
        MotionClass::FixedTop => cfg.base_duration_fixed as int,
        MotionClass::FixedBottom => cfg.base_duration_fixed as int,
        MotionClass::Scripted => anim_duration,
    }
}

/// Why `normalize_record` rejects a record, if it does.
pub open spec fn spec_record_rejected(rv: RawView) -> bool {
    ||| MotionClass::spec_from_code(rv.mode_code) is None
    ||| rv.timeline_offset > MAX_TIME
    ||| (MotionClass::spec_from_code(rv.mode_code) == Some(MotionClass::Scripted)
        && !special_fields_ok(spec_split(rv.content, 44)))
}

/// A rejection that degrades gracefully: only the scripted parameter-string
/// syntax error, which drops the one comment and never aborts a run.
pub open spec fn spec_graceful_rejected(rv: RawView) -> bool {
    &&& MotionClass::spec_from_code(rv.mode_code) is Some
    &&& rv.timeline_offset <= MAX_TIME
    &&& MotionClass::spec_from_code(rv.mode_code) == Some(MotionClass::Scripted)
    &&& !special_fields_ok(spec_split(rv.content, 44))
}

/// Whether a record batch holds a rejection that aborts a strict run.
pub open spec fn spec_fatal_in(rs: Seq<RawView>, i: int) -> bool
    decreases rs.len() - i,
{
    if i < 0 || i >= rs.len() {
        false
    } else {
        (spec_record_rejected(rs[i]) && !spec_graceful_rejected(rs[i])) || spec_fatal_in(rs, i + 1)
    }
}

/// Whether the caller's filters drop an accepted record.
pub open spec fn spec_filtered(rv: RawView, cfg: Config) -> bool {
    let mc = MotionClass::spec_from_code(rv.mode_code)->Some_0;
    spec_blocked(cfg, mc) || rv.alpha < cfg.alpha_min || rv.alpha > cfg.alpha_max
}

/// The animation view an acceptable parameter list denotes.
pub open spec fn spec_anim_view(fs: Seq<Seq<u8>>) -> AnimationView {
    let n = spec_kf_count(fs);
    AnimationView {
        start_x: sdec_val(fs[0]) as i32,
        start_y: sdec_val(fs[1]) as i32,
        end_x: sdec_val(fs[2]) as i32,
        end_y: sdec_val(fs[3]) as i32,
        duration: dec_val(fs[4]) as u64,
        rot_y: if fs.len() >= 6 {
            sdec_val(fs[5]) as i32
        } else {
            0
        },
        rot_z: if fs.len() >= 7 {
            sdec_val(fs[6]) as i32
        } else {
            0
        },
        keyframes: Seq::new(n as nat, |i: int| spec_keyframe(fs, i)),
        font_family: if fs.len() >= 8 + 3 * n + 1 && fs[8 + 3 * n].len() > 0 {
            Some(fs[8 + 3 * n])
        } else {
            None
        },
        border: fs.len() >= 8 + 3 * n + 2 && dec_val(fs[8 + 3 * n + 1]) != 0,
    }
}

/// The comment an accepted, unfiltered record denotes; `id` is the sequential
/// fallback identifier (the record's index) used when the wire supplies none.
pub open spec fn spec_comment_of(rv: RawView, id: u64, cfg: Config) -> CommentView {
    let mc = MotionClass::spec_from_code(rv.mode_code)->Some_0;
    let fs = spec_split(rv.content, 44);
    CommentView {
        timeline_offset: rv.timeline_offset,
        motion_class: mc,
        content: rv.content,
        font_size: if rv.font_size == 0 {
            cfg.base_font_size
        } else {
            rv.font_size
        },
        color: (rv.color % 0x1000000) as u32,
        alpha: rv.alpha,
        sender_id: rv.sender_id,
        comment_id: match rv.comment_id {
            Some(wire_id) => wire_id,
            None => id,
        },
        duration: if mc == MotionClass::Scripted {
            dec_val(fs[4]) as u64
        } else {
            spec_duration(cfg, mc, 0) as u64
        },
        animation: if mc == MotionClass::Scripted {
            Some(spec_anim_view(fs))
        } else {
            None
        },
    }
}

/// The views of a raw record sequence.
pub open spec fn views_r(s: Seq<RawRecord>) -> Seq<RawView> {
    s.map_values(|r: RawRecord| r@)
}

/// The comments that survive rejection and filtering, in record order, with
/// sequential fallback identifiers.
pub open spec fn spec_survivors(rs: Seq<RawView>, i: int, cfg: Config) -> Seq<CommentView>
    decreases rs.len() - i,
{
    if i < 0 || i >= rs.len() {
        Seq::empty()
    } else {
        let head: Seq<CommentView> = if !spec_record_rejected(rs[i]) && !spec_filtered(rs[i], cfg) {
            seq![spec_comment_of(rs[i], i as u64, cfg)]
        } else {
            Seq::empty()
        };
        head + spec_survivors(rs, i + 1, cfg)
    }
}

/// The indices of the rejected records, in order.
pub open spec fn spec_reject_indices(rs: Seq<RawView>, i: int) -> Seq<int>
    decreases rs.len() - i,
{
    if i < 0 || i >= rs.len() {
        Seq::empty()
    } else {
        let head: Seq<int> = if spec_record_rejected(rs[i]) {
            seq![i]
        } else {
            Seq::empty()
        };
        head + spec_reject_indices(rs, i + 1)
    }
}

/// The error a rejected record is reported with.
pub open spec fn spec_reject_error_matches(rv: RawView, idx: int, e: DanmakuError) -> bool {
    if MotionClass::spec_from_code(rv.mode_code) is None {
        e == (DanmakuError::UnsupportedMotionClass { code: rv.mode_code })
    } else if rv.timeline_offset > MAX_TIME {
        e == (DanmakuError::MalformedInput { index: idx as usize })
    } else {
        e matches DanmakuError::SpecialCommentSyntax { raw } && raw@ == rv.content
    }
}

/// Normalize one raw record.
///
/// Returns the comment (`Ok(Some(..))`), `Ok(None)` when the caller's filters
/// drop it, and an error exactly when the motion-class code is unknown
/// (`UnsupportedMotionClass`), the offset is out of range (`MalformedInput`),
/// or a scripted comment's parameter string is malformed
/// (`SpecialCommentSyntax`, carrying the raw string).
pub fn normalize_record(rec: &RawRecord, index: usize, next_id: u64, cfg: &Config) -> (r: Result<
    Option<Comment>,
    DanmakuError,
>)
    requires
        cfg.wf(),
    ensures
        r is Err <==> spec_record_rejected(rec@),
        match r {
            Err(e) => {
                if MotionClass::spec_from_code(rec.mode_code) is None {
                    e == (DanmakuError::UnsupportedMotionClass { code: rec.mode_code })
                } else if rec.timeline_offset > MAX_TIME {
                    e == (DanmakuError::MalformedInput { index })
                } else {
                    e matches DanmakuError::SpecialCommentSyntax { raw } && raw@ == rec.content@
                }
            },
            Ok(opt) => {
                let mc = MotionClass::spec_from_code(rec.mode_code)->Some_0;
                &&& (opt is None <==> spec_filtered(rec@, *cfg))
                &&& (opt is None <==> (spec_blocked(*cfg, mc) || rec.alpha < cfg.alpha_min
                    || rec.alpha > cfg.alpha_max))
                &&& match opt {
                    Some(c) => {
                        &&& c@ == spec_comment_of(rec@, next_id, *cfg)
                        &&& c.wf()
                        &&& c.timeline_offset == rec.timeline_offset
                        &&& c.motion_class == mc
                        &&& c.content@ == rec.content@
                        &&& c.font_size == if rec.font_size == 0 {
                            cfg.base_font_size
                        } else {
                            rec.font_size
                        }
                        &&& c.color == rec.color % 0x1000000
                        &&& c.alpha == rec.alpha
                        &&& c.sender_id == rec.sender_id
                        &&& c.comment_id == match rec.comment_id {
                            Some(id) => id,
                            None => next_id,
                        }
                        &&& match c.animation {
                            Some(a) => matches_fields(a, spec_split(rec.content@, 44))
                                && c.duration == a.duration,
                            None => c.duration == spec_duration(*cfg, mc, 0),
                        }
                    },
                    None => true,
                }
            },
        },
{
    let mc = match MotionClass::from_code(rec.mode_code) {
        Some(m) => m,
        None => {
            return Err(DanmakuError::UnsupportedMotionClass { code: rec.mode_code });
        },
    };
    if rec.timeline_offset > MAX_TIME {
        return Err(DanmakuError::MalformedInput { index });
    }
    let animation = if let MotionClass::Scripted = mc {
        match parse_special(&rec.content) {
            Ok(a) => Some(a),
            Err(e) => {
                return Err(e);
            },
        }
    } else {
        None
    };
    let blocked = match mc {
        MotionClass::ScrollRightLeft => cfg.block_scroll,
        MotionClass::ScrollLeftRight => cfg.block_scroll,
        MotionClass::FixedTop => cfg.block_top,
        MotionClass::FixedBottom => cfg.block_bottom,
        MotionClass::Scripted => cfg.block_scripted,
    };
    if blocked || rec.alpha < cfg.alpha_min || rec.alpha > cfg.alpha_max {
        return Ok(None);
    }
    let duration: u64 = match &animation {
        Some(a) => a.duration,
        None => {
            if mc.is_scroll() {
                (cfg.base_duration_scroll * cfg.speed_num as u64) / cfg.speed_den as u64
            } else {
                cfg.base_duration_fixed
            }
        },
    };
    let comment_id = match rec.comment_id {
        Some(id) => id,
        None => next_id,
    };
    let c = Comment {
        timeline_offset: rec.timeline_offset,
        motion_class: mc,
        content: crate::special::copy_bytes(&rec.content),
        font_size: if rec.font_size == 0 {
            cfg.base_font_size
        } else {
            rec.font_size
        },
        color: rec.color % 0x1000000,
        alpha: rec.alpha,
        sender_id: rec.sender_id,
        comment_id,
        duration,
        animation,
    };
    proof {
        let rv = rec@;
        let fs = spec_split(rv.content, 44);
        match &c.animation {
            Some(a) => {
                let n = spec_kf_count(fs);
                assert(a@.keyframes =~= Seq::new(n as nat, |i: int| spec_keyframe(fs, i)));
                assert(a@ =~= spec_anim_view(fs));
            },
            None => {},
        }
        assert(c@ =~= spec_comment_of(rv, next_id, *cfg));
    }
    Ok(Some(c))
}

/// Sort comments ascending by `(timeline_offset, comment_id)`, preserving the
/// multiset of comments.
pub fn sort_comments(v: Vec<Comment>) -> (r: Vec<Comment>)
    ensures
        sorted_by_key(r@),
        r@.to_multiset() == v@.to_multiset(),
        views_c(r@).to_multiset() == views_c(v@).to_multiset(),
        r@.len() == v@.len(),
{
    broadcast use vstd::seq_lib::group_to_multiset_ensures;

    let mut rest = v;
    let mut out: Vec<Comment> = Vec::new();
    let ghost orig = rest@;
    proof {
        assert(out@.to_multiset().add(rest@.to_multiset()) =~= orig.to_multiset());
        assert(views_c(out@).to_multiset().add(views_c(rest@).to_multiset()) =~= views_c(
            orig,
        ).to_multiset());
    }
    while rest.len() > 0
        invariant
            sorted_by_key(out@),
            forall|i: int, j: int|
                0 <= i < out@.len() && 0 <= j < rest@.len() ==> key_le(
                    #[trigger] out@[i],
                    #[trigger] rest@[j],
                ),
            out@.to_multiset().add(rest@.to_multiset()) == orig.to_multiset(),
            views_c(out@).to_multiset().add(views_c(rest@).to_multiset()) == views_c(
                orig,
            ).to_multiset(),
            out@.len() + rest@.len() == orig.len(),
        decreases rest@.len(),
    {
        let mut m: usize = 0;
        let mut k: usize = 1;
        while k < rest.len()
            invariant
                m < k <= rest@.len(),
                forall|j: int| 0 <= j < k ==> key_le(rest@[m as int], #[trigger] rest@[j]),
            decreases rest@.len() - k,
        {
            let a = &rest[k];
            let b = &rest[m];
            if a.timeline_offset < b.timeline_offset || (a.timeline_offset == b.timeline_offset
                && a.comment_id < b.comment_id) {
                m = k;
            }
            k = k + 1;
        }
        let ghost pre_rest = rest@;
        let ghost pre_out = out@;
        let c = rest.remove(m);
        proof {
            broadcast use vstd::seq_lib::group_to_multiset_ensures;

            assert(pre_rest.remove(m as int).to_multiset() =~= pre_rest.to_multiset().remove(c));
            assert(views_c(rest@) =~= views_c(pre_rest).remove(m as int));
            assert(views_c(pre_rest).remove(m as int).to_multiset() =~= views_c(
                pre_rest,
            ).to_multiset().remove(views_c(pre_rest)[m as int]));
            assert(views_c(pre_rest)[m as int] == c@);
            assert(forall|j: int| 0 <= j < rest@.len() ==> key_le(c, #[trigger] rest@[j]));
        }
        out.push(c);
        proof {
            broadcast use vstd::seq_lib::group_to_multiset_ensures;

            assert(out@.to_multiset() =~= pre_out.to_multiset().insert(c));
            assert(out@.to_multiset().add(rest@.to_multiset()) =~= orig.to_multiset());
            assert(views_c(out@) =~= views_c(pre_out).push(c@));
            assert(views_c(out@).to_multiset() =~= views_c(pre_out).to_multiset().insert(c@));
            assert(views_c(out@).to_multiset().add(views_c(rest@).to_multiset()) =~= views_c(
                orig,
            ).to_multiset());
            assert(forall|i: int| 0 <= i < pre_out.len() ==> key_le(#[trigger] pre_out[i], c));
            assert(sorted_by_key(out@));
        }
    }
    out
}

/// Drop the oldest comments (front of the sorted sequence) until at most
/// `max_count` remain.
pub fn cap_comments(v: &mut Vec<Comment>, max_count: usize)
    requires
        sorted_by_key(old(v)@),
    ensures
        sorted_by_key(final(v)@),
        final(v)@.len() == if old(v)@.len() <= max_count {
            old(v)@.len() as int
        } else {
            max_count as int
        },
        final(v)@ == old(v)@.skip(old(v)@.len() - final(v)@.len()),
{
    proof {
        assert(v@ =~= old(v)@.skip(0));
    }
    while v.len() > max_count
        invariant
            sorted_by_key(v@),
            v@.len() <= old(v)@.len(),
            v@ == old(v)@.skip(old(v)@.len() - v@.len()),
            v@.len() >= max_count || v@ == old(v)@,
        decreases v@.len(),
    {
        let ghost pre = v@;
        let _ = v.remove(0);
        proof {
            assert(v@ =~= pre.skip(1));
            let a = old(v)@.len() - pre.len();
            assert forall|ii: int| 0 <= ii < v@.len() implies v@[ii] == old(v)@[a + 1 + ii] by {
                assert(v@[ii] == pre[ii + 1]);
                assert(pre[ii + 1] == old(v)@.skip(a)[ii + 1]);
            }
            assert(v@ =~= old(v)@.skip(old(v)@.len() - v@.len()));
            assert forall|i: int, j: int| 0 <= i <= j < v@.len() implies key_le(
                #[trigger] v@[i],
                #[trigger] v@[j],
            ) by {
                assert(v@[i] == pre[i + 1] && v@[j] == pre[j + 1]);
            }
        }
    }
}

/// Normalize a whole decode batch: per-record normalization, the caller's
/// filters, sorting, and the count cap. In strict mode the first per-record
/// error aborts the run — except a special-comment syntax error, which always
/// degrades gracefully: the offending comment alone is dropped and the error
/// reported. In tolerant mode all failures are collected alongside the
/// surviving comments.
///
/// The comment list is exactly the most recent `max_count` of a sorted
/// arrangement of `spec_survivors` (unique up to ties in the ordering key),
/// and the failure list reports exactly the rejected records, by index and
/// with the error `spec_reject_error_matches` fixes.
pub fn normalize(records: Vec<RawRecord>, cfg: &Config, strict: bool) -> (r: Result<
    (Vec<Comment>, Vec<RecordFailure>),
    DanmakuError,
>)
    requires
        cfg.wf(),
    ensures
        r is Err <==> strict && spec_fatal_in(views_r(records@), 0),
        match r {
            Ok((cs, fails)) => {
                let rs = views_r(records@);
                let svs = spec_survivors(rs, 0, *cfg);
                &&& forall|i: int| 0 <= i < cs@.len() ==> (#[trigger] cs@[i]).wf()
                &&& sorted_by_key(cs@)
                &&& cs@.len() == if svs.len() <= cfg.max_count {
                    svs.len() as int
                } else {
                    cfg.max_count as int
                }
                &&& exists|mid: Seq<CommentView>|
                    sorted_by_key_v(mid) && #[trigger] mid.to_multiset() == svs.to_multiset()
                        && views_c(cs@) == mid.skip(mid.len() - cs@.len())
                &&& fails@.map_values(|f: RecordFailure| f.index as int) == spec_reject_indices(
                    rs,
                    0,
                )
                &&& forall|k: int|
                    0 <= k < fails@.len() ==> spec_reject_error_matches(
                        rs[(#[trigger] fails@[k]).index as int],
                        fails@[k].index as int,
                        fails@[k].error,
                    )
                &&& forall|k: int|
                    0 <= k < fails@.len() ==> (#[trigger] fails@[k]).index < records@.len()
                &&& strict ==> forall|k: int|
                    0 <= k < fails@.len() ==> ((#[trigger] fails@[k]).error matches
                        DanmakuError::SpecialCommentSyntax { .. })
            },
            Err(e) => strict && exists|k: int|
                0 <= k < views_r(records@).len() && spec_record_rejected(
                    #[trigger] views_r(records@)[k],
                ) && !spec_graceful_rejected(views_r(records@)[k]) && spec_reject_error_matches(
                    views_r(records@)[k],
                    k,
                    e,
                ),
        },
{
    let ghost rs = views_r(records@);
    let n = records.len();
    let mut out: Vec<Comment> = Vec::new();
    let mut fails: Vec<RecordFailure> = Vec::new();
    let mut next_id: u64 = 0;
    let mut i: usize = 0;
    proof {
        assert(forall|k: int|
            0 <= k < records@.len() ==> views_r(records@)[k] == #[trigger] records@[k]@);
        assert(spec_survivors(rs, 0, *cfg) =~= views_c(out@) + spec_survivors(rs, 0, *cfg));
        assert(spec_reject_indices(rs, 0) =~= fails@.map_values(|f: RecordFailure| f.index as int)
            + spec_reject_indices(rs, 0));
    }
    while i < n
        invariant
            i <= n,
            n == records@.len(),
            cfg.wf(),
            rs == views_r(records@),
            rs.len() == n,
            forall|k: int| 0 <= k < records@.len() ==> rs[k] == #[trigger] records@[k]@,
            next_id == i as u64,
            forall|k: int| 0 <= k < out@.len() ==> (#[trigger] out@[k]).wf(),
            spec_survivors(rs, 0, *cfg) == views_c(out@) + spec_survivors(rs, i as int, *cfg),
            spec_reject_indices(rs, 0) == fails@.map_values(|f: RecordFailure| f.index as int)
                + spec_reject_indices(rs, i as int),
            forall|k: int|
                0 <= k < fails@.len() ==> spec_reject_error_matches(
                    rs[(#[trigger] fails@[k]).index as int],
                    fails@[k].index as int,
                    fails@[k].error,
                ),
            forall|k: int| 0 <= k < fails@.len() ==> (#[trigger] fails@[k]).index < n,
            strict ==> forall|k: int|
                0 <= k < fails@.len() ==> ((#[trigger] fails@[k]).error matches
                    DanmakuError::SpecialCommentSyntax { .. }),
            strict ==> spec_fatal_in(rs, 0) == spec_fatal_in(rs, i as int),
        decreases n - i,
    {
        let ghost pre_out = views_c(out@);
        let ghost pre_fails = fails@.map_values(|f: RecordFailure| f.index as int);
        match normalize_record(&records[i], i, next_id, cfg) {
            Ok(opt) => {
                match opt {
                    Some(c) => {
                        proof {
                            assert(c@ == spec_comment_of(rs[i as int], i as u64, *cfg));
                        }
                        out.push(c);
                        proof {
                            assert(views_c(out@) =~= pre_out.push(
                                spec_comment_of(rs[i as int], i as u64, *cfg),
                            ));
                            assert(seq![spec_comment_of(rs[i as int], i as u64, *cfg)]
                                + spec_survivors(rs, i + 1, *cfg) =~= spec_survivors(
                                rs,
                                i as int,
                                *cfg,
                            ));
                            assert(pre_out.push(spec_comment_of(rs[i as int], i as u64, *cfg))
                                + spec_survivors(rs, i + 1, *cfg) =~= pre_out + spec_survivors(
                                rs,
                                i as int,
                                *cfg,
                            ));
                        }
                    },
                    None => {
                        proof {
                            assert(Seq::<CommentView>::empty() + spec_survivors(rs, i + 1, *cfg)
                                =~= spec_survivors(rs, i + 1, *cfg));
                            assert(spec_survivors(rs, i as int, *cfg) == spec_survivors(
                                rs,
                                i + 1,
                                *cfg,
                            ));
                        }
                    },
                }
                proof {
                    assert(Seq::<int>::empty() + spec_reject_indices(rs, i + 1)
                        =~= spec_reject_indices(rs, i + 1));
                    assert(spec_reject_indices(rs, i as int) == spec_reject_indices(rs, i + 1));
                }
            },
            Err(e) => {
                let graceful = matches!(e, DanmakuError::SpecialCommentSyntax { .. });
                proof {
                    assert(graceful == spec_graceful_rejected(rs[i as int]));
                    assert(spec_reject_error_matches(rs[i as int], i as int, e));
                }
                if strict && !graceful {
                    proof {
                        assert(spec_fatal_in(rs, i as int));
                        lemma_fatal_in_mono(rs, i as int);
                    }
                    return Err(e);
                }
                fails.push(RecordFailure { index: i, error: e });
                proof {
                    assert(fails@.map_values(|f: RecordFailure| f.index as int) =~= pre_fails.push(
                        i as int,
                    ));
                    assert(seq![i as int] + spec_reject_indices(rs, i + 1) =~= spec_reject_indices(
                        rs,
                        i as int,
                    ));
                    assert(pre_fails.push(i as int) + spec_reject_indices(rs, i + 1) =~= pre_fails
                        + spec_reject_indices(rs, i as int));
                }
                proof {
                    assert(Seq::<CommentView>::empty() + spec_survivors(rs, i + 1, *cfg)
                        =~= spec_survivors(rs, i + 1, *cfg));
                    assert(spec_survivors(rs, i as int, *cfg) == spec_survivors(rs, i + 1, *cfg));
                }
            },
        }
        next_id = next_id + 1;
        i = i + 1;
    }
    proof {
        assert(spec_survivors(rs, n as int, *cfg) == Seq::<CommentView>::empty());
        assert(views_c(out@) + Seq::<CommentView>::empty() =~= views_c(out@));
        assert(spec_reject_indices(rs, n as int) == Seq::<int>::empty());
        assert(fails@.map_values(|f: RecordFailure| f.index as int) + Seq::<int>::empty()
            =~= fails@.map_values(|f: RecordFailure| f.index as int));
    }
    let ghost out_v = views_c(out@);
    let mut sorted = sort_comments(out);
    proof {
        broadcast use vstd::seq_lib::group_to_multiset_ensures;

        assert forall|k: int| 0 <= k < sorted@.len() implies (#[trigger] sorted@[k]).wf() by {
            assert(sorted@.to_multiset().contains(sorted@[k]));
        }
    }
    let ghost pre_cap = views_c(sorted@);
    proof {
        assert forall|a: int, b: int| 0 <= a <= b < pre_cap.len() implies key_le_v(
            #[trigger] pre_cap[a],
            #[trigger] pre_cap[b],
        ) by {
            assert(key_le(sorted@[a], sorted@[b]));
        }
        assert(sorted_by_key_v(pre_cap));
    }
    cap_comments(&mut sorted, cfg.max_count);
    proof {
        assert forall|k: int| 0 <= k < sorted@.len() implies (#[trigger] sorted@[k]).wf() by {}
        let svs = spec_survivors(rs, 0, *cfg);
        assert(svs == out_v);
        assert(pre_cap.to_multiset() == svs.to_multiset());
        assert(views_c(sorted@) =~= pre_cap.skip(pre_cap.len() - sorted@.len()));
    }
    Ok((sorted, fails))
}

/// When the wire supplies no identifiers, the sequential fallback keeps
/// `comment_id` unique per batch: survivor identifiers are strictly
/// increasing in record order.
pub proof fn lemma_fallback_ids_unique(rs: Seq<RawView>, i: int, cfg: Config)
    requires
        0 <= i <= rs.len(),
        rs.len() <= u64::MAX,
        forall|k: int| 0 <= k < rs.len() ==> (#[trigger] rs[k]).comment_id is None,
    ensures
        forall|k: int|
            0 <= k < spec_survivors(rs, i, cfg).len() ==> (#[trigger] spec_survivors(
                rs,
                i,
                cfg,
            )[k]).comment_id >= i,
        forall|a: int, b: int|
            0 <= a < b < spec_survivors(rs, i, cfg).len() ==> (#[trigger] spec_survivors(
                rs,
                i,
                cfg,
            )[a]).comment_id < (#[trigger] spec_survivors(rs, i, cfg)[b]).comment_id,
    decreases rs.len() - i,
{
    if i < rs.len() {
        lemma_fallback_ids_unique(rs, i + 1, cfg);
        let svs = spec_survivors(rs, i, cfg);
        let tail = spec_survivors(rs, i + 1, cfg);
        if !spec_record_rejected(rs[i]) && !spec_filtered(rs[i], cfg) {
            assert(svs[0].comment_id == i as u64);
            assert(forall|k: int| 1 <= k < svs.len() ==> #[trigger] svs[k] == tail[k - 1]);
        } else {
            assert(forall|k: int| 0 <= k < svs.len() ==> #[trigger] svs[k] == tail[k]);
        }
    }
}

/// An abort-worthy rejection from `i` on is one from the start on.
proof fn lemma_fatal_in_mono(rs: Seq<RawView>, i: int)
    requires
        0 <= i <= rs.len(),
        spec_fatal_in(rs, i),
    ensures
        spec_fatal_in(rs, 0),
    decreases i,
{
    if i > 0 {
        assert(spec_fatal_in(rs, i - 1));
        lemma_fatal_in_mono(rs, i - 1);
    }
}

} // verus!
