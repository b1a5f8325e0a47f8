//! The canonical comment model: motion classes, the animation descriptor of
//! scripted comments, and the well-formedness conditions that the rest of the
//! pipeline relies on.

use vstd::prelude::*;

verus! {

/// Largest admissible time value (offsets and durations), chosen so that the
/// products the lane allocator forms stay well inside `u64`.
pub const MAX_TIME: u64 = 0x7FFF_FFFF;

/// Keyframe time fractions are fixed-point: `FRAC_ONE` stands for 1.0.
pub const FRAC_ONE: u32 = 1000;

/// How a comment moves across the canvas.
///
/// Wire formats encode the class as a small integer: 1 scrolls right-to-left,
/// 4 is fixed at the bottom, 5 fixed at the top, and 6 and 7 are the scripted
/// (animation-carrying) variants. Code 2 is accepted deliberately as
/// scroll-left-to-right: the established code table names none for that
/// class, and it would otherwise be unreachable from the wire. Every other
/// code is rejected.
#[derive(Clone, Copy, PartialEq, Eq, Structural, Debug)]
pub enum MotionClass {
    ScrollRightLeft,
    ScrollLeftRight,
    FixedTop,
    FixedBottom,
    Scripted,
}

impl MotionClass {
    /// Both scroll directions; they share one lane pool.
    pub open spec fn spec_is_scroll(self) -> bool {
        self == MotionClass::ScrollRightLeft || self == MotionClass::ScrollLeftRight
    }

    pub fn is_scroll(self) -> (r: bool)
        ensures
            r == self.spec_is_scroll(),
    {
        match self {
            MotionClass::ScrollRightLeft => true,
            MotionClass::ScrollLeftRight => true,
            _ => false,
        }
    }

    /// Decode a wire motion-class code; codes outside the known set are the
    /// callers' `UnsupportedMotionClass` error.
    pub fn from_code(code: u64) -> (r: Option<MotionClass>)
        ensures
            r == MotionClass::spec_from_code(code),
    {
        match code {
            1u64 => Some(MotionClass::ScrollRightLeft),
            2u64 => Some(MotionClass::ScrollLeftRight),
            4u64 => Some(MotionClass::FixedBottom),
            5u64 => Some(MotionClass::FixedTop),
            6u64 => Some(MotionClass::Scripted),
            7u64 => Some(MotionClass::Scripted),
            _ => None,
        }
    }

    pub open spec fn spec_from_code(code: u64) -> Option<MotionClass> {
        if code == 1 {
            Some(MotionClass::ScrollRightLeft)
        } else if code == 2 {
            Some(MotionClass::ScrollLeftRight)
        } else if code == 4 {
            Some(MotionClass::FixedBottom)
        } else if code == 5 {
            Some(MotionClass::FixedTop)
        } else if code == 6 || code == 7 {
            Some(MotionClass::Scripted)
        } else {
            None
        }
    }
}

/// One point of a scripted comment's motion path: a time fraction (fixed
/// point, `FRAC_ONE` = 1.0) and a canvas position.
#[derive(Clone, Copy, PartialEq, Eq, Structural, Debug)]
pub struct Keyframe {
    pub fraction: u32,
    pub x: i32,
    pub y: i32,
}

/// A keyframe list is well-formed when it is empty or its fractions are
/// non-decreasing and span exactly [0, 1].
pub open spec fn keyframes_wf(ks: Seq<Keyframe>) -> bool {
    ks.len() == 0 || {
        &&& ks[0].fraction == 0
        &&& ks[ks.len() - 1].fraction == FRAC_ONE
        &&& forall|i: int, j: int|
            0 <= i <= j < ks.len() ==> #[trigger] ks[i].fraction <= #[trigger] ks[j].fraction
    }
}

/// The animation descriptor carried by a scripted comment, parsed out of its
/// parameter string.
pub struct Animation {
    pub start_x: i32,
    pub start_y: i32,
    pub end_x: i32,
    pub end_y: i32,
    pub duration: u64,
    pub rot_y: i32,
    pub rot_z: i32,
    pub keyframes: Vec<Keyframe>,
    pub font_family: Option<Vec<u8>>,
    pub border: bool,
}

impl Animation {
    pub open spec fn wf(self) -> bool {
        &&& 0 < self.duration <= MAX_TIME
        &&& keyframes_wf(self.keyframes@)
    }
}

/// The canonical comment. `content` is the UTF-8 text payload as bytes; for a
/// scripted comment the wire content was the parameter string and `content`
/// holds it raw while `animation` holds its parse.
pub struct Comment {
    pub timeline_offset: u64,
    pub motion_class: MotionClass,
    pub content: Vec<u8>,
    pub font_size: u32,
    pub color: u32,
    pub alpha: u8,
    pub sender_id: u64,
    pub comment_id: u64,
    pub duration: u64,
    pub animation: Option<Animation>,
}

impl Comment {
    /// The invariant every normalized comment satisfies: bounded times, a
    /// positive duration, a packed-RGB colour, and an animation exactly on the
    /// scripted class.
    pub open spec fn wf(self) -> bool {
        &&& self.timeline_offset <= MAX_TIME
        &&& 0 < self.duration <= MAX_TIME
        &&& self.color <= 0xFF_FF_FF
        &&& self.animation is Some <==> self.motion_class == MotionClass::Scripted
        &&& match self.animation {
            Some(a) => a.wf(),
            None => true,
        }
    }

    /// End of the comment's visibility window.
    pub open spec fn spec_end(self) -> int {
        self.timeline_offset + self.duration
    }

    pub fn end(&self) -> (r: u64)
        requires
            self.wf(),
        ensures
            r == self.spec_end(),
    {
        self.timeline_offset + self.duration
    }
}

/// The view of an animation descriptor: its owned data as sequences.
#[verifier::ext_equal]
pub struct AnimationView {
    pub start_x: i32,
    pub start_y: i32,
    pub end_x: i32,
    pub end_y: i32,
    pub duration: u64,
    pub rot_y: i32,
    pub rot_z: i32,
    pub keyframes: Seq<Keyframe>,
    pub font_family: Option<Seq<u8>>,
    pub border: bool,
}

impl View for Animation {
    type V = AnimationView;

    open spec fn view(&self) -> AnimationView {
        AnimationView {
            start_x: self.start_x,
            start_y: self.start_y,
            end_x: self.end_x,
            end_y: self.end_y,
            duration: self.duration,
            rot_y: self.rot_y,
            rot_z: self.rot_z,
            keyframes: self.keyframes@,
            font_family: match self.font_family {
                Some(f) => Some(f@),
                None => None,
            },
            border: self.border,
        }
    }
}

/// The view of a comment: its owned data as sequences.
#[verifier::ext_equal]
pub struct CommentView {
    pub timeline_offset: u64,
    pub motion_class: MotionClass,
    pub content: Seq<u8>,
    pub font_size: u32,
    pub color: u32,
    pub alpha: u8,
    pub sender_id: u64,
    pub comment_id: u64,
    pub duration: u64,
    pub animation: Option<AnimationView>,
}

impl View for Comment {
    type V = CommentView;

    open spec fn view(&self) -> CommentView {
        CommentView {
            timeline_offset: self.timeline_offset,
            motion_class: self.motion_class,
            content: self.content@,
            font_size: self.font_size,
            color: self.color,
            alpha: self.alpha,
            sender_id: self.sender_id,
            comment_id: self.comment_id,
            duration: self.duration,
            animation: match self.animation {
                Some(a) => Some(a@),
                None => None,
            },
        }
    }
}

/// The views of a comment sequence.
pub open spec fn views_c(s: Seq<Comment>) -> Seq<CommentView> {
    s.map_values(|c: Comment| c@)
}

/// Processing order at the view level.
pub open spec fn key_le_v(a: CommentView, b: CommentView) -> bool {
    a.timeline_offset < b.timeline_offset || (a.timeline_offset == b.timeline_offset
        && a.comment_id <= b.comment_id)
}

pub open spec fn sorted_by_key_v(s: Seq<CommentView>) -> bool {
    forall|i: int, j: int| 0 <= i <= j < s.len() ==> key_le_v(#[trigger] s[i], #[trigger] s[j])
}

/// Pipeline configuration: canvas geometry, lane bounds, base style,
/// duration rules, and the caller's filters.
pub struct Config {
    pub canvas_width: u32,
    pub canvas_height: u32,
    pub row_height: u32,
    pub lane_cap: usize,
    pub base_font_size: u32,
    pub base_duration_scroll: u64,
    pub base_duration_fixed: u64,
    pub speed_num: u32,
    pub speed_den: u32,
    pub block_scroll: bool,
    pub block_top: bool,
    pub block_bottom: bool,
    pub block_scripted: bool,
    pub alpha_min: u8,
    pub alpha_max: u8,
    pub max_count: usize,
}

impl Config {
    /// Duration of a scroll comment: the base scaled by the speed factor.
    pub open spec fn scroll_duration(self) -> int {
        (self.base_duration_scroll * self.speed_num) as int / self.speed_den as int
    }

    pub open spec fn wf(self) -> bool {
        &&& self.canvas_width > 0
        &&& self.row_height > 0
        &&& self.lane_cap >= 1
        &&& self.lane_cap * self.row_height <= self.canvas_height
        &&& 0 < self.base_duration_fixed <= MAX_TIME
        &&& self.speed_den > 0
        &&& self.base_duration_scroll * self.speed_num <= u64::MAX
        &&& 0 < self.scroll_duration() <= MAX_TIME
    }
}

/// Processing order everywhere in the pipeline: ascending
/// `(timeline_offset, comment_id)`.
pub open spec fn key_le(a: Comment, b: Comment) -> bool {
    a.timeline_offset < b.timeline_offset || (a.timeline_offset == b.timeline_offset
        && a.comment_id <= b.comment_id)
}

pub open spec fn sorted_by_key(s: Seq<Comment>) -> bool {
    forall|i: int, j: int| 0 <= i <= j < s.len() ==> key_le(#[trigger] s[i], #[trigger] s[j])
}

} // verus!
