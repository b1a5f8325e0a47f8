//! Lane allocation: placing comments into a bounded number of screen lanes so
//! that no two comments in the same lane are visible at once.
//!
//! Three independent pools exist: fixed-top, fixed-bottom, and one shared
//! scroll pool for both scroll directions (a left-mover and a right-mover can
//! meet mid-screen, so they must share lane bookkeeping). Scripted comments
//! bypass allocation entirely.

use vstd::prelude::*;
use vstd::pervasive::VecAdditionalExecFns;
use crate::comment::MAX_TIME;

verus! {

/// The result of placing one comment: the lane index, and whether the pool
/// was full so the comment was force-placed (degraded mode, never an error).
#[derive(Clone, Copy, PartialEq, Eq, Structural, Debug)]
pub struct LaneAssignment {
    pub lane: usize,
    pub degraded: bool,
}

// ---------------------------------------------------------------------------
// Fixed pools (top / bottom): a lane is reusable exactly when its occupant's
// visibility window has ended.
// ---------------------------------------------------------------------------

/// One allocation step of a fixed pool, over its `free_at` view: everything
/// `FixedPool::allocate` guarantees, as a relation between the state before
/// (`pre`) and after (`post`) placing a comment at `t` for `d` units.
pub open spec fn fixed_step_v(
    pre: Seq<u64>,
    post: Seq<u64>,
    t: u64,
    d: u64,
    a: LaneAssignment,
    cap: int,
) -> bool {
    &&& a.lane < cap
    &&& a.lane <= pre.len()
    &&& post.len() == (if a.lane < pre.len() {
        pre.len() as int
    } else {
        pre.len() + 1int
    })
    &&& post[a.lane as int] == t + d
    &&& forall|j: int| 0 <= j < pre.len() && j != a.lane ==> #[trigger] post[j] == pre[j]
    &&& (!a.degraded && a.lane < pre.len() ==> pre[a.lane as int] <= t)
    &&& (!a.degraded ==> forall|j: int| 0 <= j < a.lane ==> #[trigger] pre[j] > t)
    &&& (a.lane == pre.len() ==> pre.len() < cap && !a.degraded)
    &&& (a.degraded <==> (pre.len() == cap && forall|j: int|
        0 <= j < pre.len() ==> #[trigger] pre[j] > t))
    &&& (a.degraded ==> (forall|j: int|
        0 <= j < pre.len() ==> pre[a.lane as int] <= #[trigger] pre[j]) && (forall|j: int|
        0 <= j < a.lane ==> #[trigger] pre[j] > pre[a.lane as int]))
}

/// One pool of stationary lanes; `free_at[i]` is the time at which lane `i`
/// becomes safe to reuse.
pub struct FixedPool {
    pub free_at: Vec<u64>,
}

impl FixedPool {
    pub open spec fn wf(self, cap: int) -> bool {
        &&& self.free_at@.len() <= cap
        &&& forall|i: int|
            0 <= i < self.free_at@.len() ==> #[trigger] self.free_at@[i] <= 2 * MAX_TIME
    }

    pub fn new() -> (r: FixedPool)
        ensures
            r.free_at@.len() == 0,
            forall|cap: int| 0 <= cap ==> r.wf(cap),
    {
        FixedPool { free_at: Vec::new() }
    }

    /// Place a comment appearing at `t` for `d` time units.
    ///
    /// First-fit over existing lanes in ascending index order; a fresh lane is
    /// opened only when no existing lane is free and the pool is under `cap`;
    /// when the pool is full and busy, the comment is force-placed in the
    /// least-recently-freed lane and the assignment is marked degraded.
    pub fn allocate(&mut self, cap: usize, t: u64, d: u64) -> (r: LaneAssignment)
        requires
            old(self).wf(cap as int),
            cap >= 1,
            t <= MAX_TIME,
            0 < d <= MAX_TIME,
        ensures
            final(self).wf(cap as int),
            r.lane < cap,
            r.lane <= old(self).free_at@.len(),
            final(self).free_at@.len() == if r.lane < old(self).free_at@.len() {
                old(self).free_at@.len() as int
            } else {
                old(self).free_at@.len() + 1int
            },
            final(self).free_at@[r.lane as int] == t + d,
            forall|j: int|
                0 <= j < old(self).free_at@.len() && j != r.lane ==> #[trigger] final(self).free_at@[j]
                    == old(self).free_at@[j],
            // a reused lane really was free, and every lane below it was busy
            !r.degraded && r.lane < old(self).free_at@.len() ==> old(self).free_at@[r.lane as int]
                <= t,
            !r.degraded ==> forall|j: int| 0 <= j < r.lane ==> #[trigger] old(self).free_at@[j] > t,
            // a fresh lane is opened only under the cap
            r.lane == old(self).free_at@.len() ==> old(self).free_at@.len() < cap && !r.degraded,
            // degraded exactly when the pool was full and every lane busy
            r.degraded <==> (old(self).free_at@.len() == cap && forall|j: int|
                0 <= j < old(self).free_at@.len() ==> #[trigger] old(self).free_at@[j] > t),
            // forced placement picks the first least-recently-freed lane
            r.degraded ==> (forall|j: int|
                0 <= j < old(self).free_at@.len() ==> old(self).free_at@[r.lane as int]
                    <= #[trigger] old(self).free_at@[j]) && (forall|j: int|
                0 <= j < r.lane ==> #[trigger] old(self).free_at@[j] > old(
                    self,
                ).free_at@[r.lane as int]),
            fixed_step_v(old(self).free_at@, final(self).free_at@, t, d, r, cap as int),
    {
        let n = self.free_at.len();
        let mut i: usize = 0;
        while i < n
            invariant
                i <= n,
                n == self.free_at@.len(),
                self == old(self),
                old(self).wf(cap as int),
                t <= MAX_TIME,
                0 < d <= MAX_TIME,
                forall|j: int| 0 <= j < i ==> #[trigger] self.free_at@[j] > t,
            decreases n - i,
        {
            if self.free_at[i] <= t {
                self.free_at.set(i, t + d);
                return LaneAssignment { lane: i, degraded: false };
            }
            i = i + 1;
        }
        if n < cap {
            self.free_at.push(t + d);
            return LaneAssignment { lane: n, degraded: false };
        }
        let mut best: usize = 0;
        let mut j: usize = 1;
        while j < n
            invariant
                1 <= j <= n,
                best < j,
                n == self.free_at@.len(),
                self == old(self),
                old(self).wf(cap as int),
                t <= MAX_TIME,
                0 < d <= MAX_TIME,
                forall|k: int|
                    0 <= k < j ==> self.free_at@[best as int] <= #[trigger] self.free_at@[k],
                forall|k: int| 0 <= k < best ==> #[trigger] self.free_at@[k]
                    > self.free_at@[best as int],
            decreases n - j,
        {
            if self.free_at[j] < self.free_at[best] {
                best = j;
            }
            j = j + 1;
        }
        self.free_at.set(best, t + d);
        LaneAssignment { lane: best, degraded: true }
    }
}

// ---------------------------------------------------------------------------
// The shared scroll pool.
// ---------------------------------------------------------------------------

/// The current occupant of one scroll lane: appearance time, duration, and
/// direction (`rl` is right-to-left).
#[derive(Clone, Copy, PartialEq, Eq, Structural, Debug)]
pub struct ScrollLane {
    pub t0: u64,
    pub d0: u64,
    pub rl: bool,
}

/// Whether a lane occupied by an opposite-direction comment `(t0, d0)` can
/// take a new comment `(t1, d1)` with `t1 >= t0`, without the two ever
/// overlapping on screen.
///
/// Each scroll comment's leading edge crosses the canvas (width `w`) at the
/// constant speed `w / duration`. The two leading edges close on each other,
/// and they meet at the instant where `d0*(t - t1) + d1*(t - t0) == d0*d1`
/// (the meeting equation cross-multiplied by `d0*d1/w`). The lane is safe if
/// that instant lies at or after the moment the earlier comment disappears —
/// checked at `te = min(t0 + d0, t1 + d1)` — or if the occupant is gone
/// before the new comment appears at all.
pub open spec fn opposite_ok(t0: int, d0: int, t1: int, d1: int) -> bool {
    t1 >= t0 + d0 || {
        let te = if t0 + d0 <= t1 + d1 {
            t0 + d0
        } else {
            t1 + d1
        };
        d0 * (te - t1) + d1 * (te - t0) <= d0 * d1
    }
}

/// Whether the lane occupied by `occ` can take a new comment `(t1, d1)`
/// moving right-to-left iff `rl1`: a same-direction successor must wait for
/// the occupant to exit; an opposite-direction one must satisfy the
/// closing-speed bound.
pub open spec fn scroll_free(occ: ScrollLane, t1: int, d1: int, rl1: bool) -> bool {
    if occ.rl == rl1 {
        t1 >= occ.t0 + occ.d0
    } else {
        opposite_ok(occ.t0 as int, occ.d0 as int, t1, d1)
    }
}

/// Executable form of `opposite_ok`.
pub fn check_opposite(t0: u64, d0: u64, t1: u64, d1: u64) -> (r: bool)
    requires
        t0 <= MAX_TIME,
        0 < d0 <= MAX_TIME,
        t1 <= MAX_TIME,
        0 < d1 <= MAX_TIME,
        t1 >= t0,
    ensures
        r == opposite_ok(t0 as int, d0 as int, t1 as int, d1 as int),
{
    if t1 >= t0 + d0 {
        true
    } else {
        let e0 = t0 + d0;
        let e1 = t1 + d1;
        let te = if e0 <= e1 {
            e0
        } else {
            e1
        };
        let x1 = te - t1;
        let x0 = te - t0;
        proof {
            assert((d0 as int) * (x1 as int) <= (MAX_TIME as int) * (MAX_TIME as int))
                by (nonlinear_arith)
                requires
                    d0 <= MAX_TIME,
                    x1 <= MAX_TIME,
                    0 <= d0,
                    0 <= x1,
            ;
            assert((d1 as int) * (x0 as int) <= (MAX_TIME as int) * (MAX_TIME as int))
                by (nonlinear_arith)
                requires
                    d1 <= MAX_TIME,
                    x0 <= MAX_TIME,
                    0 <= d1,
                    0 <= x0,
            ;
            assert((d0 as int) * (d1 as int) <= (MAX_TIME as int) * (MAX_TIME as int))
                by (nonlinear_arith)
                requires
                    d0 <= MAX_TIME,
                    d1 <= MAX_TIME,
                    0 <= d0,
                    0 <= d1,
            ;
        }
        d0 * x1 + d1 * x0 <= d0 * d1
    }
}

/// One allocation step of the scroll pool, over its lane view: everything
/// `ScrollPool::allocate` guarantees, as a relation between the occupants
/// before (`pre`) and after (`post`) placing a comment at `t` for `d` units,
/// moving right-to-left iff `rl`.
pub open spec fn scroll_step_v(
    pre: Seq<ScrollLane>,
    post: Seq<ScrollLane>,
    t: u64,
    d: u64,
    rl: bool,
    a: LaneAssignment,
    cap: int,
) -> bool {
    &&& a.lane < cap
    &&& a.lane <= pre.len()
    &&& post.len() == (if a.lane < pre.len() {
        pre.len() as int
    } else {
        pre.len() + 1int
    })
    &&& post[a.lane as int] == (ScrollLane { t0: t, d0: d, rl })
    &&& forall|j: int| 0 <= j < pre.len() && j != a.lane ==> #[trigger] post[j] == pre[j]
    &&& (!a.degraded && a.lane < pre.len() ==> scroll_free(
        pre[a.lane as int],
        t as int,
        d as int,
        rl,
    ))
    &&& (!a.degraded ==> forall|j: int|
        0 <= j < a.lane ==> !scroll_free(#[trigger] pre[j], t as int, d as int, rl))
    &&& (a.lane == pre.len() ==> pre.len() < cap && !a.degraded)
    &&& (a.degraded <==> (pre.len() == cap && forall|j: int|
        0 <= j < pre.len() ==> !scroll_free(#[trigger] pre[j], t as int, d as int, rl)))
    &&& (a.degraded ==> (forall|j: int|
        0 <= j < pre.len() ==> pre[a.lane as int].t0 + pre[a.lane as int].d0 <= (
        #[trigger] pre[j]).t0 + pre[j].d0) && (forall|j: int|
        0 <= j < a.lane ==> (#[trigger] pre[j]).t0 + pre[j].d0 > pre[a.lane as int].t0
            + pre[a.lane as int].d0))
}

/// The shared pool for both scroll directions.
pub struct ScrollPool {
    pub lanes: Vec<ScrollLane>,
}

impl ScrollPool {
    pub open spec fn wf(self, cap: int) -> bool {
        &&& self.lanes@.len() <= cap
        &&& forall|i: int|
            0 <= i < self.lanes@.len() ==> {
                &&& (#[trigger] self.lanes@[i]).t0 <= MAX_TIME
                &&& 0 < self.lanes@[i].d0 <= MAX_TIME
            }
    }

    pub fn new() -> (r: ScrollPool)
        ensures
            r.lanes@.len() == 0,
            forall|cap: int| 0 <= cap ==> r.wf(cap),
    {
        ScrollPool { lanes: Vec::new() }
    }

    /// Place a scroll comment appearing at `t` for `d` units, moving
    /// right-to-left iff `rl`. Comments must arrive in ascending appearance
    /// time. First-fit, fresh lane under the cap, else forced placement in
    /// the lane whose occupant exits first (degraded).
    pub fn allocate(&mut self, cap: usize, t: u64, d: u64, rl: bool) -> (r: LaneAssignment)
        requires
            old(self).wf(cap as int),
            cap >= 1,
            t <= MAX_TIME,
            0 < d <= MAX_TIME,
            forall|i: int| 0 <= i < old(self).lanes@.len() ==> (#[trigger] old(self).lanes@[i]).t0
                <= t,
        ensures
            final(self).wf(cap as int),
            r.lane < cap,
            r.lane <= old(self).lanes@.len(),
            final(self).lanes@.len() == if r.lane < old(self).lanes@.len() {
                old(self).lanes@.len() as int
            } else {
                old(self).lanes@.len() + 1int
            },
            final(self).lanes@[r.lane as int] == (ScrollLane { t0: t, d0: d, rl }),
            forall|j: int|
                0 <= j < old(self).lanes@.len() && j != r.lane ==> #[trigger] final(self).lanes@[j]
                    == old(self).lanes@[j],
            // the collision-freedom fact: a non-degraded reuse satisfied the
            // occupant's freedom condition
            !r.degraded && r.lane < old(self).lanes@.len() ==> scroll_free(
                old(self).lanes@[r.lane as int],
                t as int,
                d as int,
                rl,
            ),
            !r.degraded ==> forall|j: int|
                0 <= j < r.lane ==> !scroll_free(#[trigger] old(self).lanes@[j], t as int, d as int, rl),
            r.lane == old(self).lanes@.len() ==> old(self).lanes@.len() < cap && !r.degraded,
            r.degraded <==> (old(self).lanes@.len() == cap && forall|j: int|
                0 <= j < old(self).lanes@.len() ==> !scroll_free(
                    #[trigger] old(self).lanes@[j],
                    t as int,
                    d as int,
                    rl,
                )),
            scroll_step_v(old(self).lanes@, final(self).lanes@, t, d, rl, r, cap as int),
            // forced placement picks the first lane whose occupant exits
            // earliest (the least-recently-freed lane)
            r.degraded ==> (forall|j: int|
                0 <= j < old(self).lanes@.len() ==> old(self).lanes@[r.lane as int].t0 + old(
                    self,
                ).lanes@[r.lane as int].d0 <= (#[trigger] old(self).lanes@[j]).t0 + old(
                    self,
                ).lanes@[j].d0) && (forall|j: int|
                0 <= j < r.lane ==> (#[trigger] old(self).lanes@[j]).t0 + old(self).lanes@[j].d0
                    > old(self).lanes@[r.lane as int].t0 + old(self).lanes@[r.lane as int].d0),
    {
        let n = self.lanes.len();
        let mut i: usize = 0;
        while i < n
            invariant
                i <= n,
                n == self.lanes@.len(),
                self == old(self),
                old(self).wf(cap as int),
                t <= MAX_TIME,
                0 < d <= MAX_TIME,
                forall|k: int| 0 <= k < n ==> (#[trigger] self.lanes@[k]).t0 <= t,
                forall|j: int|
                    0 <= j < i ==> !scroll_free(#[trigger] self.lanes@[j], t as int, d as int, rl),
            decreases n - i,
        {
            let occ = self.lanes[i];
            let free = if occ.rl == rl {
                t >= occ.t0 + occ.d0
            } else {
                check_opposite(occ.t0, occ.d0, t, d)
            };
            if free {
                self.lanes.set(i, ScrollLane { t0: t, d0: d, rl });
                return LaneAssignment { lane: i, degraded: false };
            }
            i = i + 1;
        }
        if n < cap {
            self.lanes.push(ScrollLane { t0: t, d0: d, rl });
            return LaneAssignment { lane: n, degraded: false };
        }
        let mut best: usize = 0;
        let mut j: usize = 1;
        while j < n
            invariant
                1 <= j <= n,
                best < j,
                n == self.lanes@.len(),
                self == old(self),
                old(self).wf(cap as int),
                t <= MAX_TIME,
                0 < d <= MAX_TIME,
                forall|k: int|
                    0 <= k < j ==> self.lanes@[best as int].t0 + self.lanes@[best as int].d0
                        <= (#[trigger] self.lanes@[k]).t0 + self.lanes@[k].d0,
                forall|k: int|
                    0 <= k < best ==> (#[trigger] self.lanes@[k]).t0 + self.lanes@[k].d0
                        > self.lanes@[best as int].t0 + self.lanes@[best as int].d0,
            decreases n - j,
        {
            let cand = self.lanes[j];
            let cur = self.lanes[best];
            if cand.t0 + cand.d0 < cur.t0 + cur.d0 {
                best = j;
            }
            j = j + 1;
        }
        self.lanes.set(best, ScrollLane { t0: t, d0: d, rl });
        LaneAssignment { lane: best, degraded: true }
    }
}

// ---------------------------------------------------------------------------
// The collision-freedom laws.
// ---------------------------------------------------------------------------

/// Left edge of a right-to-left comment `(ta, da)` at time `t`, multiplied by
/// its duration `da`: the edge appears at `w` and reaches 0 at `ta + da`.
pub open spec fn rl_left_edge_times_d(w: int, ta: int, da: int, t: int) -> int {
    w * da - w * (t - ta)
}

/// Right edge of a left-to-right comment `(tb, db)` at time `t`, multiplied
/// by its duration `db`: the edge appears at 0 and reaches `w` at `tb + db`.
pub open spec fn lr_right_edge_times_d(w: int, tb: int, db: int, t: int) -> int {
    w * (t - tb)
}

/// Two opposite-direction scroll comments admitted to one lane never overlap
/// on screen: at every instant of their shared visibility window, the
/// right-mover's leading (right) edge stays at or left of the left-mover's
/// leading (left) edge. The edges are compared after cross-multiplying by the
/// two durations, so the statement is exact integer arithmetic.
///
/// `(ta, da)` is the right-to-left comment, `(tb, db)` the left-to-right one;
/// either may be the earlier (lane-occupying) one, since `opposite_ok` is
/// symmetric in its two comments.
pub proof fn lemma_opposite_directions_never_overlap(
    w: int,
    ta: int,
    da: int,
    tb: int,
    db: int,
    t: int,
)
    requires
        w > 0,
        0 <= ta,
        0 < da,
        0 <= tb,
        0 < db,
        opposite_ok(ta, da, tb, db) || opposite_ok(tb, db, ta, da),
        ta <= t,
        tb <= t,
        t <= ta + da,
        t <= tb + db,
    ensures
        lr_right_edge_times_d(w, tb, db, t) * da <= rl_left_edge_times_d(w, ta, da, t) * db,
{
    let te = if ta + da <= tb + db {
        ta + da
    } else {
        tb + db
    };
    // In every admitted case the closing inequality holds at the end of the
    // shared window.
    if opposite_ok(ta, da, tb, db) {
        if tb >= ta + da {
            // the windows share at most the single instant te == tb == ta + da
            assert(tb == ta + da && te == tb);
            assert(da * (te - tb) + db * (te - ta) <= da * db) by (nonlinear_arith)
                requires
                    te == tb,
                    te - ta == da,
                    0 < da,
                    0 < db,
            ;
        } else {
            assert(da * (te - tb) + db * (te - ta) <= da * db);
        }
    } else {
        if ta >= tb + db {
            assert(ta == tb + db && te == ta);
            assert(da * (te - tb) + db * (te - ta) <= da * db) by (nonlinear_arith)
                requires
                    te == ta,
                    te - tb == db,
                    0 < da,
                    0 < db,
            ;
        } else {
            assert(db * (te - ta) + da * (te - tb) <= db * da);
            assert(da * (te - tb) + db * (te - ta) <= da * db) by (nonlinear_arith)
                requires
                    db * (te - ta) + da * (te - tb) <= db * da,
            ;
        }
    }
    // The closing expression is non-decreasing in time, so it holds at t too.
    assert(da * (t - tb) + db * (t - ta) <= da * (te - tb) + db * (te - ta)) by (nonlinear_arith)
        requires
            t <= te,
            0 < da,
            0 < db,
    ;
    // Rearranged, that is exactly the edge ordering.
    assert(w * (t - tb) * da <= (w * da - w * (t - ta)) * db) by (nonlinear_arith)
        requires
            w > 0,
            da * (t - tb) + db * (t - ta) <= da * db,
    ;
}


/// What `ScrollPool::allocate` promises for a reused lane implies the
/// collision freedom itself: when a lane's occupant and the newly admitted
/// comment move in opposite directions, their horizontal extents are disjoint
/// at every instant `t` of the shared visibility window — the right-mover's
/// leading edge never passes the left-mover's leading edge (compared after
/// cross-multiplying by both durations).
pub proof fn lemma_lane_reuse_never_overlaps(
    occ: ScrollLane,
    t1: int,
    d1: int,
    rl1: bool,
    w: int,
    t: int,
)
    requires
        w > 0,
        occ.rl != rl1,
        0 < occ.d0,
        0 <= t1,
        0 < d1,
        scroll_free(occ, t1, d1, rl1),
        occ.t0 <= t,
        t1 <= t,
        t <= occ.t0 + occ.d0,
        t <= t1 + d1,
    ensures
        occ.rl ==> lr_right_edge_times_d(w, t1, d1, t) * occ.d0 <= rl_left_edge_times_d(
            w,
            occ.t0 as int,
            occ.d0 as int,
            t,
        ) * d1,
        !occ.rl ==> lr_right_edge_times_d(w, occ.t0 as int, occ.d0 as int, t) * d1
            <= rl_left_edge_times_d(w, t1, d1, t) * occ.d0,
{
    if occ.rl {
        lemma_opposite_directions_never_overlap(w, occ.t0 as int, occ.d0 as int, t1, d1, t);
    } else {
        lemma_opposite_directions_never_overlap(w, t1, d1, occ.t0 as int, occ.d0 as int, t);
    }
}

/// Two same-direction scroll comments admitted to one lane never overlap: the
/// later one appears only after the occupant's visibility window has ended,
/// so their windows are disjoint.
pub proof fn lemma_same_direction_disjoint_windows(occ: ScrollLane, t1: int, d1: int, rl1: bool)
    requires
        occ.rl == rl1,
        scroll_free(occ, t1, d1, rl1),
        0 < d1,
    ensures
        occ.t0 + occ.d0 <= t1,
{
}

} // verus!

