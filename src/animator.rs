use vstd::prelude::*;
use vstd::arithmetic::div_mod::lemma_fundamental_div_mod_converse;
use crate::atlas::{frame_name, FrameAtlas, FramePattern};
use crate::surface::{DrawList, DrawOp, FrameRect, ScreenRect};

verus! {

/// What can go wrong around the animation.
#[derive(Clone, Copy, Debug, PartialEq, Eq, Structural)]
pub enum AnimError {
    /// The resolved frame name is not in the atlas.
    FrameNotFound,
    /// The host gave no usable drawing surface.
    SurfaceUnavailable,
    /// The sprite sheet image could not be loaded.
    AssetLoadFailed,
}

/// The animator as a value: whether its timer runs, the frame shown last, and
/// the fixed configuration it started with.
pub struct AnimatorView {
    pub running: bool,
    pub index: nat,
    pub frame_count: nat,
    pub atlas: Map<Seq<char>, FrameRect>,
    pub prefix: Seq<char>,
    pub suffix: Seq<char>,
    pub clear: ScreenRect,
    pub dest_x: int,
    pub dest_y: int,
    pub interval_ms: nat,
}

/// The frame index after `i` in a cycle of `frame_count` frames.
pub open spec fn next_index(i: nat, frame_count: nat) -> nat {
    (i + 1) % frame_count
}

/// The frame index after `k` ticks from `i`.
pub open spec fn index_after(i: nat, frame_count: nat, k: nat) -> nat
    decreases k,
{
    if k == 0 {
        i
    } else {
        next_index(index_after(i, frame_count, (k - 1) as nat), frame_count)
    }
}

/// The name a tick looks up once it has moved to frame index `i`: frame
/// names count from 1.
pub open spec fn name_at(v: AnimatorView, i: nat) -> Seq<char> {
    frame_name(v.prefix, v.suffix, i + 1)
}

/// The state after one tick: a running animator advances its index first,
/// whether or not the frame is then found; a stopped one does nothing.
pub open spec fn step(v: AnimatorView) -> AnimatorView {
    if v.running {
        AnimatorView { index: next_index(v.index, v.frame_count), ..v }
    } else {
        v
    }
}

/// What one tick draws, or the error it signals. A missing frame draws
/// nothing, so the last frame drawn stays on screen.
pub open spec fn step_ops(v: AnimatorView) -> Result<Seq<DrawOp>, AnimError> {
    if !v.running {
        Ok(Seq::empty())
    } else {
        let name = name_at(v, next_index(v.index, v.frame_count));
        if v.atlas.contains_key(name) {
            Ok(
                seq![
                    DrawOp::ClearRect(v.clear),
                    DrawOp::DrawImageRegion {
                        src: v.atlas[name],
                        dst_x: v.dest_x as i64,
                        dst_y: v.dest_y as i64,
                    },
                ],
            )
        } else {
            Err(AnimError::FrameNotFound)
        }
    }
}

/// The state after `k` ticks.
pub open spec fn run(v: AnimatorView, k: nat) -> AnimatorView
    decreases k,
{
    if k == 0 {
        v
    } else {
        step(run(v, (k - 1) as nat))
    }
}

/// Cycles through the frames of a sprite sheet, one frame per timer tick.
/// The host owns the timer: it calls `tick` on every interval and `cancel`
/// when it deregisters the timer.
pub struct SpriteAnimator {
    atlas: FrameAtlas,
    pattern: FramePattern,
    frame_count: usize,
    index: usize,
    running: bool,
    clear: ScreenRect,
    dest_x: i64,
    dest_y: i64,
    interval_ms: u32,
}

impl View for SpriteAnimator {
    type V = AnimatorView;

    closed spec fn view(&self) -> AnimatorView {
        AnimatorView {
            running: self.running,
            index: self.index as nat,
            frame_count: self.frame_count as nat,
            atlas: self.atlas@,
            prefix: self.pattern.prefix@,
            suffix: self.pattern.suffix@,
            clear: self.clear,
            dest_x: self.dest_x as int,
            dest_y: self.dest_y as int,
            interval_ms: self.interval_ms as nat,
        }
    }
}

impl SpriteAnimator {
    /// The atlas is well formed and the index names one of the frames.
    pub closed spec fn wf(&self) -> bool {
        &&& self.atlas.wf()
        &&& self.frame_count >= 1
        &&& self.index < self.frame_count
    }

    /// Starts the animation. Nothing is drawn until the first tick, which
    /// shows frame index 0 (named with frame number 1).
    pub fn start(
        atlas: FrameAtlas,
        pattern: FramePattern,
        frame_count: usize,
        clear: ScreenRect,
        dest_x: i64,
        dest_y: i64,
        interval_ms: u32,
    ) -> (r: SpriteAnimator)
        requires
            atlas.wf(),
            frame_count >= 1,
        ensures
            r.wf(),
            r@.running,
            next_index(r@.index, r@.frame_count) == 0,
            r@.frame_count == frame_count,
            r@.atlas == atlas@,
            r@.prefix == pattern.prefix@,
            r@.suffix == pattern.suffix@,
            r@.clear == clear,
            r@.dest_x == dest_x,
            r@.dest_y == dest_y,
            r@.interval_ms == interval_ms,
    {
        let r = SpriteAnimator {
            atlas,
            pattern,
            frame_count,
            index: frame_count - 1,
            running: true,
            clear,
            dest_x,
            dest_y,
            interval_ms,
        };
        assert(((frame_count - 1 + 1) as int) % (frame_count as int) == 0) by (nonlinear_arith)
            requires frame_count >= 1;
        r
    }

    /// One timer tick: advance the frame index, resolve the frame's name and
    /// look it up, then clear the sprite's region and draw the frame. The
    /// index moves even when the lookup fails; a stopped animator does
    /// nothing.
    pub fn tick(&mut self, surface: &mut DrawList) -> (r: Result<(), AnimError>)
        requires
            old(self).wf(),
        ensures
            final(self).wf(),
            final(self)@ == step(old(self)@),
            match step_ops(old(self)@) {
                Ok(ops) => r is Ok && final(surface)@ == old(surface)@ + ops,
                Err(e) => r == Err::<(), AnimError>(e) && final(surface)@ == old(surface)@,
            },
    {
        if !self.running {
            assert(surface@ =~= old(surface)@ + Seq::<DrawOp>::empty());
            return Ok(());
        }
        self.index = (self.index + 1) % self.frame_count;
        let name = self.pattern.name_for(self.index + 1);
        match self.atlas.get(name.as_str()) {
            Some(rect) => {
                surface.clear_rect(self.clear);
                surface.draw_image_region(rect, self.dest_x, self.dest_y);
                assert(surface@ =~= old(surface)@ + step_ops(old(self)@)->Ok_0);
                Ok(())
            },
            None => Err(AnimError::FrameNotFound),
        }
    }

    /// Stops the animation: no tick after this draws or moves the index.
    pub fn cancel(&mut self)
        requires
            old(self).wf(),
        ensures
            final(self).wf(),
            final(self)@ == (AnimatorView { running: false, ..old(self)@ }),
    {
        self.running = false;
    }

    pub fn is_running(&self) -> (r: bool)
        ensures
            r == self@.running,
    {
        self.running
    }

    /// The frame index shown last (or, before the first tick, the one the
    /// first tick advances from).
    pub fn current_index(&self) -> (r: usize)
        ensures
            r == self@.index,
    {
        self.index
    }

    pub fn frame_count(&self) -> (r: usize)
        ensures
            r == self@.frame_count,
    {
        self.frame_count
    }

    pub fn interval_ms(&self) -> (r: u32)
        ensures
            r == self@.interval_ms,
    {
        self.interval_ms
    }

    /// The name the next tick will look up.
    pub fn next_frame_name(&self) -> (r: String)
        requires
            self.wf(),
        ensures
            r@ == name_at(self@, next_index(self@.index, self@.frame_count)),
    {
        let i = (self.index + 1) % self.frame_count;
        self.pattern.name_for(i + 1)
    }
}

proof fn lemma_mod_below_twice(x: nat, m: nat)
    requires
        m > 0,
        x < 2 * m,
    ensures
        x % m == (if x < m {
            x
        } else {
            (x - m) as nat
        }),
{
    if x < m {
        lemma_fundamental_div_mod_converse(x as int, m as int, 0, x as int);
    } else {
        lemma_fundamental_div_mod_converse(x as int, m as int, 1, x - m);
    }
}

/// Within one lap, `k` ticks from index `i` land on `i + k`, wrapped once.
pub proof fn lemma_index_after_lap(i: nat, frame_count: nat, k: nat)
    requires
        i < frame_count,
        k <= frame_count,
    ensures
        index_after(i, frame_count, k) == (if i + k < frame_count {
            i + k
        } else {
            (i + k - frame_count) as nat
        }),
    decreases k,
{
    if k > 0 {
        lemma_index_after_lap(i, frame_count, (k - 1) as nat);
        let p = index_after(i, frame_count, (k - 1) as nat);
        lemma_mod_below_twice(p + 1, frame_count);
    }
}

/// The frame index stays in `[0, frame_count)` however many ticks pass.
pub proof fn lemma_index_in_range(i: nat, frame_count: nat, k: nat)
    requires
        i < frame_count,
    ensures
        index_after(i, frame_count, k) < frame_count,
    decreases k,
{
    if k > 0 {
        lemma_index_in_range(i, frame_count, (k - 1) as nat);
        let p = index_after(i, frame_count, (k - 1) as nat);
        lemma_mod_below_twice(p + 1, frame_count);
    }
}

/// Some tick among the first `frame_count` from `i` lands on `x`.
pub open spec fn visited_in_lap(i: nat, frame_count: nat, x: nat) -> bool {
    exists|k: nat| k < frame_count && #[trigger] index_after(i, frame_count, k) == x
}

/// Advancing by `(index + 1) mod frame_count` visits every index once before
/// it repeats: the first `frame_count` ticks give pairwise different indices,
/// every index in `[0, frame_count)` is among them, and tick `frame_count`
/// is back where it started.
pub proof fn lemma_index_cycle(i: nat, frame_count: nat)
    requires
        i < frame_count,
    ensures
        forall|j: nat, k: nat|
            j < k < frame_count ==> #[trigger] index_after(i, frame_count, j)
                != #[trigger] index_after(i, frame_count, k),
        forall|x: nat| x < frame_count ==> #[trigger] visited_in_lap(i, frame_count, x),
        index_after(i, frame_count, frame_count) == i,
{
    assert forall|j: nat, k: nat|
        j < k < frame_count implies #[trigger] index_after(i, frame_count, j)
            != #[trigger] index_after(i, frame_count, k) by {
        lemma_index_after_lap(i, frame_count, j);
        lemma_index_after_lap(i, frame_count, k);
    }
    assert forall|x: nat| x < frame_count implies #[trigger] visited_in_lap(i, frame_count, x) by {
        let k: nat = if x >= i {
            (x - i) as nat
        } else {
            (x + frame_count - i) as nat
        };
        lemma_index_after_lap(i, frame_count, k);
        assert(index_after(i, frame_count, k) == x);
    }
    lemma_index_after_lap(i, frame_count, frame_count);
}

/// While the animator runs, `k` ticks move its index `k` steps and change
/// nothing else.
pub proof fn lemma_run_running(v: AnimatorView, k: nat)
    requires
        v.running,
    ensures
        run(v, k) == (AnimatorView { index: index_after(v.index, v.frame_count, k), ..v }),
    decreases k,
{
    if k > 0 {
        lemma_run_running(v, (k - 1) as nat);
    }
}

/// After `frame_count` ticks a running animator is back in the state it
/// started from, so the next tick resolves the same frame name again.
pub proof fn lemma_full_cycle_returns(v: AnimatorView)
    requires
        v.running,
        v.index < v.frame_count,
    ensures
        run(v, v.frame_count) == v,
        step_ops(run(v, v.frame_count)) == step_ops(v),
{
    lemma_run_running(v, v.frame_count);
    lemma_index_cycle(v.index, v.frame_count);
}

/// Once cancelled, no tick fires: any number of ticks leaves the state as it
/// is, and each of them draws nothing and reports no error.
pub proof fn lemma_cancelled_is_inert(v: AnimatorView, k: nat)
    requires
        !v.running,
    ensures
        run(v, k) == v,
        step_ops(run(v, k)) == Ok::<Seq<DrawOp>, AnimError>(Seq::empty()),
    decreases k,
{
    if k > 0 {
        lemma_cancelled_is_inert(v, (k - 1) as nat);
    }
}

/// A lookup miss still advances the index: the failing tick leaves the
/// animator one frame further on and the surface as it was.
pub proof fn lemma_missing_frame_advances(v: AnimatorView)
    requires
        v.running,
        !v.atlas.contains_key(name_at(v, next_index(v.index, v.frame_count))),
    ensures
        step_ops(v) == Err::<Seq<DrawOp>, AnimError>(AnimError::FrameNotFound),
        step(v).index == next_index(v.index, v.frame_count),
{
}

} // verus!
