//! What a worker does with its tile: setting it up from the scene, and one
//! step of the field.

use crate::buffer::fresh_tile;
use crate::buffer::tile_error;
use crate::buffer::ArrBuffer;
use crate::buffer::GeometryError;
use crate::buffer::TileView;
use crate::controlblock::ControlBlock;
use crate::controlblock::SceneItem;
use crate::geometry::GlobalEdges;
use crate::obstacle::clear_alpha_region;
use crate::obstacle::lemma_clear_two_valued;
use crate::stencil::compute_edge_u;
use crate::stencil::compute_u;
use crate::stencil::AbsorbInput;
use crate::stencil::StencilInput;
use crate::stimulus::stimuli_views;
use crate::stimulus::Stimulus;
use crate::stimulus::StimulusView;
use vstd::prelude::*;

verus! {

/// Tile `v` with the coefficient cleared in every obstacle of `scene`.
pub open spec fn scene_tile<T>(v: TileView<T>, scene: Seq<SceneItem>) -> TileView<T>
    decreases scene.len(),
{
    if scene.len() == 0 {
        v
    } else {
        let before = scene_tile(v, scene.drop_last());
        match scene.last() {
            SceneItem::RectObstacle { row, col, width, height } => before.cleared(
                row as int,
                col as int,
                width as int,
                height as int,
            ),
            SceneItem::Sine { .. } => before,
        }
    }
}

/// The sources of `scene`, in their order, each at tick 0 with amplitude 10.
pub open spec fn scene_stimuli(scene: Seq<SceneItem>) -> Seq<StimulusView>
    decreases scene.len(),
{
    if scene.len() == 0 {
        seq![]
    } else {
        let before = scene_stimuli(scene.drop_last());
        match scene.last() {
            SceneItem::Sine { start, duration, row, col, period } => before.push(
                StimulusView {
                    start_time: start as int,
                    duration: duration as int,
                    tick: 0,
                    row: row as nat,
                    col: col as nat,
                    amplitude: 10,
                    period: period as int,
                },
            ),
            SceneItem::RectObstacle { .. } => before,
        }
    }
}

/// Clearing obstacles keeps a tile well formed and its coefficients
/// two-valued.
pub proof fn lemma_scene_tile_wf<T>(v: TileView<T>, scene: Seq<SceneItem>)
    requires
        v.wf(),
        v.alpha_two_valued(),
    ensures
        scene_tile(v, scene).wf(),
        scene_tile(v, scene).alpha_two_valued(),
        scene_tile(v, scene) == (TileView { alpha: scene_tile(v, scene).alpha, ..v }),
    decreases scene.len(),
{
    if scene.len() > 0 {
        lemma_scene_tile_wf(v, scene.drop_last());
        let before = scene_tile(v, scene.drop_last());
        match scene.last() {
            SceneItem::RectObstacle { row, col, width, height } => {
                lemma_clear_two_valued(before, row as int, col as int, width as int, height as int);
            },
            SceneItem::Sine { .. } => {},
        }
    }
}

/// Sets up tile `t_id` of the run that `cb` describes: lays the tile out,
/// clears the coefficient in every obstacle of the scene, and makes a source
/// for every sine of the scene. The field is `zero` everywhere; a coefficient
/// is `alpha_init`, or `zero` in an obstacle.
pub fn setup_tile<T: Copy>(cb: &ControlBlock, t_id: i32, zero: T, alpha_init: T) -> (res: Result<
    (ArrBuffer<T>, Vec<Stimulus>),
    GeometryError,
>)
    ensures
        match res {
            Ok((buf, stimuli)) => {
                &&& tile_error(cb.m as nat, cb.n as nat, cb.px as nat, cb.py as nat, t_id as int)
                    is None
                &&& buf@ == scene_tile(
                    fresh_tile(
                        cb.m as nat,
                        cb.n as nat,
                        cb.px as nat,
                        cb.py as nat,
                        t_id as nat,
                        zero,
                        alpha_init,
                    ),
                    cb.scene@,
                )
                &&& buf@.wf()
                &&& buf@.alpha_two_valued()
                &&& stimuli_views(stimuli@) == scene_stimuli(cb.scene@)
                &&& buf.prev_off() == 0
                &&& buf.cur_off() == buf@.plane_len()
                &&& buf.next_off() == 2 * buf@.plane_len()
            },
            Err(e) => tile_error(cb.m as nat, cb.n as nat, cb.px as nat, cb.py as nat, t_id as int)
                == Some(e),
        },
{
    let mut buf = match ArrBuffer::new(cb, t_id, zero, alpha_init) {
        Ok(buf) => buf,
        Err(e) => {
            return Err(e);
        },
    };
    let ghost fresh = buf@;
    let mut stimuli: Vec<Stimulus> = Vec::new();
    let count = cb.scene.len();
    let mut i: usize = 0;
    while i < count
        invariant
            i <= count == cb.scene@.len(),
            fresh.wf(),
            fresh.alpha_two_valued(),
            buf@ == scene_tile(fresh, cb.scene@.take(i as int)),
            stimuli_views(stimuli@) == scene_stimuli(cb.scene@.take(i as int)),
            buf.prev_off() == 0,
            buf.cur_off() == fresh.plane_len(),
            buf.next_off() == 2 * fresh.plane_len(),
        decreases count - i,
    {
        proof {
            let now = cb.scene@.take(i + 1);
            assert(now.drop_last() == cb.scene@.take(i as int));
            assert(now.last() == cb.scene@[i as int]);
        }
        match cb.scene[i] {
            SceneItem::Sine { start, duration, row, col, period } => {
                stimuli.push(Stimulus::new(start, duration, row, col, period));
                proof {
                    assert(stimuli_views(stimuli@) =~= scene_stimuli(cb.scene@.take(i as int)).push(
                        stimuli@.last()@,
                    ));
                }
            },
            SceneItem::RectObstacle { row, col, width, height } => {
                clear_alpha_region(&mut buf, row, col, width, height);
            },
        }
        i = i + 1;
    }
    proof {
        assert(cb.scene@.take(count as int) == cb.scene@);
        lemma_scene_tile_wf(fresh, cb.scene@);
    }
    Ok((buf, stimuli))
}

/// Writes the `next` plane of one step: the interior first, then the
/// absorbing edges of the domain, which read the interior as just written.
///
/// Every interior cell gets what `kernel` makes of `stencil_input`. Every
/// ghost cell on a side that `edges` names gets what `absorb` makes of
/// `absorb_input`. The other ghost cells and the four corners keep their
/// value, and so do the other planes.
pub fn compute_next<T: Copy, F: Fn(StencilInput<T>) -> T, G: Fn(AbsorbInput<T>) -> T>(
    buf: &mut ArrBuffer<T>,
    edges: GlobalEdges,
    kernel: &F,
    absorb: &G,
)
    requires
        forall|i: StencilInput<T>| kernel.requires((i,)),
        forall|i: AbsorbInput<T>| absorb.requires((i,)),
    ensures
        final(buf)@ == (TileView { next: final(buf)@.next, ..old(buf)@ }),
        final(buf)@.wf(),
        forall|r: int, c: int|
            old(buf)@.in_interior(r, c) ==> kernel.ensures(
                (old(buf)@.stencil_input(r, c),),
                #[trigger] final(buf)@.next[r][c],
            ),
        forall|r: int, c: int|
            old(buf)@.absorbed(edges, r, c) ==> absorb.ensures(
                (old(buf)@.absorb_input(final(buf)@.next, r, c),),
                #[trigger] final(buf)@.next[r][c],
            ),
        forall|r: int, c: int|
            old(buf)@.in_grid(r, c) && !old(buf)@.in_interior(r, c) && !old(buf)@.absorbed(
                edges,
                r,
                c,
            ) ==> #[trigger] final(buf)@.next[r][c] == old(buf)@.next[r][c],
        final(buf).prev_off() == old(buf).prev_off(),
        final(buf).cur_off() == old(buf).cur_off(),
        final(buf).next_off() == old(buf).next_off(),
{
    compute_u(buf, kernel);
    compute_edge_u(buf, edges.top, edges.bottom, edges.left, edges.right, kernel, absorb);
}

/// What a worker does next. Within an iteration the order is fixed: sources,
/// exchange, the step, the copy into the frame, the barrier after which the
/// collector reads the frame, the barrier after which it has read it, and
/// the rotation of the planes.
#[derive(Clone, Copy, Debug, PartialEq, Eq, Structural)]
pub enum WorkerPhase {
    /// Trigger the sources.
    Stimuli,
    /// Exchange border cells with the neighbours.
    Exchange,
    /// Write the `next` plane.
    Compute,
    /// Copy the interior of the `cur` plane into the frame.
    Publish,
    /// Wait until every tile has copied its interior.
    PublishBarrier,
    /// Wait until the collector has read the frame.
    RotateBarrier,
    /// Rotate the planes.
    Advance,
    /// The run is over.
    Done,
}

/// What the collector of the frames does next.
#[derive(Clone, Copy, Debug, PartialEq, Eq, Structural)]
pub enum CollectorPhase {
    /// Wait until every tile has copied its interior.
    PublishBarrier,
    /// Write the frame of this iteration.
    WriteFrame,
    /// Let the tiles go on.
    RotateBarrier,
    /// The run is over.
    Done,
}

/// The phase and the iteration that follow phase `phase` of iteration `iter`
/// in a run of `niters` iterations on `tiles` tiles. A single tile has no
/// neighbour and skips the exchange. The iteration counts up when the planes
/// have been rotated.
pub open spec fn worker_after(phase: WorkerPhase, iter: nat, niters: nat, tiles: nat) -> (
    WorkerPhase,
    nat,
) {
    match phase {
        WorkerPhase::Stimuli => if tiles != 1 {
            (WorkerPhase::Exchange, iter)
        } else {
            (WorkerPhase::Compute, iter)
        },
        WorkerPhase::Exchange => (WorkerPhase::Compute, iter),
        WorkerPhase::Compute => (WorkerPhase::Publish, iter),
        WorkerPhase::Publish => (WorkerPhase::PublishBarrier, iter),
        WorkerPhase::PublishBarrier => (WorkerPhase::RotateBarrier, iter),
        WorkerPhase::RotateBarrier => (WorkerPhase::Advance, iter),
        WorkerPhase::Advance => if iter + 1 < niters {
            (WorkerPhase::Stimuli, iter + 1)
        } else {
            (WorkerPhase::Done, iter)
        },
        WorkerPhase::Done => (WorkerPhase::Done, iter),
    }
}

/// The phase and the iteration that follow phase `phase` of iteration `iter`
/// of the collector in a run of `niters` iterations.
pub open spec fn collector_after(phase: CollectorPhase, iter: nat, niters: nat) -> (
    CollectorPhase,
    nat,
) {
    match phase {
        CollectorPhase::PublishBarrier => (CollectorPhase::WriteFrame, iter),
        CollectorPhase::WriteFrame => (CollectorPhase::RotateBarrier, iter),
        CollectorPhase::RotateBarrier => if iter + 1 < niters {
            (CollectorPhase::PublishBarrier, iter + 1)
        } else {
            (CollectorPhase::Done, iter)
        },
        CollectorPhase::Done => (CollectorPhase::Done, iter),
    }
}

/// The phase in which a worker begins a run of `niters` iterations.
pub fn worker_start(niters: usize) -> (phase: WorkerPhase)
    ensures
        phase == if niters > 0 {
            WorkerPhase::Stimuli
        } else {
            WorkerPhase::Done
        },
{
    if niters > 0 {
        WorkerPhase::Stimuli
    } else {
        WorkerPhase::Done
    }
}

/// The phase in which the collector begins a run of `niters` iterations.
pub fn collector_start(niters: usize) -> (phase: CollectorPhase)
    ensures
        phase == if niters > 0 {
            CollectorPhase::PublishBarrier
        } else {
            CollectorPhase::Done
        },
{
    if niters > 0 {
        CollectorPhase::PublishBarrier
    } else {
        CollectorPhase::Done
    }
}

/// What a worker does after phase `phase` of iteration `iter`.
pub fn worker_next(phase: WorkerPhase, iter: usize, niters: usize, tiles: usize) -> (next: (
    WorkerPhase,
    usize,
))
    ensures
        (next.0, next.1 as nat) == worker_after(phase, iter as nat, niters as nat, tiles as nat),
{
    match phase {
        WorkerPhase::Stimuli => if tiles != 1 {
            (WorkerPhase::Exchange, iter)
        } else {
            (WorkerPhase::Compute, iter)
        },
        WorkerPhase::Exchange => (WorkerPhase::Compute, iter),
        WorkerPhase::Compute => (WorkerPhase::Publish, iter),
        WorkerPhase::Publish => (WorkerPhase::PublishBarrier, iter),
        WorkerPhase::PublishBarrier => (WorkerPhase::RotateBarrier, iter),
        WorkerPhase::RotateBarrier => (WorkerPhase::Advance, iter),
        WorkerPhase::Advance => if iter < niters && iter + 1 < niters {
            (WorkerPhase::Stimuli, iter + 1)
        } else {
            (WorkerPhase::Done, iter)
        },
        WorkerPhase::Done => (WorkerPhase::Done, iter),
    }
}

/// What the collector does after phase `phase` of iteration `iter`.
pub fn collector_next(phase: CollectorPhase, iter: usize, niters: usize) -> (next: (
    CollectorPhase,
    usize,
))
    ensures
        (next.0, next.1 as nat) == collector_after(phase, iter as nat, niters as nat),
{
    match phase {
        CollectorPhase::PublishBarrier => (CollectorPhase::WriteFrame, iter),
        CollectorPhase::WriteFrame => (CollectorPhase::RotateBarrier, iter),
        CollectorPhase::RotateBarrier => if iter < niters && iter + 1 < niters {
            (CollectorPhase::PublishBarrier, iter + 1)
        } else {
            (CollectorPhase::Done, iter)
        },
        CollectorPhase::Done => (CollectorPhase::Done, iter),
    }
}

/// The phases of a worker in one iteration, from the sources on.
pub open spec fn worker_phases(tiles: nat) -> Seq<WorkerPhase> {
    if tiles != 1 {
        seq![
            WorkerPhase::Stimuli,
            WorkerPhase::Exchange,
            WorkerPhase::Compute,
            WorkerPhase::Publish,
            WorkerPhase::PublishBarrier,
            WorkerPhase::RotateBarrier,
            WorkerPhase::Advance,
        ]
    } else {
        seq![
            WorkerPhase::Stimuli,
            WorkerPhase::Compute,
            WorkerPhase::Publish,
            WorkerPhase::PublishBarrier,
            WorkerPhase::RotateBarrier,
            WorkerPhase::Advance,
        ]
    }
}

/// A worker goes through the phases of an iteration in their order and
/// without leaving the iteration, and after the last of them it begins the
/// next iteration, or is done after the last iteration. The worker waits at
/// both barriers once in every iteration, as the collector does, so that all
/// of them pass each barrier together.
pub proof fn lemma_worker_iteration(iter: nat, niters: nat, tiles: nat, k: int)
    requires
        iter < niters,
        0 <= k < worker_phases(tiles).len(),
    ensures
        worker_after(worker_phases(tiles)[k], iter, niters, tiles) == if k + 1 < worker_phases(
            tiles,
        ).len() {
            (worker_phases(tiles)[k + 1], iter)
        } else if iter + 1 < niters {
            (WorkerPhase::Stimuli, iter + 1)
        } else {
            (WorkerPhase::Done, iter)
        },
{
}

} // verus!
