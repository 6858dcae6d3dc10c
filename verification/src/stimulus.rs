//! A sinusoidal source at one cell of the domain.

use crate::buffer::plane_with;
use crate::buffer::ArrBuffer;
use crate::buffer::TileView;
use vstd::prelude::*;

verus! {

/// What the wave form of a source is computed from. The sample at `tick` is
/// `amplitude` times the sine of the turn `tick / period`.
#[derive(Debug)]
pub struct WaveInput {
    pub amplitude: i32,
    pub tick: u64,
    pub period: i32,
}

/// A source: where it is, when it is active, and how far its wave has come.
#[derive(Clone, Copy, Debug)]
pub struct Stimulus {
    start_time: i32,
    duration: i32,
    tick: u64,
    row: usize,
    col: usize,
    amplitude: i32,
    period: i32,
}

/// A source, as numbers.
pub struct StimulusView {
    pub start_time: int,
    pub duration: int,
    pub tick: nat,
    pub row: nat,
    pub col: nat,
    pub amplitude: int,
    pub period: int,
}

impl StimulusView {
    /// Whether the source is over at iteration `iter`.
    pub open spec fn retired(self, iter: int) -> bool {
        iter > self.start_time + self.duration
    }

    /// Whether the source emits at iteration `iter`.
    pub open spec fn active(self, iter: int) -> bool {
        self.start_time <= iter <= self.start_time + self.duration
    }

    /// The tick that the sample of iteration `iter` is taken at: the wave
    /// starts over at the first active iteration.
    pub open spec fn tick_at(self, iter: int) -> nat {
        if iter == self.start_time {
            0
        } else {
            self.tick
        }
    }

    /// What the wave form is computed from at iteration `iter`.
    pub open spec fn wave_input(self, iter: int) -> WaveInput {
        WaveInput {
            amplitude: self.amplitude as i32,
            tick: self.tick_at(iter) as u64,
            period: self.period as i32,
        }
    }

    /// The source after iteration `iter`: one tick further where it was
    /// active, unchanged where it was not.
    pub open spec fn after(self, iter: int) -> StimulusView {
        if self.active(iter) {
            StimulusView { tick: self.tick_at(iter) + 1, ..self }
        } else {
            self
        }
    }
}

impl<T> TileView<T> {
    /// The tile with `v` in the `cur` and the `prev` plane at the cell that
    /// holds row `gr`, column `gc` of the domain.
    pub open spec fn with_source(self, gr: int, gc: int, v: T) -> TileView<T> {
        TileView {
            cur: plane_with(self.cur, self.local_row(gr), self.local_col(gc), v),
            prev: plane_with(self.prev, self.local_row(gr), self.local_col(gc), v),
            ..self
        }
    }
}

impl View for Stimulus {
    type V = StimulusView;

    closed spec fn view(&self) -> StimulusView {
        StimulusView {
            start_time: self.start_time as int,
            duration: self.duration as int,
            tick: self.tick as nat,
            row: self.row as nat,
            col: self.col as nat,
            amplitude: self.amplitude as int,
            period: self.period as int,
        }
    }
}

/// Whether `after` is what tile `before` becomes when source `s` is triggered
/// at iteration `iter` with wave form `wave`: where the source is active and
/// lies in the tile, its cell holds a sample of the wave in the `cur` and
/// the `prev` plane; nothing else changes.
pub open spec fn source_written<T, W: Fn(WaveInput) -> T>(
    wave: &W,
    s: StimulusView,
    iter: int,
    before: TileView<T>,
    after: TileView<T>,
) -> bool {
    if s.active(iter) && before.owns(s.row as int, s.col as int) {
        let v = after.cur[before.local_row(s.row as int)][before.local_col(s.col as int)];
        wave.ensures((s.wave_input(iter),), v) && after == before.with_source(
            s.row as int,
            s.col as int,
            v,
        )
    } else {
        after == before
    }
}

impl Stimulus {
    /// A source at row `row`, column `col` of the domain with amplitude 10,
    /// active from iteration `start_time` to `start_time + duration`.
    pub fn new(start_time: i32, duration: i32, row: usize, col: usize, period: i32) -> (s: Self)
        ensures
            s@ == (StimulusView {
                start_time: start_time as int,
                duration: duration as int,
                tick: 0,
                row: row as nat,
                col: col as nat,
                amplitude: 10,
                period: period as int,
            }),
    {
        Stimulus { start_time, duration, tick: 0, row, col, amplitude: 10, period }
    }

    /// First iteration at which the source is active.
    pub fn start_time(&self) -> (t: i32)
        ensures
            t == self@.start_time,
    {
        self.start_time
    }

    /// Number of iterations after the first at which the source is active.
    pub fn duration(&self) -> (d: i32)
        ensures
            d == self@.duration,
    {
        self.duration
    }

    /// How many samples the source has emitted since it began.
    pub fn tick(&self) -> (t: u64)
        ensures
            t == self@.tick,
    {
        self.tick
    }

    /// Row of the domain that the source lies in.
    pub fn row(&self) -> (r: usize)
        ensures
            r == self@.row,
    {
        self.row
    }

    /// Column of the domain that the source lies in.
    pub fn col(&self) -> (c: usize)
        ensures
            c == self@.col,
    {
        self.col
    }

    /// Amplitude of the wave.
    pub fn amplitude(&self) -> (a: i32)
        ensures
            a == self@.amplitude,
    {
        self.amplitude
    }

    /// Number of ticks of one turn of the wave.
    pub fn period(&self) -> (p: i32)
        ensures
            p == self@.period,
    {
        self.period
    }

    /// Triggers the source at iteration `iter` and says whether it is to be
    /// kept.
    ///
    /// A source that is over is dropped. One that has not begun is kept and
    /// does nothing. An active one writes a sample of `wave` into the `cur`
    /// and the `prev` plane at its cell, where that cell lies in the
    /// interior of `buf`, and moves on by one tick wherever it lies.
    pub fn trigger_if_available<T: Copy, W: Fn(WaveInput) -> T>(
        &mut self,
        buf: &mut ArrBuffer<T>,
        iter: i32,
        wave: &W,
    ) -> (alive: bool)
        requires
            forall|i: WaveInput| wave.requires((i,)),
            old(self)@.active(iter as int) ==> old(self)@.tick_at(iter as int) < u64::MAX,
        ensures
            alive == !old(self)@.retired(iter as int),
            final(self)@ == old(self)@.after(iter as int),
            source_written(wave, old(self)@, iter as int, old(buf)@, final(buf)@),
            final(buf)@.wf(),
            final(buf).prev_off() == old(buf).prev_off(),
            final(buf).cur_off() == old(buf).cur_off(),
            final(buf).next_off() == old(buf).next_off(),
    {
        proof {
            use_type_invariant(&*buf);
            buf.lemma_valid_view();
        }
        if iter as i64 > self.start_time as i64 + self.duration as i64 {
            return false;
        }
        if iter < self.start_time {
            return true;
        }
        if iter == self.start_time {
            self.tick = 0;
        }
        if buf.check_bounds(self.row, self.col) {
            let v = wave(WaveInput { amplitude: self.amplitude, tick: self.tick, period: self.period });
            let r = self.row - buf.start_row() + 1;
            let c = self.col - buf.start_col() + 1;
            if let Some(cv) = buf.cur(r, c) {
                *cv = v;
            }
            if let Some(pv) = buf.prev(r, c) {
                *pv = v;
            }
        }
        self.tick = self.tick + 1;
        true
    }
}

/// The sources of `list`, as numbers.
pub open spec fn stimuli_views(list: Seq<Stimulus>) -> Seq<StimulusView> {
    Seq::new(list.len(), |i: int| list[i]@)
}

/// The sources of `list` after iteration `iter`, in their order: those that
/// are over are gone, the others are as `after` says.
pub open spec fn stimuli_after(list: Seq<StimulusView>, iter: int) -> Seq<StimulusView>
    decreases list.len(),
{
    if list.len() == 0 {
        seq![]
    } else if list.last().retired(iter) {
        stimuli_after(list.drop_last(), iter)
    } else {
        stimuli_after(list.drop_last(), iter).push(list.last().after(iter))
    }
}

/// Whether `states` are the states that a tile goes through when the sources
/// of `list` are triggered one after another at iteration `iter`: one state
/// before each source and one after the last.
pub open spec fn sources_written<T, W: Fn(WaveInput) -> T>(
    wave: &W,
    list: Seq<StimulusView>,
    iter: int,
    states: Seq<TileView<T>>,
) -> bool {
    &&& states.len() == list.len() + 1
    &&& forall|i: int|
        0 <= i < list.len() ==> source_written(
            wave,
            #[trigger] list[i],
            iter,
            states[i],
            states[i + 1],
        )
}

/// Triggers every source of `list` at iteration `iter`, in order, and drops
/// from the list those that are over. A later source at the same cell
/// overwrites what an earlier one wrote.
pub fn trigger_stimuli<T: Copy, W: Fn(WaveInput) -> T>(
    list: &mut Vec<Stimulus>,
    buf: &mut ArrBuffer<T>,
    iter: i32,
    wave: &W,
)
    requires
        forall|i: WaveInput| wave.requires((i,)),
        forall|i: int|
            0 <= i < old(list)@.len() && (#[trigger] old(list)@[i])@.active(iter as int)
                ==> old(list)@[i]@.tick_at(iter as int) < u64::MAX,
    ensures
        stimuli_views(final(list)@) == stimuli_after(stimuli_views(old(list)@), iter as int),
        exists|states: Seq<TileView<T>>|
            {
                &&& #[trigger] sources_written(wave, stimuli_views(old(list)@), iter as int, states)
                &&& states[0] == old(buf)@
                &&& states.last() == final(buf)@
            },
        final(buf)@.wf(),
        final(buf).prev_off() == old(buf).prev_off(),
        final(buf).cur_off() == old(buf).cur_off(),
        final(buf).next_off() == old(buf).next_off(),
{
    proof {
        use_type_invariant(&*buf);
        buf.lemma_valid_view();
    }
    let count = list.len();
    let mut kept: Vec<Stimulus> = Vec::new();
    let ghost all = stimuli_views(list@);
    let ghost mut states: Seq<TileView<T>> = seq![buf@];
    let mut i: usize = 0;
    while i < count
        invariant
            i <= count == list@.len(),
            *list == *old(list),
            all == stimuli_views(list@),
            forall|w: WaveInput| wave.requires((w,)),
            forall|j: int|
                0 <= j < list@.len() && (#[trigger] list@[j])@.active(iter as int)
                    ==> list@[j]@.tick_at(iter as int) < u64::MAX,
            stimuli_views(kept@) == stimuli_after(all.take(i as int), iter as int),
            sources_written(wave, all.take(i as int), iter as int, states),
            states[0] == old(buf)@,
            states.last() == buf@,
            buf@.wf(),
            buf.prev_off() == old(buf).prev_off(),
            buf.cur_off() == old(buf).cur_off(),
            buf.next_off() == old(buf).next_off(),
        decreases count - i,
    {
        let mut s = list[i];
        let ghost before = states;
        let alive = s.trigger_if_available(buf, iter, wave);
        proof {
            states = states.push(buf@);
            let done = all.take(i as int);
            let now = all.take(i + 1);
            assert(now.drop_last() == done);
            assert(now.last() == list@[i as int]@);
            assert forall|j: int| 0 <= j < now.len() implies source_written(
                wave,
                #[trigger] now[j],
                iter as int,
                states[j],
                states[j + 1],
            ) by {
                if j < i {
                    assert(now[j] == done[j]);
                    assert(states[j] == before[j]);
                    assert(states[j + 1] == before[j + 1]);
                }
            }
        }
        if alive {
            kept.push(s);
            proof {
                assert(stimuli_views(kept@) =~= stimuli_after(all.take(i as int), iter as int).push(
                    s@,
                ));
            }
        }
        i = i + 1;
    }
    proof {
        assert(all.take(count as int) == all);
    }
    *list = kept;
}

/// Whether the cell in row `r`, column `c` of tile `v` is the cell of a
/// source of `list` that is active at iteration `iter`.
pub open spec fn is_source_cell<T>(
    v: TileView<T>,
    list: Seq<StimulusView>,
    iter: int,
    r: int,
    c: int,
) -> bool {
    exists|i: int|
        0 <= i < list.len() && (#[trigger] list[i]).active(iter) && v.owns(
            list[i].row as int,
            list[i].col as int,
        ) && v.local_row(list[i].row as int) == r && v.local_col(list[i].col as int) == c
}

/// Sources write their own cell only: while the sources of `list` are
/// triggered, a cell that is the cell of no active source keeps its value in
/// the `cur` and the `prev` plane, and the `next` plane and the coefficients
/// are not touched at all.
pub proof fn lemma_sources_keep_other_cells<T, W: Fn(WaveInput) -> T>(
    wave: &W,
    list: Seq<StimulusView>,
    iter: int,
    states: Seq<TileView<T>>,
    r: int,
    c: int,
)
    requires
        states[0].wf(),
        sources_written(wave, list, iter, states),
        states[0].in_grid(r, c),
        !is_source_cell(states[0], list, iter, r, c),
    ensures
        states.last() == (TileView { cur: states.last().cur, prev: states.last().prev, ..states[0] }),
        states.last().wf(),
        states.last().cur[r][c] == states[0].cur[r][c],
        states.last().prev[r][c] == states[0].prev[r][c],
    decreases list.len(),
{
    if list.len() > 0 {
        let rest = list.drop_last();
        let before = states.drop_last();
        assert forall|i: int| 0 <= i < rest.len() implies source_written(
            wave,
            #[trigger] rest[i],
            iter,
            before[i],
            before[i + 1],
        ) by {
            assert(rest[i] == list[i]);
        }
        assert(!is_source_cell(before[0], rest, iter, r, c)) by {
            if is_source_cell(before[0], rest, iter, r, c) {
                let i = choose|i: int|
                    0 <= i < rest.len() && (#[trigger] rest[i]).active(iter) && before[0].owns(
                        rest[i].row as int,
                        rest[i].col as int,
                    ) && before[0].local_row(rest[i].row as int) == r && before[0].local_col(
                        rest[i].col as int,
                    ) == c;
                assert(rest[i] == list[i]);
            }
        }
        lemma_sources_keep_other_cells(wave, rest, iter, before, r, c);
        let k = list.len() - 1;
        assert(before.last() == states[k]);
        assert(states.last() == states[k + 1]);
        assert(source_written(wave, list[k], iter, states[k], states[k + 1]));
    }
}

/// Before the first step the field is at rest but for the sources. Let a
/// tile have `zero` in every cell of the `cur` and the `prev` plane, as a
/// new tile has, and let no source begin before iteration 0. After the
/// sources were triggered at iteration 0, every cell is still `zero` in both
/// planes unless it is the cell of a source that begins at iteration 0.
pub proof fn lemma_zero_initial_state<T, W: Fn(WaveInput) -> T>(
    wave: &W,
    list: Seq<StimulusView>,
    states: Seq<TileView<T>>,
    r: int,
    c: int,
)
    requires
        states[0].wf(),
        forall|i: int, j: int|
            states[0].in_grid(i, j) ==> #[trigger] states[0].cur[i][j] == states[0].zero
                && states[0].prev[i][j] == states[0].zero,
        forall|i: int| 0 <= i < list.len() ==> (#[trigger] list[i]).start_time >= 0,
        sources_written(wave, list, 0, states),
        states[0].in_grid(r, c),
        forall|i: int|
            0 <= i < list.len() && (#[trigger] list[i]).start_time == 0 && states[0].owns(
                list[i].row as int,
                list[i].col as int,
            ) ==> !(states[0].local_row(list[i].row as int) == r && states[0].local_col(
                list[i].col as int,
            ) == c),
    ensures
        states.last().cur[r][c] == states[0].zero,
        states.last().prev[r][c] == states[0].zero,
{
    lemma_sources_keep_other_cells(wave, list, 0, states, r, c);
}

} // verus!
