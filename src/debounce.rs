//! Per-switch debouncing of raw matrix snapshots into press and release events.
use crate::matrix::{cell_of, col_of, is_snapshot, row_of, valid_coord, NUM_COLS, NUM_KEYS};
use vstd::prelude::*;

verus! {

/// Consecutive disagreeing samples needed before a switch changes state.
pub const DEBOUNCE_THRESHOLD: u8 = 5;

/// Direction of a debounced switch transition.
#[derive(Clone, Copy, Debug, PartialEq, Eq, Structural)]
pub enum Transition {
    Press,
    Release,
}

/// A debounced transition of the switch at `(row, col)`.
#[derive(Clone, Copy, Debug, PartialEq, Eq, Structural)]
pub struct KeyEvent {
    pub row: usize,
    pub col: usize,
    pub transition: Transition,
}

impl KeyEvent {
    /// Whether the event names a switch of the matrix.
    pub open spec fn valid(self) -> bool {
        valid_coord(self.row as int, self.col as int)
    }

    /// Position of the event's switch in a snapshot.
    pub open spec fn cell(self) -> int {
        cell_of(self.row as int, self.col as int)
    }
}

/// The event that a switch at `cell` emits when its accepted state becomes `closed`.
pub open spec fn event_at(cell: int, closed: bool) -> KeyEvent {
    KeyEvent {
        row: row_of(cell) as usize,
        col: col_of(cell) as usize,
        transition: if closed {
            Transition::Press
        } else {
            Transition::Release
        },
    }
}

/// Mathematical state of the debouncer.
pub struct DebounceView {
    /// The accepted (debounced) state of each switch, `true` when closed.
    pub accepted: Seq<bool>,
    /// For each switch, how many consecutive samples disagreed with `accepted`.
    pub counters: Seq<nat>,
    /// Samples needed to accept a change.
    pub threshold: nat,
}

impl DebounceView {
    pub open spec fn wf(self) -> bool {
        &&& self.accepted.len() == NUM_KEYS
        &&& self.counters.len() == NUM_KEYS
        &&& 1 <= self.threshold <= 255
        &&& forall|i: int| 0 <= i < NUM_KEYS ==> #[trigger] self.counters[i] < self.threshold
    }

    /// Whether the sample `raw` of switch `i` completes a run of disagreement.
    pub open spec fn flips(self, raw: Seq<bool>, i: int) -> bool {
        raw[i] != self.accepted[i] && self.counters[i] + 1 >= self.threshold
    }

    /// Accepted state of switch `i` after the sample `raw`.
    pub open spec fn next_accepted(self, raw: Seq<bool>, i: int) -> bool {
        if self.flips(raw, i) {
            raw[i]
        } else {
            self.accepted[i]
        }
    }

    /// Counter of switch `i` after the sample `raw`: reset on agreement or on a
    /// flip, one more otherwise.
    pub open spec fn next_counter(self, raw: Seq<bool>, i: int) -> nat {
        if raw[i] == self.accepted[i] || self.flips(raw, i) {
            0
        } else {
            self.counters[i] + 1
        }
    }

    /// State after one tick that sampled `raw`.
    pub open spec fn step(self, raw: Seq<bool>) -> DebounceView {
        DebounceView {
            accepted: Seq::new(NUM_KEYS as nat, |i: int| self.next_accepted(raw, i)),
            counters: Seq::new(NUM_KEYS as nat, |i: int| self.next_counter(raw, i)),
            threshold: self.threshold,
        }
    }

    /// Events emitted by the first `n` switches, in row-major order, for the sample `raw`.
    pub open spec fn events_upto(self, raw: Seq<bool>, n: nat) -> Seq<KeyEvent>
        decreases n,
    {
        if n == 0 {
            Seq::empty()
        } else {
            let prev = self.events_upto(raw, (n - 1) as nat);
            if self.flips(raw, n - 1) {
                prev.push(event_at(n - 1, raw[n - 1]))
            } else {
                prev
            }
        }
    }

    /// Events emitted for the sample `raw`.
    pub open spec fn events(self, raw: Seq<bool>) -> Seq<KeyEvent> {
        self.events_upto(raw, NUM_KEYS as nat)
    }

    /// State and emitted events after the samples `raws`, one per tick, in order.
    pub open spec fn run(self, raws: Seq<Seq<bool>>) -> (DebounceView, Seq<KeyEvent>)
        decreases raws.len(),
    {
        if raws.len() == 0 {
            (self, Seq::empty())
        } else {
            let (mid, evs) = self.run(raws.drop_last());
            (mid.step(raws.last()), evs + mid.events(raws.last()))
        }
    }
}

/// The event emitted for `cell` names that cell again.
pub proof fn lemma_event_at_cell(cell: int, closed: bool)
    requires
        0 <= cell < NUM_KEYS,
    ensures
        event_at(cell, closed).valid(),
        event_at(cell, closed).cell() == cell,
        (event_at(cell, closed).transition == Transition::Press) == closed,
{
    crate::matrix::lemma_cell_coords(cell);
}

/// What the first `n` switches emit: one event for each switch that flips, in
/// increasing position, each naming the new accepted state.
pub proof fn lemma_events_upto(v: DebounceView, raw: Seq<bool>, n: nat)
    requires
        v.wf(),
        is_snapshot(raw),
        n <= NUM_KEYS,
    ensures
        forall|k: int|
            0 <= k < v.events_upto(raw, n).len() ==> {
                let e = #[trigger] v.events_upto(raw, n)[k];
                &&& 0 <= e.cell() < n
                &&& e.valid()
                &&& v.flips(raw, e.cell())
                &&& e == event_at(e.cell(), raw[e.cell()])
            },
        forall|k1: int, k2: int|
            0 <= k1 < k2 < v.events_upto(raw, n).len() ==> v.events_upto(raw, n)[k1].cell()
                < v.events_upto(raw, n)[k2].cell(),
        forall|i: int|
            0 <= i < n && #[trigger] v.flips(raw, i) ==> exists|k: int|
                0 <= k < v.events_upto(raw, n).len() && v.events_upto(raw, n)[k].cell() == i,
    decreases n,
{
    if n > 0 {
        lemma_events_upto(v, raw, (n - 1) as nat);
        lemma_event_at_cell(n - 1, raw[n - 1]);
        let prev = v.events_upto(raw, (n - 1) as nat);
        if v.flips(raw, n - 1) {
            let cur = v.events_upto(raw, n);
            assert(cur[prev.len() as int].cell() == n - 1);
            assert forall|i: int| 0 <= i < n && #[trigger] v.flips(raw, i) implies exists|k: int|
                0 <= k < cur.len() && cur[k].cell() == i by {
                if i < n - 1 {
                    let k = choose|k: int| 0 <= k < prev.len() && prev[k].cell() == i;
                    assert(cur[k] == prev[k]);
                } else {
                    assert(cur[prev.len() as int].cell() == i);
                }
            }
        }
    }
}

/// Each accepted state changes only together with an event, so the events of
/// a switch alternate: a press is emitted only for a switch accepted as open
/// and leaves it closed, a release only for one accepted as closed and leaves
/// it open, and at most one event per switch comes from one sample.
pub proof fn lemma_events_alternate(v: DebounceView, raw: Seq<bool>)
    requires
        v.wf(),
        is_snapshot(raw),
    ensures
        forall|k: int|
            0 <= k < v.events(raw).len() ==> {
                let e = #[trigger] v.events(raw)[k];
                &&& e.valid()
                &&& (e.transition == Transition::Press) == !v.accepted[e.cell()]
                &&& v.step(raw).accepted[e.cell()] == (e.transition == Transition::Press)
            },
        forall|k1: int, k2: int|
            0 <= k1 < k2 < v.events(raw).len() ==> v.events(raw)[k1].cell() != v.events(
                raw,
            )[k2].cell(),
        forall|i: int|
            0 <= i < NUM_KEYS ==> (v.step(raw).accepted[i] != v.accepted[i] <==> exists|k: int|
                0 <= k < v.events(raw).len() && #[trigger] v.events(raw)[k].cell() == i),
{
    lemma_events_upto(v, raw, NUM_KEYS as nat);
    let evs = v.events(raw);
    assert forall|k: int| 0 <= k < evs.len() implies {
        let e = #[trigger] evs[k];
        &&& e.valid()
        &&& (e.transition == Transition::Press) == !v.accepted[e.cell()]
        &&& v.step(raw).accepted[e.cell()] == (e.transition == Transition::Press)
    } by {
        let e = evs[k];
        lemma_event_at_cell(e.cell(), raw[e.cell()]);
    }
    assert forall|i: int| 0 <= i < NUM_KEYS implies (v.step(raw).accepted[i] != v.accepted[i]
        <==> exists|k: int| 0 <= k < evs.len() && #[trigger] evs[k].cell() == i) by {
        if v.flips(raw, i) {
        } else {
            if exists|k: int| 0 <= k < evs.len() && #[trigger] evs[k].cell() == i {
                let k = choose|k: int| 0 <= k < evs.len() && #[trigger] evs[k].cell() == i;
                assert(v.flips(raw, evs[k].cell()));
            }
        }
    }
}

/// A step keeps the state well formed.
pub proof fn lemma_step_wf(v: DebounceView, raw: Seq<bool>)
    requires
        v.wf(),
        is_snapshot(raw),
    ensures
        v.step(raw).wf(),
{
    let n = v.step(raw);
    assert forall|i: int| 0 <= i < NUM_KEYS implies #[trigger] n.counters[i] < n.threshold by {
        assert(v.counters[i] < v.threshold);
    }
}

/// No switch flips, so no event comes from the first `n` switches.
proof fn lemma_no_flip_no_event(v: DebounceView, raw: Seq<bool>, n: nat)
    requires
        forall|i: int| 0 <= i < n ==> !#[trigger] v.flips(raw, i),
    ensures
        v.events_upto(raw, n) == Seq::<KeyEvent>::empty(),
    decreases n,
{
    if n > 0 {
        lemma_no_flip_no_event(v, raw, (n - 1) as nat);
    }
}

/// Bounce rejection: a disagreement that lasts fewer ticks than the threshold
/// emits nothing and leaves the accepted state alone. From a settled state (all
/// counters zero) this covers every run of fewer than `threshold` samples.
pub proof fn lemma_bounce_rejected(v: DebounceView, raws: Seq<Seq<bool>>)
    requires
        v.wf(),
        forall|j: int| 0 <= j < raws.len() ==> is_snapshot(#[trigger] raws[j]),
        forall|i: int| 0 <= i < NUM_KEYS ==> #[trigger] v.counters[i] + raws.len() < v.threshold,
    ensures
        v.run(raws).1 == Seq::<KeyEvent>::empty(),
        v.run(raws).0.accepted == v.accepted,
        v.run(raws).0.threshold == v.threshold,
        v.run(raws).0.wf(),
        forall|i: int|
            0 <= i < NUM_KEYS ==> #[trigger] v.run(raws).0.counters[i] <= v.counters[i]
                + raws.len(),
    decreases raws.len(),
{
    if raws.len() > 0 {
        let front = raws.drop_last();
        assert forall|i: int| 0 <= i < NUM_KEYS implies #[trigger] v.counters[i] + front.len()
            < v.threshold by {
            assert(v.counters[i] + raws.len() < v.threshold);
        }
        assert forall|j: int| 0 <= j < front.len() implies is_snapshot(#[trigger] front[j]) by {
            assert(front[j] == raws[j]);
        }
        lemma_bounce_rejected(v, front);
        let mid = v.run(front).0;
        let raw = raws.last();
        assert(is_snapshot(raws[raws.len() - 1]));
        assert forall|i: int| 0 <= i < NUM_KEYS implies !#[trigger] mid.flips(raw, i) by {
            assert(mid.counters[i] <= v.counters[i] + front.len());
            assert(v.counters[i] + raws.len() < v.threshold);
        }
        lemma_no_flip_no_event(mid, raw, NUM_KEYS as nat);
        lemma_step_wf(mid, raw);
        assert(mid.step(raw).accepted =~= v.accepted);
        assert forall|i: int| 0 <= i < NUM_KEYS implies #[trigger] mid.step(raw).counters[i]
            <= v.counters[i] + raws.len() by {
            assert(mid.counters[i] <= v.counters[i] + front.len());
        }
        assert(v.run(raws).1 =~= Seq::<KeyEvent>::empty());
    }
}

/// The events of `evs` that name the switch at `cell`, in order.
pub open spec fn at_cell(evs: Seq<KeyEvent>, cell: int) -> Seq<KeyEvent> {
    evs.filter(|e: KeyEvent| e.cell() == cell)
}

/// Whether `ts` alternates press and release, beginning with a press when the
/// switch started open and with a release when it started closed.
pub open spec fn alternates_from(ts: Seq<KeyEvent>, start_closed: bool) -> bool {
    forall|k: int|
        0 <= k < ts.len() ==> ((#[trigger] ts[k]).transition == Transition::Press) == ((k % 2
            == 0) != start_closed)
}

/// The events that the first `n` switches emit for `cell`: one if it flips, else none.
proof fn lemma_at_cell_upto(v: DebounceView, raw: Seq<bool>, cell: int, n: nat)
    requires
        0 <= cell < NUM_KEYS,
        n <= NUM_KEYS,
    ensures
        at_cell(v.events_upto(raw, n), cell) == if cell < n && v.flips(raw, cell) {
            seq![event_at(cell, raw[cell])]
        } else {
            Seq::<KeyEvent>::empty()
        },
    decreases n,
{
    reveal(Seq::filter);
    if n > 0 {
        lemma_at_cell_upto(v, raw, cell, (n - 1) as nat);
        let prev = v.events_upto(raw, (n - 1) as nat);
        let pred = |e: KeyEvent| e.cell() == cell;
        if v.flips(raw, n - 1) {
            let x = event_at(n - 1, raw[n - 1]);
            lemma_event_at_cell(n - 1, raw[n - 1]);
            prev.lemma_filter_push(x, pred);
            if cell == n - 1 {
                assert(at_cell(prev, cell) =~= Seq::<KeyEvent>::empty());
                assert(at_cell(prev.push(x), cell) =~= seq![x]);
            }
        }
    }
}

/// Over any run of samples, the events of one switch strictly alternate:
/// never two presses without a release between them, nor two releases without
/// a press; and the switch ends accepted closed exactly when it started closed
/// and saw an even number of events, or started open and saw an odd number.
pub proof fn lemma_run_alternates(v: DebounceView, raws: Seq<Seq<bool>>, cell: int)
    requires
        v.wf(),
        forall|j: int| 0 <= j < raws.len() ==> is_snapshot(#[trigger] raws[j]),
        0 <= cell < NUM_KEYS,
    ensures
        alternates_from(at_cell(v.run(raws).1, cell), v.accepted[cell]),
        v.run(raws).0.accepted[cell] == (v.accepted[cell] != (at_cell(v.run(raws).1, cell).len()
            % 2 == 1)),
        v.run(raws).0.wf(),
        v.run(raws).0.threshold == v.threshold,
    decreases raws.len(),
{
    if raws.len() > 0 {
        let front = raws.drop_last();
        assert forall|j: int| 0 <= j < front.len() implies is_snapshot(#[trigger] front[j]) by {
            assert(front[j] == raws[j]);
        }
        lemma_run_alternates(v, front, cell);
        let (mid, evs0) = v.run(front);
        let raw = raws.last();
        assert(is_snapshot(raws[raws.len() - 1]));
        lemma_step_wf(mid, raw);
        lemma_at_cell_upto(mid, raw, cell, NUM_KEYS as nat);
        lemma_event_at_cell(cell, raw[cell]);
        let e1 = mid.events(raw);
        let pred = |e: KeyEvent| e.cell() == cell;
        Seq::filter_distributes_over_add(evs0, e1, pred);
        let ts0 = at_cell(evs0, cell);
        let ts = at_cell(evs0 + e1, cell);
        assert(ts == ts0 + at_cell(e1, cell));
        if mid.flips(raw, cell) {
            assert forall|k: int| 0 <= k < ts.len() implies ((#[trigger] ts[k]).transition
                == Transition::Press) == ((k % 2 == 0) != v.accepted[cell]) by {
                if k < ts0.len() {
                    assert(ts[k] == ts0[k]);
                } else {
                    assert(ts[k] == event_at(cell, raw[cell]));
                }
            }
        } else {
            assert(ts =~= ts0);
        }
    }
}

/// Filters raw switch samples: a switch changes its accepted state only after
/// `threshold` consecutive samples disagree with it.
pub struct Debouncer {
    accepted: [bool; NUM_KEYS],
    counters: [u8; NUM_KEYS],
    threshold: u8,
}

impl View for Debouncer {
    type V = DebounceView;

    closed spec fn view(&self) -> DebounceView {
        DebounceView {
            accepted: self.accepted@,
            counters: self.counters@.map_values(|c: u8| c as nat),
            threshold: self.threshold as nat,
        }
    }
}

impl Debouncer {
    pub open spec fn wf(&self) -> bool {
        self@.wf()
    }

    /// A debouncer whose accepted state is `initial`, with no disagreement pending.
    pub fn new(initial: &[bool; NUM_KEYS], threshold: u8) -> (r: Debouncer)
        requires
            threshold >= 1,
        ensures
            r.wf(),
            r@.accepted == initial@,
            r@.counters == Seq::new(NUM_KEYS as nat, |i: int| 0nat),
            r@.threshold == threshold,
    {
        let counters: [u8; NUM_KEYS] = [0u8; NUM_KEYS];
        let r = Debouncer { accepted: *initial, counters, threshold };
        assert(r@.counters =~= Seq::new(NUM_KEYS as nat, |i: int| 0nat));
        r
    }

    /// The accepted state of every switch.
    pub fn accepted(&self) -> (r: &[bool; NUM_KEYS])
        ensures
            r@ == self@.accepted,
    {
        &self.accepted
    }

    /// Takes one raw sample and returns the events it completes, in row-major order.
    pub fn events(&mut self, raw: &[bool; NUM_KEYS]) -> (r: Vec<KeyEvent>)
        requires
            old(self).wf(),
        ensures
            final(self).wf(),
            final(self)@ == old(self)@.step(raw@),
            r@ == old(self)@.events(raw@),
    {
        let ghost v0 = self@;
        let mut out: Vec<KeyEvent> = Vec::new();
        let mut i: usize = 0;
        while i < NUM_KEYS
            invariant
                i <= NUM_KEYS,
                v0.wf(),
                raw@.len() == NUM_KEYS,
                self.accepted@.len() == NUM_KEYS,
                self.counters@.len() == NUM_KEYS,
                self.threshold as nat == v0.threshold,
                forall|j: int|
                    0 <= j < i ==> self.accepted@[j] == v0.next_accepted(raw@, j)
                        && self.counters@[j] as nat == v0.next_counter(raw@, j),
                forall|j: int|
                    i <= j < NUM_KEYS ==> self.accepted@[j] == v0.accepted[j]
                        && self.counters@[j] as nat == v0.counters[j],
                out@ == v0.events_upto(raw@, i as nat),
            decreases NUM_KEYS - i,
        {
            let sample = raw[i];
            assert(v0.counters[i as int] < v0.threshold);
            if sample == self.accepted[i] {
                self.counters[i] = 0;
            } else if self.counters[i] + 1 >= self.threshold {
                self.accepted[i] = sample;
                self.counters[i] = 0;
                proof {
                    crate::matrix::lemma_cell_coords(i as int);
                }
                let ev = KeyEvent {
                    row: i / NUM_COLS,
                    col: i % NUM_COLS,
                    transition: if sample {
                        Transition::Press
                    } else {
                        Transition::Release
                    },
                };
                out.push(ev);
            } else {
                self.counters[i] = self.counters[i] + 1;
            }
            i = i + 1;
        }
        assert(self@.accepted =~= v0.step(raw@).accepted);
        assert(self@.counters =~= v0.step(raw@).counters);
        out
    }
}

} // verus!
