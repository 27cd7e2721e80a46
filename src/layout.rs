//! The layout engine: resolves debounced events through the layered keymap
//! into the set of keycodes currently held.
use crate::debounce::{KeyEvent, Transition};
use crate::keycode::{is_modifier, is_modifier_spec};
use crate::keymap::{KeyAction, Keymap, NUM_LAYERS};
use crate::matrix::{cell_index, NUM_KEYS};
use crate::report::REPORT_SLOTS;
use vstd::prelude::*;

verus! {

/// A keycode held down, with the switch whose press produced it.
#[derive(Clone, Copy, Debug, PartialEq, Eq, Structural)]
pub struct ActiveKey {
    pub code: u8,
    pub cell: usize,
}

/// Number of entries of `s` whose code is not a modifier.
pub open spec fn non_modifier_count(s: Seq<ActiveKey>) -> nat
    decreases s.len(),
{
    if s.len() == 0 {
        0
    } else {
        non_modifier_count(s.drop_last()) + if is_modifier_spec(s.last().code) {
            0nat
        } else {
            1nat
        }
    }
}

/// `s` without the entries produced by the switch at `cell`, order kept.
pub open spec fn without_cell(s: Seq<ActiveKey>, cell: int) -> Seq<ActiveKey>
    decreases s.len(),
{
    if s.len() == 0 {
        s
    } else {
        let rest = without_cell(s.drop_last(), cell);
        if s.last().cell == cell {
            rest
        } else {
            rest.push(s.last())
        }
    }
}

/// Number of switches whose pinned action holds `layer`.
pub open spec fn hold_count(pinned: Seq<Option<KeyAction>>, layer: usize) -> nat
    decreases pinned.len(),
{
    if pinned.len() == 0 {
        0
    } else {
        hold_count(pinned.drop_last(), layer) + if pinned.last() == Some(
            KeyAction::LayerHold(layer),
        ) {
            1nat
        } else {
            0nat
        }
    }
}

/// Whether the pinned actions justify the held key `k`.
pub open spec fn pinned_for(pinned: Seq<Option<KeyAction>>, k: ActiveKey) -> bool {
    &&& k.cell < NUM_KEYS
    &&& (pinned[k.cell as int] == Some(KeyAction::Code(k.code)) || pinned[k.cell as int] == Some(
        KeyAction::MediaKey(k.code),
    ))
}

/// Mathematical state of the layout engine.
pub struct LayoutView {
    /// The keymap, layer-major.
    pub keymap: Seq<KeyAction>,
    /// For each layer, how many held switches hold it.
    pub holds: Seq<nat>,
    /// For each switch, the action resolved when it was pressed; `None` while it is up.
    pub pinned: Seq<Option<KeyAction>>,
    /// The keycodes held, in press order.
    pub active: Seq<ActiveKey>,
}

impl LayoutView {
    pub open spec fn wf(self) -> bool {
        &&& crate::keymap::valid_table(self.keymap)
        &&& self.holds.len() == NUM_LAYERS
        &&& self.pinned.len() == NUM_KEYS
        &&& forall|l: int|
            0 <= l < NUM_LAYERS ==> #[trigger] self.holds[l] == hold_count(
                self.pinned,
                l as usize,
            )
        &&& forall|c: int|
            0 <= c < NUM_KEYS ==> match #[trigger] self.pinned[c] {
                Some(KeyAction::LayerHold(l)) => l < NUM_LAYERS,
                _ => true,
            }
        &&& forall|k: int|
            0 <= k < self.active.len() ==> pinned_for(self.pinned, #[trigger] self.active[k])
        &&& non_modifier_count(self.active) <= REPORT_SLOTS
    }

    /// Entry of `layer` at switch `cell`.
    pub open spec fn entry(self, layer: int, cell: int) -> KeyAction {
        self.keymap[crate::keymap::entry_index(layer, cell)]
    }

    /// Whether `layer` is active: the base layer always, another while held.
    pub open spec fn layer_active(self, layer: int) -> bool {
        layer == 0 || self.holds[layer] > 0
    }

    /// The layer stack: the active layer ids, the base layer among them.
    pub open spec fn active_layers(self) -> Set<int> {
        Set::new(|l: int| 0 <= l < NUM_LAYERS && self.layer_active(l))
    }

    /// Action of switch `cell` looking down from `layer`: the first active layer
    /// whose entry is not transparent, else the base layer's entry.
    pub open spec fn resolve_from(self, layer: int, cell: int) -> KeyAction
        decreases layer,
    {
        if layer <= 0 {
            self.entry(0, cell)
        } else if self.layer_active(layer) && self.entry(layer, cell) != KeyAction::Transparent {
            self.entry(layer, cell)
        } else {
            self.resolve_from(layer - 1, cell)
        }
    }

    /// Action that a press of switch `cell` resolves to now.
    pub open spec fn resolve(self, cell: int) -> KeyAction {
        self.resolve_from(NUM_LAYERS - 1, cell)
    }

    /// Adds `code`, produced by switch `cell`, unless the report is full:
    /// modifiers always fit, other codes only while a slot is free.
    pub open spec fn add_code(self, code: u8, cell: int) -> Seq<ActiveKey> {
        if is_modifier_spec(code) || non_modifier_count(self.active) < REPORT_SLOTS {
            self.active.push(ActiveKey { code, cell: cell as usize })
        } else {
            self.active
        }
    }

    /// State after switch `cell` is pressed. A press of a switch already down
    /// changes nothing.
    pub open spec fn press(self, cell: int) -> LayoutView {
        if self.pinned[cell] is Some {
            self
        } else {
            let a = self.resolve(cell);
            let pinned = self.pinned.update(cell, Some(a));
            match a {
                KeyAction::LayerHold(l) => LayoutView {
                    holds: self.holds.update(l as int, self.holds[l as int] + 1),
                    pinned,
                    ..self
                },
                KeyAction::Code(c) => LayoutView { active: self.add_code(c, cell), pinned, ..self },
                KeyAction::MediaKey(c) => LayoutView {
                    active: self.add_code(c, cell),
                    pinned,
                    ..self
                },
                _ => LayoutView { pinned, ..self },
            }
        }
    }

    /// State after switch `cell` is released: the effect of the action pinned
    /// at its press is undone, whatever the layers resolve to now. A release
    /// of a switch that is up changes nothing.
    pub open spec fn release(self, cell: int) -> LayoutView {
        match self.pinned[cell] {
            None => self,
            Some(a) => {
                let pinned = self.pinned.update(cell, None);
                match a {
                    KeyAction::LayerHold(l) => LayoutView {
                        holds: self.holds.update(l as int, (self.holds[l as int] - 1) as nat),
                        pinned,
                        ..self
                    },
                    KeyAction::Code(_) => LayoutView {
                        active: without_cell(self.active, cell),
                        pinned,
                        ..self
                    },
                    KeyAction::MediaKey(_) => LayoutView {
                        active: without_cell(self.active, cell),
                        pinned,
                        ..self
                    },
                    _ => LayoutView { pinned, ..self },
                }
            },
        }
    }

    /// State after the event `ev`.
    pub open spec fn event(self, ev: KeyEvent) -> LayoutView {
        match ev.transition {
            Transition::Press => self.press(ev.cell()),
            Transition::Release => self.release(ev.cell()),
        }
    }

    /// State after the events `evs`, in order.
    pub open spec fn events(self, evs: Seq<KeyEvent>) -> LayoutView
        decreases evs.len(),
    {
        if evs.len() == 0 {
            self
        } else {
            self.events(evs.drop_last()).event(evs.last())
        }
    }

    /// The keycodes held, in press order.
    pub open spec fn keycodes(self) -> Seq<u8> {
        self.active.map_values(|k: ActiveKey| k.code)
    }
}

/// Changing one pinned action changes the count of a layer by what left and what came.
pub proof fn lemma_hold_count_update(s: Seq<Option<KeyAction>>, i: int, x: Option<KeyAction>, layer: usize)
    requires
        0 <= i < s.len(),
    ensures
        hold_count(s.update(i, x), layer) as int == hold_count(s, layer) as int - (if s[i] == Some(
            KeyAction::LayerHold(layer),
        ) {
            1int
        } else {
            0int
        }) + (if x == Some(KeyAction::LayerHold(layer)) {
            1int
        } else {
            0int
        }),
    decreases s.len(),
{
    let u = s.update(i, x);
    if i == s.len() - 1 {
        assert(u.drop_last() =~= s.drop_last());
    } else {
        assert(u.drop_last() =~= s.drop_last().update(i, x));
        lemma_hold_count_update(s.drop_last(), i, x, layer);
    }
}

/// No layer is held by more switches than there are.
pub proof fn lemma_hold_count_bound(s: Seq<Option<KeyAction>>, layer: usize)
    ensures
        hold_count(s, layer) <= s.len(),
    decreases s.len(),
{
    if s.len() > 0 {
        lemma_hold_count_bound(s.drop_last(), layer);
    }
}

/// With every switch up, no layer is held.
proof fn lemma_hold_count_none(s: Seq<Option<KeyAction>>, layer: usize)
    requires
        forall|i: int| 0 <= i < s.len() ==> s[i] is None,
    ensures
        hold_count(s, layer) == 0,
    decreases s.len(),
{
    if s.len() > 0 {
        lemma_hold_count_none(s.drop_last(), layer);
    }
}

/// What `without_cell` keeps comes from `s`, is not from `cell`, and counts no more.
pub proof fn lemma_without_cell(s: Seq<ActiveKey>, cell: int)
    ensures
        forall|k: int|
            0 <= k < without_cell(s, cell).len() ==> exists|j: int|
                0 <= j < s.len() && s[j] == #[trigger] without_cell(s, cell)[k],
        forall|k: int|
            0 <= k < without_cell(s, cell).len() ==> (#[trigger] without_cell(s, cell)[k]).cell
                != cell,
        non_modifier_count(without_cell(s, cell)) <= non_modifier_count(s),
        (forall|j: int| 0 <= j < s.len() ==> (#[trigger] s[j]).cell != cell) ==> without_cell(
            s,
            cell,
        ) == s,
    decreases s.len(),
{
    if s.len() > 0 {
        let front = s.drop_last();
        lemma_without_cell(front, cell);
        let rest = without_cell(front, cell);
        let w = without_cell(s, cell);
        if s.last().cell != cell {
            assert(w.drop_last() =~= rest);
            assert forall|k: int| 0 <= k < w.len() implies exists|j: int|
                0 <= j < s.len() && s[j] == #[trigger] w[k] by {
                if k < rest.len() {
                    let j = choose|j: int| 0 <= j < front.len() && front[j] == rest[k];
                    assert(s[j] == w[k]);
                } else {
                    assert(s[s.len() - 1] == w[k]);
                }
            }
            if forall|j: int| 0 <= j < s.len() ==> (#[trigger] s[j]).cell != cell {
                assert forall|j: int| 0 <= j < front.len() implies (#[trigger] front[j]).cell
                    != cell by {
                    assert(s[j] == front[j]);
                }
                assert(w =~= s);
            }
        } else {
            assert forall|k: int| 0 <= k < w.len() implies exists|j: int|
                0 <= j < s.len() && s[j] == #[trigger] w[k] by {
                let j = choose|j: int| 0 <= j < front.len() && front[j] == rest[k];
                assert(s[j] == w[k]);
            }
            assert(s[s.len() - 1].cell == cell);
        }
    }
}

/// A press keeps the state well formed.
pub proof fn lemma_press_wf(v: LayoutView, cell: int)
    requires
        v.wf(),
        0 <= cell < NUM_KEYS,
    ensures
        v.press(cell).wf(),
{
    if v.pinned[cell] is None {
        let a = v.resolve(cell);
        let n = v.press(cell);
        lemma_resolve_in_table(v, NUM_LAYERS - 1, cell);
        assert forall|c: int| 0 <= c < NUM_KEYS implies match #[trigger] n.pinned[c] {
            Some(KeyAction::LayerHold(l)) => l < NUM_LAYERS,
            _ => true,
        } by {
            let _ = v.pinned[c];
        }
        assert forall|l: int| 0 <= l < NUM_LAYERS implies #[trigger] n.holds[l] == hold_count(
            n.pinned,
            l as usize,
        ) by {
            lemma_hold_count_update(v.pinned, cell, Some(a), l as usize);
        }
        assert forall|k: int| 0 <= k < n.active.len() implies pinned_for(
            n.pinned,
            #[trigger] n.active[k],
        ) by {
            if k < v.active.len() {
                assert(n.active[k] == v.active[k]);
                assert(pinned_for(v.pinned, v.active[k]));
                assert(v.active[k].cell != cell);
            }
        }
        match a {
            KeyAction::Code(c) => {
                if n.active != v.active {
                    assert(n.active.drop_last() =~= v.active);
                }
            },
            KeyAction::MediaKey(c) => {
                if n.active != v.active {
                    assert(n.active.drop_last() =~= v.active);
                }
            },
            _ => {},
        }
    }
}

/// The resolved action is an entry of the table, so a layer-hold it names exists.
proof fn lemma_resolve_in_table(v: LayoutView, layer: int, cell: int)
    requires
        v.wf(),
        0 <= cell < NUM_KEYS,
        layer < NUM_LAYERS,
    ensures
        match v.resolve_from(layer, cell) {
            KeyAction::LayerHold(l) => l < NUM_LAYERS,
            _ => true,
        },
    decreases layer,
{
    assert(0 <= crate::keymap::entry_index(0, cell) < v.keymap.len());
    if layer > 0 {
        assert(0 <= crate::keymap::entry_index(layer, cell) < v.keymap.len()) by (nonlinear_arith)
            requires
                0 < layer < 2,
                0 <= cell < 84,
                v.keymap.len() == 168,
        ;
        let _ = v.keymap[crate::keymap::entry_index(layer, cell)];
        lemma_resolve_in_table(v, layer - 1, cell);
    }
}

/// A release keeps the state well formed.
pub proof fn lemma_release_wf(v: LayoutView, cell: int)
    requires
        v.wf(),
        0 <= cell < NUM_KEYS,
    ensures
        v.release(cell).wf(),
{
    if v.pinned[cell] is Some {
        let a = v.pinned[cell].unwrap();
        let n = v.release(cell);
        assert forall|c: int| 0 <= c < NUM_KEYS implies match #[trigger] n.pinned[c] {
            Some(KeyAction::LayerHold(l)) => l < NUM_LAYERS,
            _ => true,
        } by {
            let _ = v.pinned[c];
        }
        assert forall|l: int| 0 <= l < NUM_LAYERS implies #[trigger] n.holds[l] == hold_count(
            n.pinned,
            l as usize,
        ) by {
            lemma_hold_count_update(v.pinned, cell, None, l as usize);
            if a == KeyAction::LayerHold(l as usize) {
                assert(v.holds[l] >= 1);
            }
        }
        lemma_without_cell(v.active, cell);
        assert forall|k: int| 0 <= k < n.active.len() implies pinned_for(
            n.pinned,
            #[trigger] n.active[k],
        ) by {
            let x = n.active[k];
            if n.active != v.active {
                let w = without_cell(v.active, cell);
                let j = choose|j: int| 0 <= j < v.active.len() && v.active[j] == w[k];
                assert(pinned_for(v.pinned, v.active[j]));
            } else {
                assert(pinned_for(v.pinned, v.active[k]));
            }
        }
    }
}

/// Every state reached by valid events from a well-formed state is well formed.
pub proof fn lemma_events_wf(v: LayoutView, evs: Seq<KeyEvent>)
    requires
        v.wf(),
        forall|k: int| 0 <= k < evs.len() ==> (#[trigger] evs[k]).valid(),
    ensures
        v.events(evs).wf(),
    decreases evs.len(),
{
    if evs.len() > 0 {
        let front = evs.drop_last();
        assert forall|k: int| 0 <= k < front.len() implies (#[trigger] front[k]).valid() by {
            assert(front[k] == evs[k]);
        }
        lemma_events_wf(v, front);
        let e = evs.last();
        assert(e.valid());
        crate::matrix::lemma_coord_cell(e.row as int, e.col as int);
        lemma_press_wf(v.events(front), e.cell());
        lemma_release_wf(v.events(front), e.cell());
    }
}

/// The layer stack never loses the base layer: after any sequence of events,
/// layer 0 is active.
pub proof fn lemma_base_layer_kept(v: LayoutView, evs: Seq<KeyEvent>)
    requires
        v.wf(),
        forall|k: int| 0 <= k < evs.len() ==> (#[trigger] evs[k]).valid(),
    ensures
        v.events(evs).active_layers().contains(0),
        v.events(evs).wf(),
{
    lemma_events_wf(v, evs);
}

/// The held keycodes never exceed the report: after any sequence of events at
/// most `REPORT_SLOTS` non-modifier codes are held. A press of a non-modifier
/// code finding every slot taken is dropped, while one finding a free slot is
/// added.
pub proof fn lemma_report_capacity(v: LayoutView, evs: Seq<KeyEvent>, cell: int)
    requires
        v.wf(),
        forall|k: int| 0 <= k < evs.len() ==> (#[trigger] evs[k]).valid(),
        0 <= cell < NUM_KEYS,
    ensures
        non_modifier_count(v.events(evs).active) <= REPORT_SLOTS,
        ({
            let w = v.events(evs);
            w.pinned[cell] is None ==> match w.resolve(cell) {
                KeyAction::Code(c) => !is_modifier_spec(c) ==> (w.press(cell).active == if non_modifier_count(w.active)
                    == REPORT_SLOTS {
                    w.active
                } else {
                    w.active.push(ActiveKey { code: c, cell: cell as usize })
                }),
                KeyAction::MediaKey(c) => !is_modifier_spec(c) ==> (w.press(cell).active == if non_modifier_count(w.active)
                    == REPORT_SLOTS {
                    w.active
                } else {
                    w.active.push(ActiveKey { code: c, cell: cell as usize })
                }),
                _ => w.press(cell).active == w.active,
            }
        }),
{
    lemma_events_wf(v, evs);
}

/// Events at other switches leave the action pinned at `cell` alone.
proof fn lemma_events_keep_pinned(w: LayoutView, cell: int, evs: Seq<KeyEvent>)
    requires
        w.wf(),
        0 <= cell < NUM_KEYS,
        forall|k: int| 0 <= k < evs.len() ==> (#[trigger] evs[k]).valid() && evs[k].cell() != cell,
    ensures
        w.events(evs).pinned[cell] == w.pinned[cell],
    decreases evs.len(),
{
    if evs.len() > 0 {
        let front = evs.drop_last();
        assert forall|k: int| 0 <= k < front.len() implies (#[trigger] front[k]).valid()
            && front[k].cell() != cell by {
            assert(front[k] == evs[k]);
        }
        lemma_events_keep_pinned(w, cell, front);
        lemma_events_wf(w, front);
        let e = evs.last();
        assert(e.valid() && e.cell() != cell);
        crate::matrix::lemma_coord_cell(e.row as int, e.col as int);
    }
}

/// Press-time pinning: whatever events at other switches come between, and
/// whatever layers they hold, the release of `cell` undoes exactly the action
/// that its press resolved to.
pub proof fn lemma_release_undoes_press(v: LayoutView, cell: int, evs: Seq<KeyEvent>)
    requires
        v.wf(),
        0 <= cell < NUM_KEYS,
        v.pinned[cell] is None,
        forall|k: int| 0 <= k < evs.len() ==> (#[trigger] evs[k]).valid() && evs[k].cell() != cell,
    ensures
        ({
            let a = v.resolve(cell);
            let w = v.press(cell).events(evs);
            let r = w.release(cell);
            &&& w.pinned[cell] == Some(a)
            &&& r.pinned == w.pinned.update(cell, None)
            &&& r.keymap == w.keymap
            &&& match a {
                KeyAction::LayerHold(l) => r.holds == w.holds.update(
                    l as int,
                    (w.holds[l as int] - 1) as nat,
                ) && r.active == w.active,
                KeyAction::Code(_) => r.holds == w.holds && r.active == without_cell(w.active, cell),
                KeyAction::MediaKey(_) => r.holds == w.holds && r.active == without_cell(
                    w.active,
                    cell,
                ),
                _ => r.holds == w.holds && r.active == w.active,
            }
        }),
{
    lemma_press_wf(v, cell);
    lemma_events_keep_pinned(v.press(cell), cell, evs);
}

/// A press followed at once by the release of the same switch leaves the
/// engine as it was.
pub proof fn lemma_press_release_identity(v: LayoutView, cell: int)
    requires
        v.wf(),
        0 <= cell < NUM_KEYS,
        v.pinned[cell] is None,
    ensures
        v.press(cell).release(cell) == v,
{
    let a = v.resolve(cell);
    let p = v.press(cell);
    let r = p.release(cell);
    lemma_resolve_in_table(v, NUM_LAYERS - 1, cell);
    assert(r.pinned =~= v.pinned);
    assert forall|j: int| 0 <= j < v.active.len() implies (#[trigger] v.active[j]).cell != cell by {
        assert(pinned_for(v.pinned, v.active[j]));
    }
    lemma_without_cell(v.active, cell);
    match a {
        KeyAction::LayerHold(l) => {
            assert(r.holds =~= v.holds);
        },
        KeyAction::Code(c) => {
            if p.active != v.active {
                assert(p.active.drop_last() =~= v.active);
            }
        },
        KeyAction::MediaKey(c) => {
            if p.active != v.active {
                assert(p.active.drop_last() =~= v.active);
            }
        },
        _ => {},
    }
}

/// The layout engine's state: the keymap, the layer hold counts, the action
/// pinned at each held switch, and the keycodes held in press order.
pub struct Layout {
    keymap: Keymap,
    holds: [u32; NUM_LAYERS],
    pinned: [Option<KeyAction>; NUM_KEYS],
    active: Vec<ActiveKey>,
}

impl View for Layout {
    type V = LayoutView;

    closed spec fn view(&self) -> LayoutView {
        LayoutView {
            keymap: self.keymap@,
            holds: self.holds@.map_values(|h: u32| h as nat),
            pinned: self.pinned@,
            active: self.active@,
        }
    }
}

impl Layout {
    pub open spec fn wf(&self) -> bool {
        self@.wf()
    }

    /// An engine over `keymap` with every switch up and only the base layer active.
    pub fn new(keymap: Keymap) -> (r: Layout)
        requires
            keymap.wf(),
        ensures
            r.wf(),
            r@.keymap == keymap@,
            r@.holds == Seq::new(NUM_LAYERS as nat, |l: int| 0nat),
            r@.pinned == Seq::new(NUM_KEYS as nat, |c: int| None::<KeyAction>),
            r@.active == Seq::<ActiveKey>::empty(),
    {
        let holds: [u32; NUM_LAYERS] = [0u32; NUM_LAYERS];
        let pinned: [Option<KeyAction>; NUM_KEYS] = [None; NUM_KEYS];
        let r = Layout { keymap, holds, pinned, active: Vec::new() };
        proof {
            assert(r@.holds =~= Seq::new(NUM_LAYERS as nat, |l: int| 0nat));
            assert(r@.pinned =~= Seq::new(NUM_KEYS as nat, |c: int| None::<KeyAction>));
            assert forall|l: int| 0 <= l < NUM_LAYERS implies #[trigger] r@.holds[l] == hold_count(
                r@.pinned,
                l as usize,
            ) by {
                lemma_hold_count_none(r@.pinned, l as usize);
            }
        }
        r
    }

    /// Whether `layer` is currently active.
    pub fn is_layer_active(&self, layer: usize) -> (r: bool)
        requires
            self.wf(),
            layer < NUM_LAYERS,
        ensures
            r == self@.layer_active(layer as int),
    {
        layer == 0 || self.holds[layer] > 0
    }

    /// Action that a press of switch `cell` resolves to now.
    fn resolve(&self, cell: usize) -> (r: KeyAction)
        requires
            self.wf(),
            cell < NUM_KEYS,
        ensures
            r == self@.resolve(cell as int),
    {
        let mut l: usize = NUM_LAYERS - 1;
        while l > 0
            invariant
                self.wf(),
                cell < NUM_KEYS,
                l < NUM_LAYERS,
                self@.resolve_from(l as int, cell as int) == self@.resolve(cell as int),
            decreases l,
        {
            let a = self.keymap.action(l, cell);
            if self.holds[l] > 0 && !matches!(a, KeyAction::Transparent) {
                return a;
            }
            l = l - 1;
        }
        self.keymap.action(0, cell)
    }

    /// Number of held keycodes that are not modifiers.
    fn non_modifier_count(&self) -> (r: usize)
        requires
            self.wf(),
        ensures
            r == non_modifier_count(self@.active),
    {
        let mut n: usize = 0;
        let mut i: usize = 0;
        while i < self.active.len()
            invariant
                i <= self.active@.len(),
                n == non_modifier_count(self.active@.take(i as int)),
                n <= i,
            decreases self.active@.len() - i,
        {
            assert(self.active@.take(i + 1).drop_last() =~= self.active@.take(i as int));
            if !is_modifier(self.active[i].code) {
                n = n + 1;
            }
            i = i + 1;
        }
        assert(self.active@.take(i as int) =~= self.active@);
        n
    }

    /// Adds `code` for switch `cell` unless a non-modifier finds the report full.
    fn add_code(&mut self, code: u8, cell: usize)
        requires
            old(self).wf(),
        ensures
            final(self)@ == (LayoutView { active: old(self)@.add_code(code, cell as int), ..old(self)@ }),
    {
        if is_modifier(code) || self.non_modifier_count() < REPORT_SLOTS {
            self.active.push(ActiveKey { code, cell });
        }
    }

    /// Handles a press of switch `cell`.
    fn press(&mut self, cell: usize)
        requires
            old(self).wf(),
            cell < NUM_KEYS,
        ensures
            final(self)@ == old(self)@.press(cell as int),
    {
        if self.pinned[cell].is_some() {
            return;
        }
        let a = self.resolve(cell);
        proof {
            lemma_press_wf(self@, cell as int);
        }
        match a {
            KeyAction::LayerHold(l) => {
                proof {
                    lemma_resolve_in_table(self@, NUM_LAYERS - 1, cell as int);
                    assert(l < NUM_LAYERS && self@.holds[l as int] == hold_count(self@.pinned, l));
                    lemma_hold_count_bound(self@.pinned, l);
                }
                self.holds[l] = self.holds[l] + 1;
                self.pinned[cell] = Some(a);
                assert(self@.holds =~= old(self)@.press(cell as int).holds);
            },
            KeyAction::Code(c) => {
                self.add_code(c, cell);
                self.pinned[cell] = Some(a);
            },
            KeyAction::MediaKey(c) => {
                self.add_code(c, cell);
                self.pinned[cell] = Some(a);
            },
            _ => {
                self.pinned[cell] = Some(a);
            },
        }
    }

    /// Drops the keycodes that switch `cell` produced.
    fn remove_cell(&mut self, cell: usize)
        ensures
            final(self)@ == (LayoutView { active: without_cell(old(self)@.active, cell as int), ..old(self)@ }),
    {
        let mut kept: Vec<ActiveKey> = Vec::new();
        let mut i: usize = 0;
        while i < self.active.len()
            invariant
                i <= self.active@.len(),
                kept@ == without_cell(self.active@.take(i as int), cell as int),
            decreases self.active@.len() - i,
        {
            assert(self.active@.take(i + 1).drop_last() =~= self.active@.take(i as int));
            let k = self.active[i];
            if k.cell != cell {
                kept.push(k);
            }
            i = i + 1;
        }
        assert(self.active@.take(i as int) =~= self.active@);
        self.active = kept;
    }

    /// Handles a release of switch `cell`.
    fn release(&mut self, cell: usize)
        requires
            old(self).wf(),
            cell < NUM_KEYS,
        ensures
            final(self)@ == old(self)@.release(cell as int),
    {
        match self.pinned[cell] {
            None => {},
            Some(a) => {
                proof {
                    lemma_release_wf(self@, cell as int);
                }
                match a {
                    KeyAction::LayerHold(l) => {
                        proof {
                            assert(l < NUM_LAYERS);
                            lemma_hold_count_update(self@.pinned, cell as int, None, l);
                        }
                        self.holds[l] = self.holds[l] - 1;
                        assert(self@.holds =~= old(self)@.release(cell as int).holds);
                    },
                    KeyAction::Code(_) => {
                        self.remove_cell(cell);
                    },
                    KeyAction::MediaKey(_) => {
                        self.remove_cell(cell);
                    },
                    _ => {},
                }
                self.pinned[cell] = None;
            },
        }
    }

    /// Applies one debounced event.
    pub fn event(&mut self, ev: KeyEvent)
        requires
            old(self).wf(),
            ev.valid(),
        ensures
            final(self).wf(),
            final(self)@ == old(self)@.event(ev),
    {
        let cell = cell_index(ev.row, ev.col);
        proof {
            lemma_press_wf(self@, cell as int);
            lemma_release_wf(self@, cell as int);
        }
        match ev.transition {
            Transition::Press => self.press(cell),
            Transition::Release => self.release(cell),
        }
    }

    /// Periodic hook for time-based behaviour; it changes nothing today.
    pub fn tick(&mut self)
        ensures
            final(self)@ == old(self)@,
    {
    }

    /// The keycodes held, in press order.
    pub fn keycodes(&self) -> (r: Vec<u8>)
        ensures
            r@ == self@.keycodes(),
    {
        let mut r: Vec<u8> = Vec::new();
        let mut i: usize = 0;
        while i < self.active.len()
            invariant
                i <= self.active@.len(),
                r@ == self.active@.take(i as int).map_values(|k: ActiveKey| k.code),
            decreases self.active@.len() - i,
        {
            r.push(self.active[i].code);
            i = i + 1;
            assert(r@ =~= self.active@.take(i as int).map_values(|k: ActiveKey| k.code));
        }
        assert(self.active@.take(i as int) =~= self.active@);
        r
    }
}

} // verus!
