//! One scan tick of the pipeline: debounce the snapshot, feed the events to
//! the layout engine, build the report and hand it to the USB side.
use crate::debounce::{lemma_events_alternate, DebounceView, Debouncer, KeyEvent, DEBOUNCE_THRESHOLD};
use crate::keymap::{Keymap, NUM_LAYERS};
use crate::layout::{Layout, LayoutView};
use crate::matrix::{empty_snapshot, NUM_KEYS};
use crate::report::{build, report_of, REPORT_LEN};
use crate::transport::ReportSlot;
use vstd::prelude::*;

verus! {

/// The state that the scan tick owns, and the outbound report slot it shares
/// with the USB interrupt.
pub struct Keyboard {
    debouncer: Debouncer,
    layout: Layout,
    outbox: ReportSlot,
}

impl Keyboard {
    /// Debouncer state.
    pub closed spec fn debounce_view(&self) -> DebounceView {
        self.debouncer@
    }

    /// Layout engine state.
    pub closed spec fn layout_view(&self) -> LayoutView {
        self.layout@
    }

    /// The newest report published.
    pub closed spec fn latest_report(&self) -> Seq<u8> {
        self.outbox.latest_spec()
    }

    /// Whether the newest report waits for the host.
    pub closed spec fn report_pending(&self) -> bool {
        self.outbox.pending_spec()
    }

    pub closed spec fn wf(&self) -> bool {
        self.debouncer.wf() && self.layout.wf()
    }

    /// A keyboard over `keymap` with every switch open and accepted open,
    /// the debounce threshold at its default and an empty report published.
    pub fn new(keymap: Keymap) -> (r: Keyboard)
        requires
            keymap.wf(),
        ensures
            r.wf(),
            r.debounce_view().accepted == Seq::new(NUM_KEYS as nat, |i: int| false),
            r.debounce_view().counters == Seq::new(NUM_KEYS as nat, |i: int| 0nat),
            r.debounce_view().threshold == DEBOUNCE_THRESHOLD,
            r.layout_view().keymap == keymap@,
            r.layout_view().active == Seq::<crate::layout::ActiveKey>::empty(),
            r.layout_view().pinned == Seq::new(NUM_KEYS as nat, |c: int| None::<crate::keymap::KeyAction>),
            r.layout_view().holds == Seq::new(NUM_LAYERS as nat, |l: int| 0nat),
            r.latest_report() == Seq::new(REPORT_LEN as nat, |i: int| 0u8),
            !r.report_pending(),
    {
        let initial = empty_snapshot();
        let debouncer = Debouncer::new(&initial, DEBOUNCE_THRESHOLD);
        assert(debouncer@.accepted =~= Seq::new(NUM_KEYS as nat, |i: int| false));
        Keyboard { debouncer, layout: Layout::new(keymap), outbox: ReportSlot::new() }
    }

    /// Runs one scan tick on the sampled `snapshot`: the debounced events go
    /// through the layout engine in order, then the report of the held codes
    /// is published. Returns whether that report differs from the previous one.
    pub fn tick(&mut self, snapshot: &[bool; NUM_KEYS]) -> (changed: bool)
        requires
            old(self).wf(),
        ensures
            final(self).wf(),
            final(self).debounce_view() == old(self).debounce_view().step(snapshot@),
            final(self).layout_view() == old(self).layout_view().events(
                old(self).debounce_view().events(snapshot@),
            ),
            final(self).latest_report() == report_of(final(self).layout_view().keycodes()),
            changed == (final(self).latest_report() != old(self).latest_report()),
            final(self).report_pending() == (old(self).report_pending() || changed),
    {
        let ghost d0 = self.debouncer@;
        let ghost l0 = self.layout@;
        let events = self.debouncer.events(snapshot);
        proof {
            lemma_events_alternate(d0, snapshot@);
        }
        let mut i: usize = 0;
        while i < events.len()
            invariant
                i <= events@.len(),
                events@ == d0.events(snapshot@),
                forall|k: int| 0 <= k < events@.len() ==> (#[trigger] events@[k]).valid(),
                self.layout.wf(),
                self.layout@ == l0.events(events@.take(i as int)),
                self.debouncer.wf(),
                self.debouncer@ == d0.step(snapshot@),
                self.outbox == old(self).outbox,
            decreases events@.len() - i,
        {
            assert(events@.take(i + 1).drop_last() =~= events@.take(i as int));
            let ev: KeyEvent = events[i];
            self.layout.event(ev);
            i = i + 1;
        }
        assert(events@.take(i as int) =~= events@);
        self.layout.tick();
        let keys = self.layout.keycodes();
        let report = build(&keys);
        self.outbox.publish(report)
    }

    /// For the USB interrupt: the newest report if it still waits for the
    /// host, which it then no longer does.
    pub fn take_report(&mut self) -> (r: Option<[u8; REPORT_LEN]>)
        ensures
            final(self).wf() == old(self).wf(),
            final(self).debounce_view() == old(self).debounce_view(),
            final(self).layout_view() == old(self).layout_view(),
            final(self).latest_report() == old(self).latest_report(),
            !final(self).report_pending(),
            old(self).report_pending() ==> r.is_some() && r.unwrap()@ == old(self).latest_report(),
            !old(self).report_pending() ==> r.is_none(),
    {
        self.outbox.take()
    }

    /// The newest report if it still waits for the host; the slot is left as it is.
    pub fn pending_report(&self) -> (r: Option<[u8; REPORT_LEN]>)
        ensures
            self.report_pending() ==> r.is_some() && r.unwrap()@ == self.latest_report(),
            !self.report_pending() ==> r.is_none(),
    {
        if self.outbox.is_pending() {
            Some(self.outbox.latest())
        } else {
            None
        }
    }

    /// The newest report published.
    pub fn report(&self) -> (r: [u8; REPORT_LEN])
        ensures
            r@ == self.latest_report(),
    {
        self.outbox.latest()
    }

    /// The keycodes held, in press order.
    pub fn keycodes(&self) -> (r: Vec<u8>)
        ensures
            r@ == self.layout_view().keycodes(),
    {
        self.layout.keycodes()
    }
}

} // verus!
