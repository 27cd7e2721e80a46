//! Hand-off of reports from the scan tick to the USB interrupt: a single
//! slot in which the newest report replaces any that was not yet sent.
use crate::report::REPORT_LEN;
use vstd::prelude::*;

verus! {

/// Whether two reports hold the same bytes.
pub fn same_report(a: &[u8; REPORT_LEN], b: &[u8; REPORT_LEN]) -> (r: bool)
    ensures
        r == (a@ == b@),
{
    let mut i: usize = 0;
    while i < REPORT_LEN
        invariant
            i <= REPORT_LEN,
            a@.len() == REPORT_LEN,
            b@.len() == REPORT_LEN,
            forall|j: int| 0 <= j < i ==> a@[j] == b@[j],
        decreases REPORT_LEN - i,
    {
        if a[i] != b[i] {
            return false;
        }
        i = i + 1;
    }
    assert(a@ =~= b@);
    true
}

/// The outbound report slot shared between the tick and the USB interrupt.
pub struct ReportSlot {
    latest: [u8; REPORT_LEN],
    pending: bool,
}

impl ReportSlot {
    /// The newest report published.
    pub closed spec fn latest_spec(&self) -> Seq<u8> {
        self.latest@
    }

    /// Whether the newest report still waits for the host.
    pub closed spec fn pending_spec(&self) -> bool {
        self.pending
    }

    /// A slot holding the all-zero report (no key held), with nothing pending.
    pub fn new() -> (r: ReportSlot)
        ensures
            r.latest_spec() == Seq::new(REPORT_LEN as nat, |i: int| 0u8),
            !r.pending_spec(),
    {
        let r = ReportSlot { latest: [0u8; REPORT_LEN], pending: false };
        assert(r.latest_spec() =~= Seq::new(REPORT_LEN as nat, |i: int| 0u8));
        r
    }

    /// Publishes `report`. A report equal to the newest one changes nothing and
    /// returns `false`; another replaces it, unsent or not, is marked pending
    /// and returns `true`.
    pub fn publish(&mut self, report: [u8; REPORT_LEN]) -> (changed: bool)
        ensures
            changed == (report@ != old(self).latest_spec()),
            final(self).latest_spec() == report@,
            final(self).pending_spec() == (old(self).pending_spec() || changed),
    {
        if same_report(&report, &self.latest) {
            false
        } else {
            self.latest = report;
            self.pending = true;
            true
        }
    }

    /// The newest report.
    pub fn latest(&self) -> (r: [u8; REPORT_LEN])
        ensures
            r@ == self.latest_spec(),
    {
        self.latest
    }

    /// Whether the newest report still waits for the host.
    pub fn is_pending(&self) -> (r: bool)
        ensures
            r == self.pending_spec(),
    {
        self.pending
    }

    /// Takes the newest report for sending if it is pending; it stays the
    /// newest, no longer pending.
    pub fn take(&mut self) -> (r: Option<[u8; REPORT_LEN]>)
        ensures
            final(self).latest_spec() == old(self).latest_spec(),
            !final(self).pending_spec(),
            old(self).pending_spec() ==> r.is_some() && r.unwrap()@ == old(self).latest_spec(),
            !old(self).pending_spec() ==> r.is_none(),
    {
        if self.pending {
            self.pending = false;
            Some(self.latest)
        } else {
            None
        }
    }
}

} // verus!
