//! The order in which a garbage collection pass goes about things.

use vstd::prelude::*;

use crate::repositories::models::{BlobView, Tables};
use crate::repositories::sweep::{law_sweep_adds_up, law_sweep_reaches_fixpoint};
use crate::services::gc_service::{bytes_humanstring, freed, size_text, suffices};

verus! {

/// What is to be done next.
#[derive(Clone, Copy, Debug, PartialEq, Eq, Structural)]
pub enum GcPhase {
    /// Delete uploads that nobody has continued.
    StaleUploads,
    /// Delete manifests that nothing worth keeping refers to.
    UntaggedManifests,
    /// Delete blobs that nothing uses.
    OrphanBlobs,
    /// Delete proxied images until this many bytes are given back.
    ProxiedImages(usize),
    /// Nothing: the pass is over.
    Finished,
    /// Nothing: the pass was given up.
    Failed,
}

/// What has been done.
#[derive(Clone, Copy, Debug, PartialEq, Eq, Structural)]
pub enum GcEvent {
    /// Stale uploads are deleted, which gave back this many bytes.
    StaleUploadsDeleted(usize),
    /// So many untagged manifests are deleted. A manifest takes no space of its own.
    UntaggedManifestsDeleted(usize),
    /// Orphaned blobs are deleted, which gave back this many bytes.
    OrphanBlobsDeleted(usize),
    /// Proxied images are deleted, which gave back this many bytes.
    ProxiedImagesDeleted(usize),
    /// What was to be done could not be done.
    Failed,
}

/// A garbage collection pass.
#[derive(Clone, Copy, Debug, PartialEq, Eq, Structural)]
pub struct GcRun {
    pub phase: GcPhase,
    /// How many bytes have to be given back, if any.
    pub space_required: Option<usize>,
    /// How many bytes are given back.
    pub space_reclaimed: usize,
}

impl GcRun {
    /// A pass that has to give back `space_required` bytes, if any.
    pub open spec fn start(space_required: Option<usize>) -> GcRun {
        GcRun { phase: GcPhase::StaleUploads, space_required, space_reclaimed: 0 }
    }

    /// Whether the pass waits for something to be done.
    pub open spec fn is_open(self) -> bool {
        self.phase != GcPhase::Finished && self.phase != GcPhase::Failed
    }

    /// How many bytes the event gives back, if it is the one that the pass waits for.
    pub open spec fn gain(self, event: GcEvent) -> nat {
        match (self.phase, event) {
            (GcPhase::StaleUploads, GcEvent::StaleUploadsDeleted(bytes)) => bytes as nat,
            (GcPhase::OrphanBlobs, GcEvent::OrphanBlobsDeleted(bytes)) => bytes as nat,
            (GcPhase::ProxiedImages(_), GcEvent::ProxiedImagesDeleted(bytes)) => bytes as nat,
            _ => 0,
        }
    }

    /// How many bytes are still needed when `reclaimed` are given back.
    pub open spec fn still_needed(required: usize, reclaimed: nat) -> usize {
        if reclaimed < required {
            (required - reclaimed) as usize
        } else {
            0
        }
    }

    /// What is to be done next, after the event.
    pub open spec fn next_phase(self, event: GcEvent) -> GcPhase {
        match (self.phase, event) {
            (GcPhase::StaleUploads, GcEvent::StaleUploadsDeleted(_)) => GcPhase::UntaggedManifests,
            (GcPhase::UntaggedManifests, GcEvent::UntaggedManifestsDeleted(_)) => GcPhase::OrphanBlobs,
            (GcPhase::OrphanBlobs, GcEvent::OrphanBlobsDeleted(bytes)) => match self.space_required {
                Some(required) => GcPhase::ProxiedImages(
                    Self::still_needed(required, self.space_reclaimed as nat + bytes as nat),
                ),
                None => GcPhase::Finished,
            },
            (GcPhase::ProxiedImages(_), GcEvent::ProxiedImagesDeleted(_)) => GcPhase::Finished,
            (_, GcEvent::Failed) => if self.is_open() {
                GcPhase::Failed
            } else {
                self.phase
            },
            _ => self.phase,
        }
    }

    /// The pass after the event. An event that it does not wait for changes nothing.
    pub open spec fn after(self, event: GcEvent) -> GcRun {
        GcRun {
            phase: self.next_phase(event),
            space_required: self.space_required,
            space_reclaimed: (self.space_reclaimed + self.gain(event)) as usize,
        }
    }

    /// Takes note of an event.
    pub fn advance(&mut self, event: GcEvent)
        requires
            old(self).space_reclaimed + old(self).gain(event) <= usize::MAX,
        ensures
            *final(self) == old(self).after(event),
    {
        match (self.phase, event) {
            (GcPhase::StaleUploads, GcEvent::StaleUploadsDeleted(bytes)) => {
                self.space_reclaimed = self.space_reclaimed + bytes;
                self.phase = GcPhase::UntaggedManifests;
            },
            (GcPhase::UntaggedManifests, GcEvent::UntaggedManifestsDeleted(_)) => {
                self.phase = GcPhase::OrphanBlobs;
            },
            (GcPhase::OrphanBlobs, GcEvent::OrphanBlobsDeleted(bytes)) => {
                self.space_reclaimed = self.space_reclaimed + bytes;
                self.phase =
                match self.space_required {
                    Some(required) => GcPhase::ProxiedImages(
                        required.saturating_sub(self.space_reclaimed),
                    ),
                    None => GcPhase::Finished,
                };
            },
            (GcPhase::ProxiedImages(_), GcEvent::ProxiedImagesDeleted(bytes)) => {
                self.space_reclaimed = self.space_reclaimed + bytes;
                self.phase = GcPhase::Finished;
            },
            (GcPhase::Finished, GcEvent::Failed) | (GcPhase::Failed, GcEvent::Failed) => {},
            (_, GcEvent::Failed) => {
                self.phase = GcPhase::Failed;
            },
            _ => {},
        }
    }

    /// Whether the event can be taken note of.
    pub fn can_advance(&self, event: GcEvent) -> (r: bool)
        ensures
            r == (self.space_reclaimed + self.gain(event) <= usize::MAX),
    {
        match (self.phase, event) {
            (GcPhase::StaleUploads, GcEvent::StaleUploadsDeleted(bytes)) => {
                self.space_reclaimed.checked_add(bytes).is_some()
            },
            (GcPhase::OrphanBlobs, GcEvent::OrphanBlobsDeleted(bytes)) => {
                self.space_reclaimed.checked_add(bytes).is_some()
            },
            (GcPhase::ProxiedImages(_), GcEvent::ProxiedImagesDeleted(bytes)) => {
                self.space_reclaimed.checked_add(bytes).is_some()
            },
            _ => true,
        }
    }

    /// Whether the pass is over and gave back less than it had to.
    pub open spec fn falls_short(self) -> bool {
        &&& self.phase == GcPhase::Finished
        &&& self.space_required matches Some(required) && self.space_reclaimed < required
    }

    /// How much had to be given back, if that was not reached.
    pub fn shortfall(&self) -> (r: Option<String>)
        ensures
            r is Some <==> self.phase == GcPhase::Finished && self.space_required is Some
                && self.space_reclaimed < self.space_required->0,
            r.deep_view() == (if self.falls_short() {
                Some(size_text(self.space_required->0 as nat))
            } else {
                None
            }),
    {
        match (self.phase, self.space_required) {
            (GcPhase::Finished, Some(required)) => if self.space_reclaimed < required {
                Some(bytes_humanstring(required))
            } else {
                None
            },
            _ => None,
        }
    }

    /// How much the pass gave back, if it is over and that is worth telling.
    pub fn total(&self) -> (r: Option<String>)
        ensures
            r.deep_view() == (if self.phase == GcPhase::Finished && self.space_reclaimed > 0 {
                Some(size_text(self.space_reclaimed as nat))
            } else {
                None
            }),
    {
        match self.phase {
            GcPhase::Finished => if self.space_reclaimed > 0 {
                Some(bytes_humanstring(self.space_reclaimed))
            } else {
                None
            },
            _ => None,
        }
    }
}

/// A pass deletes stale uploads, untagged manifests and orphaned blobs, in this order, and counts
/// the bytes that the first and the last give back. If no space is required it is then over. If
/// some is, it goes on with proxied images, and asks them for what is still needed, be it nothing.
pub proof fn law_run_order(required: Option<usize>, uploads: usize, manifests: usize, orphans: usize, proxied: usize)
    requires
        uploads + orphans + proxied <= usize::MAX,
    ensures
        ({
            let swept = GcRun::start(required).after(GcEvent::StaleUploadsDeleted(uploads)).after(
                GcEvent::UntaggedManifestsDeleted(manifests),
            ).after(GcEvent::OrphanBlobsDeleted(orphans));
            let done = swept.after(GcEvent::ProxiedImagesDeleted(proxied));
            &&& swept.space_reclaimed == uploads + orphans
            &&& required is None ==> swept.phase == GcPhase::Finished && done == swept
            &&& required matches Some(r) ==> {
                &&& swept.phase == GcPhase::ProxiedImages(
                    GcRun::still_needed(r, (uploads + orphans) as nat),
                )
                &&& done.phase == GcPhase::Finished
                &&& done.space_reclaimed == uploads + orphans + proxied
                &&& done.falls_short() <==> uploads + orphans + proxied < r
            }
        }),
{
}

/// A pass that is over, or was given up, stays as it is.
pub proof fn law_closed_run_stays(run: GcRun, event: GcEvent)
    requires
        !run.is_open(),
    ensures
        run.after(event) == run,
{
}

/// A failure ends the pass, and takes back nothing that was counted.
pub proof fn law_failure_ends_run(run: GcRun)
    requires
        run.is_open(),
    ensures
        run.after(GcEvent::Failed).phase == GcPhase::Failed,
        run.after(GcEvent::Failed).space_reclaimed == run.space_reclaimed,
        !run.after(GcEvent::Failed).falls_short(),
{
}

/// A pass falls short only if every proxied image that could go is deleted.
pub proof fn law_short_run_spared_nothing(run: GcRun, needed: usize, candidates: Seq<BlobView>, k: int)
    requires
        run.phase == GcPhase::ProxiedImages(needed),
        run.space_required matches Some(r) && needed == GcRun::still_needed(r, run.space_reclaimed as nat),
        suffices(candidates, needed as nat, k),
        run.space_reclaimed + freed(candidates, k) <= usize::MAX,
        run.after(GcEvent::ProxiedImagesDeleted(freed(candidates, k) as usize)).falls_short(),
    ensures
        k == candidates.len(),
{
}

/// Where enough is given back before it comes to proxied images, none is deleted.
pub proof fn law_proxied_images_are_last_resort(required: usize, reclaimed: nat, candidates: Seq<BlobView>, k: int)
    requires
        reclaimed >= required,
        suffices(candidates, GcRun::still_needed(required, reclaimed) as nat, k),
    ensures
        k == 0,
{
    if k > 0 {
        assert(freed(candidates, 0) < 0);
    }
}

/// How often the stored manifests are swept at most.
pub const MAX_PASSES: usize = 16;

/// How sweeping the stored manifests goes.
#[derive(Clone, Copy, Debug, PartialEq, Eq, Structural)]
pub enum SweepPhase {
    /// Sweep them, or sweep them again.
    Open,
    /// The last sweep deleted nothing.
    Settled,
    /// The last sweep that is allowed still deleted something.
    GaveUp,
}

/// Sweeps of the stored manifests, one after the other.
///
/// A sweep runs to a fixpoint by itself, so the second one finds nothing to delete. That there is an
/// end to them all the same is only a guard against a delete that somehow fails to remove its row.
#[derive(Clone, Copy, Debug, PartialEq, Eq, Structural)]
pub struct StoredSweep {
    pub phase: SweepPhase,
    /// How many sweeps are still allowed.
    pub passes_left: usize,
    /// How many rows were reported as deleted.
    pub deleted: u64,
}

/// How many rows the reports come to together.
pub open spec fn total_reported(reports: Seq<u64>) -> nat
    decreases reports.len(),
{
    if reports.len() == 0 {
        0
    } else {
        total_reported(reports.drop_last()) + reports.last() as nat
    }
}

impl StoredSweep {
    /// Before the first sweep.
    pub open spec fn start() -> StoredSweep {
        StoredSweep { phase: SweepPhase::Open, passes_left: MAX_PASSES, deleted: 0 }
    }

    /// After a sweep that was reported to delete `removed` rows.
    pub open spec fn after(self, removed: u64) -> StoredSweep {
        if self.phase != SweepPhase::Open {
            self
        } else if removed == 0 {
            StoredSweep { phase: SweepPhase::Settled, ..self }
        } else {
            StoredSweep {
                phase: if self.passes_left > 1 {
                    SweepPhase::Open
                } else {
                    SweepPhase::GaveUp
                },
                passes_left: if self.passes_left > 1 {
                    (self.passes_left - 1) as usize
                } else {
                    0
                },
                deleted: (self.deleted + removed) as u64,
            }
        }
    }

    /// After sweeps with these reports.
    pub open spec fn after_all(self, reports: Seq<u64>) -> StoredSweep
        decreases reports.len(),
    {
        if reports.len() == 0 {
            self
        } else {
            self.after_all(reports.drop_last()).after(reports.last())
        }
    }

    pub fn new() -> (r: StoredSweep)
        ensures
            r == StoredSweep::start(),
    {
        StoredSweep { phase: SweepPhase::Open, passes_left: MAX_PASSES, deleted: 0 }
    }

    /// Whether the report can be taken note of.
    pub fn can_record(&self, removed: u64) -> (r: bool)
        ensures
            r == (self.deleted + removed <= u64::MAX),
    {
        self.deleted.checked_add(removed).is_some()
    }

    /// Takes note of a sweep.
    pub fn record(&mut self, removed: u64)
        requires
            old(self).deleted + removed <= u64::MAX,
        ensures
            *final(self) == old(self).after(removed),
    {
        match self.phase {
            SweepPhase::Open => {
                if removed == 0 {
                    self.phase = SweepPhase::Settled;
                } else {
                    self.deleted = self.deleted + removed;
                    if self.passes_left > 1 {
                        self.passes_left = self.passes_left - 1;
                    } else {
                        self.passes_left = 0;
                        self.phase = SweepPhase::GaveUp;
                    }
                }
            },
            _ => {},
        }
    }
}

/// As long as every sweep is reported to delete something, the next one is due, until the last that
/// is allowed.
pub proof fn law_sweeps_end(reports: Seq<u64>)
    requires
        reports.len() <= MAX_PASSES,
        forall|i: int| 0 <= i < reports.len() ==> #[trigger] reports[i] > 0,
        total_reported(reports) <= u64::MAX,
    ensures
        StoredSweep::start().after_all(reports) == (StoredSweep {
            phase: if reports.len() < MAX_PASSES {
                SweepPhase::Open
            } else {
                SweepPhase::GaveUp
            },
            passes_left: (MAX_PASSES - reports.len()) as usize,
            deleted: total_reported(reports) as u64,
        }),
    decreases reports.len(),
{
    if reports.len() > 0 {
        let front = reports.drop_last();
        assert forall|i: int| 0 <= i < front.len() implies #[trigger] front[i] > 0 by {
            assert(front[i] == reports[i]);
        }
        law_sweeps_end(front);
        assert(reports[reports.len() - 1] > 0);
    }
}

/// The first sweep that is reported to delete nothing settles it, be it the last that is allowed.
pub proof fn law_idle_sweep_settles(reports: Seq<u64>)
    requires
        reports.len() < MAX_PASSES,
        forall|i: int| 0 <= i < reports.len() ==> #[trigger] reports[i] > 0,
        total_reported(reports) <= u64::MAX,
    ensures
        StoredSweep::start().after_all(reports).after(0).phase == SweepPhase::Settled,
        StoredSweep::start().after_all(reports).after(0).deleted == total_reported(reports),
{
    law_sweeps_end(reports);
}

/// Once settled or given up, it stays as it is.
pub proof fn law_closed_sweep_stays(sweep: StoredSweep, removed: u64)
    requires
        sweep.phase != SweepPhase::Open,
    ensures
        sweep.after(removed) == sweep,
{
}

/// Where every delete removes its row and nothing else happens to the tables, it settles with the
/// second sweep at the latest, however deep indexes are nested.
pub proof fn law_faithful_deletes_settle(t: Tables, cutoff: int)
    requires
        t.manifests.len() <= u64::MAX,
    ensures
        ({
            let after = t.swept(cutoff, t.manifests.len());
            let first = t.swept_digests(cutoff, t.manifests.len()).len();
            let second = after.swept_digests(cutoff, after.manifests.len()).len();
            let sweep = StoredSweep::start().after(first as u64).after(second as u64);
            &&& sweep.phase == SweepPhase::Settled
            &&& sweep.deleted == first
        }),
{
    let after = t.swept(cutoff, t.manifests.len());
    law_sweep_reaches_fixpoint(t, cutoff, after.manifests.len());
    law_sweep_adds_up(t, cutoff, t.manifests.len());
}

} // verus!
