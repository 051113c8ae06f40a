//! What a garbage collection pass guarantees, said of what goes in and what comes out.

use vstd::prelude::*;

use crate::repositories::models::{BlobView, UploadView};
use crate::services::gc_run::{
    total_reported, GcEvent, GcPhase, GcRun, StoredSweep, SweepPhase, MAX_PASSES,
};
use crate::services::gc_service::{
    blob_actions, countable, freed, offsets, proxied_actions, sizes, suffices, total_bytes,
    upload_actions, ActionView, GcAction, GcService,
};

verus! {

/// One upload more counts for the bytes that have arrived of it, and no upload for none.
pub proof fn law_upload_bytes_add_up(uploads: Seq<UploadView>, upload: UploadView)
    ensures
        total_bytes(offsets(Seq::<UploadView>::empty())) == 0,
        total_bytes(offsets(uploads.push(upload))) == total_bytes(offsets(uploads)) + (
        upload.offset as usize),
{
    assert(offsets(uploads.push(upload)) =~= offsets(uploads).push(upload.offset));
    assert(offsets(uploads).push(upload.offset).drop_last() =~= offsets(uploads));
}

/// One blob more counts for its size, and no blob for none.
pub proof fn law_blob_bytes_add_up(blobs: Seq<BlobView>, blob: BlobView)
    ensures
        total_bytes(sizes(Seq::<BlobView>::empty())) == 0,
        total_bytes(sizes(blobs.push(blob))) == total_bytes(sizes(blobs)) + (blob.size as usize),
{
    assert(sizes(blobs.push(blob)) =~= sizes(blobs).push(blob.size));
    assert(sizes(blobs).push(blob.size).drop_last() =~= sizes(blobs));
}

/// The first blobs give back their sizes together.
pub proof fn law_freed_adds_up(blobs: Seq<BlobView>, k: int)
    ensures
        freed(blobs, 0) == 0,
        0 <= k < blobs.len() ==> freed(blobs, k + 1) == freed(blobs, k) + (blobs[k].size as usize),
{
    assert(sizes(blobs.take(0)) =~= Seq::empty());
    if 0 <= k < blobs.len() {
        assert(blobs.take(k + 1) =~= blobs.take(k).push(blobs[k]));
        law_blob_bytes_add_up(blobs.take(k), blobs[k]);
    }
}

/// The first `k` blobs are the ones to delete exactly if fewer give back less than is needed, and
/// they give back as much as is needed or are all there are.
pub proof fn law_as_few_blobs_as_it_takes(blobs: Seq<BlobView>, needed: nat, k: int)
    ensures
        suffices(blobs, needed, k) <==> 0 <= k <= blobs.len() && (forall|j: int|
            0 <= j < k ==> #[trigger] freed(blobs, j) < needed) && (freed(blobs, k) >= needed || k
            == blobs.len()),
{
}

/// The bytes can be counted exactly if those of the blobs to delete fit.
pub proof fn law_countable_means_fits(blobs: Seq<BlobView>, needed: nat, k: int)
    requires
        0 <= k <= blobs.len(),
        forall|j: int| 0 <= j < k ==> #[trigger] freed(blobs, j) < needed,
        freed(blobs, k) >= needed || k == blobs.len(),
    ensures
        countable(blobs, needed) <==> freed(blobs, k) <= usize::MAX,
{
    assert(suffices(blobs, needed, k));
    if countable(blobs, needed) {
        let l = choose|l: int| #[trigger]
            suffices(blobs, needed, l) && freed(blobs, l) <= usize::MAX;
        if l < k {
            assert(freed(blobs, l) < needed);
        }
        if k < l {
            assert(freed(blobs, k) < needed);
        }
    }
}

/// For each upload, and for it alone, its record is deleted and then its file.
pub proof fn law_each_upload_is_deleted(uploads: Seq<UploadView>, i: int)
    ensures
        upload_actions(uploads).len() == 2 * uploads.len(),
        0 <= i < uploads.len() ==> {
            &&& upload_actions(uploads)[2 * i] == ActionView::DeleteUploadRow(uploads[i].uuid)
            &&& upload_actions(uploads)[2 * i + 1] == ActionView::DeleteUploadFile(uploads[i].uuid)
        },
{
    assert((2 * i) % 2 == 0 && (2 * i) / 2 == i);
    assert((2 * i + 1) % 2 == 1 && (2 * i + 1) / 2 == i);
}

/// For each blob, and for it alone, its record is deleted and then its file.
pub proof fn law_each_blob_is_deleted(blobs: Seq<BlobView>, i: int)
    ensures
        blob_actions(blobs).len() == 2 * blobs.len(),
        0 <= i < blobs.len() ==> {
            &&& blob_actions(blobs)[2 * i] == ActionView::DeleteBlobRow(blobs[i].digest)
            &&& blob_actions(blobs)[2 * i + 1] == ActionView::DeleteBlobFile(blobs[i].digest)
        },
{
    assert((2 * i) % 2 == 0 && (2 * i) / 2 == i);
    assert((2 * i + 1) % 2 == 1 && (2 * i + 1) / 2 == i);
}

/// Each manifest that uses a proxied blob is deleted, then the record of the blob, then its file.
pub proof fn law_each_user_is_deleted_first(digest: Seq<char>, manifests: Seq<Seq<char>>, i: int)
    ensures
        proxied_actions(digest, manifests).len() == manifests.len() + 2,
        0 <= i < manifests.len() ==> proxied_actions(digest, manifests)[i]
            == ActionView::DeleteManifest(manifests[i]),
        proxied_actions(digest, manifests)[manifests.len() as int] == ActionView::DeleteBlobRow(digest),
        proxied_actions(digest, manifests)[manifests.len() as int + 1] == ActionView::DeleteBlobFile(digest),
{
}

/// An action stands for what it says.
pub proof fn law_actions_stand_for_themselves(s: String)
    ensures
        GcAction::DeleteUploadRow(s).deep_view() == ActionView::DeleteUploadRow(s@),
        GcAction::DeleteUploadFile(s).deep_view() == ActionView::DeleteUploadFile(s@),
        GcAction::DeleteManifest(s).deep_view() == ActionView::DeleteManifest(s@),
        GcAction::DeleteBlobRow(s).deep_view() == ActionView::DeleteBlobRow(s@),
        GcAction::DeleteBlobFile(s).deep_view() == ActionView::DeleteBlobFile(s@),
{
}

/// An untagged manifest is kept for as many days of 86400 seconds as are configured.
pub proof fn law_retention_is_as_configured(gc: GcService, now: int)
    ensures
        gc.cutoff(now) == now
            - gc.config().config_file.garbage_collection.untagged_manifest_retention_days * 86_400,
{
}

/// What each thing that is done comes to, whatever was counted before.
pub proof fn law_run_step_by_step(run: GcRun, bytes: usize, count: usize)
    requires
        run.space_reclaimed + bytes <= usize::MAX,
    ensures
        run.phase == GcPhase::StaleUploads ==> run.after(GcEvent::StaleUploadsDeleted(bytes)) == (GcRun {
            phase: GcPhase::UntaggedManifests,
            space_required: run.space_required,
            space_reclaimed: (run.space_reclaimed + bytes) as usize,
        }),
        run.phase == GcPhase::UntaggedManifests ==> run.after(
            GcEvent::UntaggedManifestsDeleted(count),
        ) == (GcRun {
            phase: GcPhase::OrphanBlobs,
            space_required: run.space_required,
            space_reclaimed: run.space_reclaimed,
        }),
        run.phase == GcPhase::OrphanBlobs && run.space_required is None ==> run.after(
            GcEvent::OrphanBlobsDeleted(bytes),
        ) == (GcRun {
            phase: GcPhase::Finished,
            space_required: None,
            space_reclaimed: (run.space_reclaimed + bytes) as usize,
        }),
        run.phase == GcPhase::OrphanBlobs && run.space_required is Some ==> run.after(
            GcEvent::OrphanBlobsDeleted(bytes),
        ) == (GcRun {
            phase: GcPhase::ProxiedImages(
                if run.space_reclaimed + bytes < run.space_required->0 {
                    (run.space_required->0 - run.space_reclaimed - bytes) as usize
                } else {
                    0
                },
            ),
            space_required: run.space_required,
            space_reclaimed: (run.space_reclaimed + bytes) as usize,
        }),
        run.phase is ProxiedImages ==> run.after(GcEvent::ProxiedImagesDeleted(bytes)) == (GcRun {
            phase: GcPhase::Finished,
            space_required: run.space_required,
            space_reclaimed: (run.space_reclaimed + bytes) as usize,
        }),
        run.phase == GcPhase::Finished || run.phase == GcPhase::Failed ==> run.after(GcEvent::Failed)
            == run,
        run.phase != GcPhase::Finished && run.phase != GcPhase::Failed ==> run.after(GcEvent::Failed)
            == (GcRun { phase: GcPhase::Failed, ..run }),
{
}

/// What is reported out of turn changes nothing.
pub proof fn law_out_of_turn_is_ignored(run: GcRun, event: GcEvent)
    requires
        event is StaleUploadsDeleted ==> run.phase != GcPhase::StaleUploads,
        event is UntaggedManifestsDeleted ==> run.phase != GcPhase::UntaggedManifests,
        event is OrphanBlobsDeleted ==> run.phase != GcPhase::OrphanBlobs,
        event is ProxiedImagesDeleted ==> !(run.phase is ProxiedImages),
        event is Failed ==> run.phase == GcPhase::Finished || run.phase == GcPhase::Failed,
    ensures
        run.after(event) == run,
        run.gain(event) == 0,
{
}

/// The bytes that are counted are those that what was to be done gave back.
pub proof fn law_gain_is_what_was_given_back(run: GcRun, bytes: usize, count: usize)
    ensures
        run.phase == GcPhase::StaleUploads ==> run.gain(GcEvent::StaleUploadsDeleted(bytes)) == bytes,
        run.phase == GcPhase::OrphanBlobs ==> run.gain(GcEvent::OrphanBlobsDeleted(bytes)) == bytes,
        run.phase is ProxiedImages ==> run.gain(GcEvent::ProxiedImagesDeleted(bytes)) == bytes,
        run.gain(GcEvent::UntaggedManifestsDeleted(count)) == 0,
        run.gain(GcEvent::Failed) == 0,
{
}

/// A pass begins with stale uploads and nothing counted; it falls short exactly if it is over and
/// gave back less than was required.
pub proof fn law_run_begins_and_ends(run: GcRun, required: Option<usize>)
    ensures
        GcRun::start(required).phase == GcPhase::StaleUploads,
        GcRun::start(required).space_required == required,
        GcRun::start(required).space_reclaimed == 0,
        run.falls_short() <==> run.phase == GcPhase::Finished && run.space_required is Some
            && run.space_reclaimed < run.space_required->0,
{
}

/// A report counts for the rows in it.
pub proof fn law_reports_add_up(reports: Seq<u64>, removed: u64)
    ensures
        total_reported(Seq::<u64>::empty()) == 0,
        total_reported(reports.push(removed)) == total_reported(reports) + removed,
        StoredSweep::start().after_all(Seq::<u64>::empty()) == StoredSweep::start(),
        StoredSweep::start().after_all(reports.push(removed)) == StoredSweep::start().after_all(
            reports,
        ).after(removed),
{
    assert(reports.push(removed).drop_last() =~= reports);
}

/// What a report comes to, whatever was reported before.
pub proof fn law_stored_sweep_step_by_step(sweep: StoredSweep, removed: u64)
    requires
        sweep.phase == SweepPhase::Open,
        sweep.passes_left > 0,
        sweep.deleted + removed <= u64::MAX,
    ensures
        StoredSweep::start() == (StoredSweep {
            phase: SweepPhase::Open,
            passes_left: MAX_PASSES,
            deleted: 0,
        }),
        sweep.after(removed).deleted == sweep.deleted + removed,
        sweep.after(removed).phase == SweepPhase::Settled <==> removed == 0,
        sweep.after(removed).phase == SweepPhase::GaveUp <==> removed > 0 && sweep.passes_left == 1,
        removed > 0 ==> sweep.after(removed).passes_left == sweep.passes_left - 1,
{
}

} // verus!
