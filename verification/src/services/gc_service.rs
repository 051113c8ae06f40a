//! Garbage collection: what a pass deletes, in what order, and how much space that gives back.

use std::sync::Arc;

use vstd::prelude::*;

use crate::configuration::{TrowConfig, SECS_PER_DAY};
use crate::repositories::manifest_repository::{
    lemma_manifests_left, lemma_uses_left, ManifestRepository,
};
use crate::repositories::models::{
    Blob, BlobUpload, BlobView, ManifestRowView, Tables, UploadView,
};
use crate::repositories::retention::{
    law_collection_adds_up, law_idle_collection_changes_nothing,
};
use crate::repositories::sweep::lemma_settled_stays;
use crate::services::gc_run::{GcPhase, GcRun};

verus! {

/// Something to delete.
#[derive(Clone, Debug, PartialEq)]
pub enum GcAction {
    /// The record of an upload.
    DeleteUploadRow(String),
    /// What has arrived of an upload.
    DeleteUploadFile(String),
    /// A manifest.
    DeleteManifest(String),
    /// The record of a blob.
    DeleteBlobRow(String),
    /// The content of a blob.
    DeleteBlobFile(String),
}

/// What a [`GcAction`] stands for.
#[verifier::ext_equal]
pub enum ActionView {
    DeleteUploadRow(Seq<char>),
    DeleteUploadFile(Seq<char>),
    DeleteManifest(Seq<char>),
    DeleteBlobRow(Seq<char>),
    DeleteBlobFile(Seq<char>),
}

impl DeepView for GcAction {
    type V = ActionView;

    open spec fn deep_view(&self) -> ActionView {
        match self {
            GcAction::DeleteUploadRow(s) => ActionView::DeleteUploadRow(s@),
            GcAction::DeleteUploadFile(s) => ActionView::DeleteUploadFile(s@),
            GcAction::DeleteManifest(s) => ActionView::DeleteManifest(s@),
            GcAction::DeleteBlobRow(s) => ActionView::DeleteBlobRow(s@),
            GcAction::DeleteBlobFile(s) => ActionView::DeleteBlobFile(s@),
        }
    }
}

/// What to delete, in this order and up to the first failure, and the bytes that gives back.
#[derive(Clone, Debug)]
pub struct Reclaim {
    pub actions: Vec<GcAction>,
    pub bytes: usize,
}

/// The proxied blobs to delete, in this order, and the bytes that gives back.
#[derive(Clone, Debug)]
pub struct ProxiedPlan {
    pub blobs: Vec<Blob>,
    pub bytes: usize,
    /// Whether that is as much as was needed.
    pub enough: bool,
}

/// How many bytes a recorded size stands for.
pub open spec fn byte_count(recorded: i64) -> nat {
    (recorded as usize) as nat
}

/// How many bytes recorded sizes stand for together.
pub open spec fn total_bytes(recorded: Seq<i64>) -> nat
    decreases recorded.len(),
{
    if recorded.len() == 0 {
        0
    } else {
        total_bytes(recorded.drop_last()) + byte_count(recorded.last())
    }
}

/// The recorded sizes of uploads.
pub open spec fn offsets(uploads: Seq<UploadView>) -> Seq<i64> {
    uploads.map_values(|u: UploadView| u.offset)
}

/// The recorded sizes of blobs.
pub open spec fn sizes(blobs: Seq<BlobView>) -> Seq<i64> {
    blobs.map_values(|b: BlobView| b.size)
}

/// For each upload its record, then its file.
pub open spec fn upload_actions(uploads: Seq<UploadView>) -> Seq<ActionView> {
    Seq::new(
        2 * uploads.len(),
        |k: int|
            if k % 2 == 0 {
                ActionView::DeleteUploadRow(uploads[k / 2].uuid)
            } else {
                ActionView::DeleteUploadFile(uploads[k / 2].uuid)
            },
    )
}

/// For each blob its record, then its file.
pub open spec fn blob_actions(blobs: Seq<BlobView>) -> Seq<ActionView> {
    Seq::new(
        2 * blobs.len(),
        |k: int|
            if k % 2 == 0 {
                ActionView::DeleteBlobRow(blobs[k / 2].digest)
            } else {
                ActionView::DeleteBlobFile(blobs[k / 2].digest)
            },
    )
}

/// The manifests that use a proxied blob, then its record, then its file.
pub open spec fn proxied_actions(digest: Seq<char>, manifests: Seq<Seq<char>>) -> Seq<ActionView> {
    manifests.map_values(|m: Seq<char>| ActionView::DeleteManifest(m)).push(
        ActionView::DeleteBlobRow(digest),
    ).push(ActionView::DeleteBlobFile(digest))
}

/// The bytes that the first `k` of the blobs give back.
pub open spec fn freed(blobs: Seq<BlobView>, k: int) -> nat {
    total_bytes(sizes(blobs.take(k)))
}

/// Whether the first `k` blobs are the ones to delete to get `needed` bytes back: not one more than
/// it takes, and all of them if they are not enough.
pub open spec fn suffices(blobs: Seq<BlobView>, needed: nat, k: int) -> bool {
    &&& 0 <= k <= blobs.len()
    &&& forall|j: int| 0 <= j < k ==> #[trigger] freed(blobs, j) < needed
    &&& freed(blobs, k) >= needed || k == blobs.len()
}

/// Whether the bytes that deleting them gives back can be counted.
pub open spec fn countable(blobs: Seq<BlobView>, needed: nat) -> bool {
    exists|k: int| #[trigger] suffices(blobs, needed, k) && freed(blobs, k) <= usize::MAX
}

/// A recorded size that can be held counts as it is.
pub proof fn law_natural_size_counts_as_is(recorded: i64)
    requires
        0 <= recorded <= usize::MAX,
    ensures
        byte_count(recorded) == recorded,
{
}

proof fn lemma_total_push(recorded: Seq<i64>, n: i64)
    ensures
        total_bytes(recorded.push(n)) == total_bytes(recorded) + byte_count(n),
{
    assert(recorded.push(n).drop_last() =~= recorded);
}

proof fn lemma_total_grows(recorded: Seq<i64>, i: int)
    requires
        0 <= i <= recorded.len(),
    ensures
        total_bytes(recorded.take(i)) <= total_bytes(recorded),
    decreases recorded.len() - i,
{
    if i < recorded.len() {
        assert(recorded.take(i + 1) =~= recorded.take(i).push(recorded[i]));
        lemma_total_push(recorded.take(i), recorded[i]);
        lemma_total_grows(recorded, i + 1);
    } else {
        assert(recorded.take(i) =~= recorded);
    }
}

/// Whether the bytes of the uploads can be counted together.
pub fn uploads_countable(uploads: &Vec<BlobUpload>) -> (r: bool)
    ensures
        r == (total_bytes(offsets(uploads.deep_view())) <= usize::MAX),
{
    let ghost all = offsets(uploads.deep_view());
    let mut sum: usize = 0;
    let mut i: usize = 0;
    while i < uploads.len()
        invariant
            i <= uploads@.len(),
            all == offsets(uploads.deep_view()),
            sum == total_bytes(all.take(i as int)),
        decreases uploads@.len() - i,
    {
        assert(all[i as int] == uploads@[i as int].offset);
        proof {
            assert(all.take(i + 1) =~= all.take(i as int).push(all[i as int]));
            lemma_total_push(all.take(i as int), all[i as int]);
            lemma_total_grows(all, i + 1);
        }
        match sum.checked_add(uploads[i].offset as usize) {
            Some(s) => {
                sum = s;
            },
            None => {
                return false;
            },
        }
        i = i + 1;
    }
    assert(all.take(all.len() as int) =~= all);
    true
}

/// Whether the bytes of the blobs can be counted together.
pub fn blobs_countable(blobs: &Vec<Blob>) -> (r: bool)
    ensures
        r == (total_bytes(sizes(blobs.deep_view())) <= usize::MAX),
{
    let ghost all = sizes(blobs.deep_view());
    let mut sum: usize = 0;
    let mut i: usize = 0;
    while i < blobs.len()
        invariant
            i <= blobs@.len(),
            all == sizes(blobs.deep_view()),
            sum == total_bytes(all.take(i as int)),
        decreases blobs@.len() - i,
    {
        assert(all[i as int] == blobs@[i as int].size);
        proof {
            assert(all.take(i + 1) =~= all.take(i as int).push(all[i as int]));
            lemma_total_push(all.take(i as int), all[i as int]);
            lemma_total_grows(all, i + 1);
        }
        match sum.checked_add(blobs[i].size as usize) {
            Some(s) => {
                sum = s;
            },
            None => {
                return false;
            },
        }
        i = i + 1;
    }
    assert(all.take(all.len() as int) =~= all);
    true
}

proof fn lemma_freed_step(blobs: Seq<BlobView>, k: int)
    requires
        0 <= k < blobs.len(),
    ensures
        freed(blobs, k + 1) == freed(blobs, k) + byte_count(blobs[k].size),
{
    assert(sizes(blobs.take(k + 1)) =~= sizes(blobs.take(k)).push(blobs[k].size));
    lemma_total_push(sizes(blobs.take(k)), blobs[k].size);
}

proof fn lemma_freed_grows(blobs: Seq<BlobView>, j: int, k: int)
    requires
        0 <= j <= k <= blobs.len(),
    ensures
        freed(blobs, j) <= freed(blobs, k),
    decreases k - j,
{
    if j < k {
        lemma_freed_step(blobs, k - 1);
        lemma_freed_grows(blobs, j, k - 1);
    }
}

/// How many blobs have to go is settled by how many bytes are needed, and the more bytes are needed
/// the more blobs go.
pub proof fn law_more_needed_deletes_no_less(blobs: Seq<BlobView>, needed: nat, k: int, more: nat, l: int)
    requires
        suffices(blobs, needed, k),
        suffices(blobs, more, l),
        needed <= more,
    ensures
        k <= l,
        needed == more ==> k == l,
{
    if l < k {
        assert(freed(blobs, l) < needed);
    }
    if k < l && needed == more {
        assert(freed(blobs, k) < more);
    }
}

/// As long as the first `k` blobs are not enough, the bytes of one more can be counted.
proof fn lemma_next_countable(blobs: Seq<BlobView>, needed: nat, k: int)
    requires
        0 <= k < blobs.len(),
        freed(blobs, k) < needed,
    ensures
        freed(blobs, k + 1) == freed(blobs, k) + byte_count(blobs[k].size),
        countable(blobs, needed) ==> freed(blobs, k + 1) <= usize::MAX,
{
    lemma_freed_step(blobs, k);
    if countable(blobs, needed) {
        let last = choose|last: int| #[trigger]
            suffices(blobs, needed, last) && freed(blobs, last) <= usize::MAX;
        if last <= k {
            lemma_freed_grows(blobs, last, k);
        } else {
            lemma_freed_grows(blobs, k + 1, last);
        }
    }
}

/// Whether the bytes can be counted while deleting proxied blobs until `space_needed` bytes are
/// given back.
pub fn proxied_countable(proxied: &Vec<Blob>, space_needed: usize) -> (r: bool)
    ensures
        r == countable(proxied.deep_view().reverse(), space_needed as nat),
{
    let ghost order = proxied.deep_view().reverse();
    let n: usize = proxied.len();
    let mut sum: usize = 0;
    let mut k: usize = 0;
    while k < n && sum < space_needed
        invariant
            k <= n,
            n == proxied@.len(),
            order == proxied.deep_view().reverse(),
            sum == freed(order, k as int),
            forall|j: int| 0 <= j < k ==> #[trigger] freed(order, j) < space_needed,
        decreases n - k,
    {
        assert(order[k as int] == proxied@[n - 1 - k].deep_view());
        proof {
            lemma_next_countable(order, space_needed as nat, k as int);
        }
        match sum.checked_add(proxied[n - 1 - k].size as usize) {
            Some(s) => {
                sum = s;
            },
            None => {
                return false;
            },
        }
        k = k + 1;
    }
    assert(suffices(order, space_needed as nat, k as int));
    true
}

/// The collector.
#[derive(Clone, Debug)]
pub struct GcService {
    config: Arc<TrowConfig>,
}

impl GcService {
    /// What the collector was configured with.
    pub closed spec fn config(self) -> TrowConfig {
        *self.config
    }

    pub fn new(config: Arc<TrowConfig>) -> (gc: GcService)
        ensures
            gc.config() == *config,
    {
        GcService { config }
    }

    /// How many bytes have to be given back, if any: as many as blobs and uploads take beyond the
    /// space that is available to them. There is nothing to give back where no limit is set.
    pub fn compute_space_to_reclaim(&self, blobs: usize, uploads: usize, space_available: usize) -> (r: Option<
        usize,
    >)
        requires
            self.config().config_file.registry_proxies.max_size is Some ==> blobs + uploads
                <= usize::MAX,
        ensures
            r is Some <==> self.config().config_file.registry_proxies.max_size is Some && blobs
                + uploads > space_available,
            r matches Some(needed) ==> needed == blobs + uploads - space_available,
    {
        if self.config.config_file.registry_proxies.max_size.is_none() {
            return None;
        }
        let space_taken: usize = blobs + uploads;
        if space_taken > space_available {
            Some(space_taken - space_available)
        } else {
            None
        }
    }

    /// Deletes uploads that nobody has continued.
    pub fn delete_stale_uploads(&self, stale: &Vec<BlobUpload>) -> (r: Reclaim)
        requires
            total_bytes(offsets(stale.deep_view())) <= usize::MAX,
        ensures
            r.actions.deep_view() == upload_actions(stale.deep_view()),
            r.bytes == total_bytes(offsets(stale.deep_view())),
            r.actions@.len() == 2 * stale@.len(),
            forall|i: int|
                #![trigger stale@[i]]
                0 <= i < stale@.len() ==> {
                    &&& r.actions@[2 * i] == GcAction::DeleteUploadRow(stale@[i].uuid)
                    &&& r.actions@[2 * i + 1] == GcAction::DeleteUploadFile(stale@[i].uuid)
                },
    {
        let ghost uploads = stale.deep_view();
        let ghost all = offsets(uploads);
        let mut actions: Vec<GcAction> = Vec::new();
        let mut bytes: usize = 0;
        let mut i: usize = 0;
        while i < stale.len()
            invariant
                i <= stale@.len(),
                uploads == stale.deep_view(),
                all == offsets(uploads),
                total_bytes(all) <= usize::MAX,
                bytes == total_bytes(all.take(i as int)),
                actions.deep_view() == upload_actions(uploads.take(i as int)),
                actions@.len() == 2 * i,
                forall|j: int|
                    #![trigger stale@[j]]
                    0 <= j < i ==> {
                        &&& actions@[2 * j] == GcAction::DeleteUploadRow(stale@[j].uuid)
                        &&& actions@[2 * j + 1] == GcAction::DeleteUploadFile(stale@[j].uuid)
                    },
            decreases stale@.len() - i,
        {
            let upload = &stale[i];
            let ghost before = actions.deep_view();
            assert(uploads[i as int] == upload.deep_view());
            actions.push(GcAction::DeleteUploadRow(upload.uuid.clone()));
            actions.push(GcAction::DeleteUploadFile(upload.uuid.clone()));
            proof {
                assert(actions.deep_view() =~= before.push(
                    ActionView::DeleteUploadRow(upload.uuid@),
                ).push(ActionView::DeleteUploadFile(upload.uuid@)));
                assert(actions.deep_view() =~= upload_actions(uploads.take(i + 1)));
                assert(all.take(i + 1) =~= all.take(i as int).push(upload.offset));
                lemma_total_push(all.take(i as int), upload.offset);
                lemma_total_grows(all, i + 1);
            }
            bytes = bytes + upload.offset as usize;
            i = i + 1;
        }
        proof {
            assert(uploads.take(uploads.len() as int) =~= uploads);
            assert(all.take(all.len() as int) =~= all);
        }
        Reclaim { actions, bytes }
    }

    /// Deletes blobs that nothing uses.
    pub fn delete_orphan_blobs(&self, orphans: &Vec<Blob>) -> (r: Reclaim)
        requires
            total_bytes(sizes(orphans.deep_view())) <= usize::MAX,
        ensures
            r.actions.deep_view() == blob_actions(orphans.deep_view()),
            r.bytes == total_bytes(sizes(orphans.deep_view())),
            r.actions@.len() == 2 * orphans@.len(),
            forall|i: int|
                #![trigger orphans@[i]]
                0 <= i < orphans@.len() ==> {
                    &&& r.actions@[2 * i] == GcAction::DeleteBlobRow(orphans@[i].digest)
                    &&& r.actions@[2 * i + 1] == GcAction::DeleteBlobFile(orphans@[i].digest)
                },
    {
        let ghost blobs = orphans.deep_view();
        let ghost all = sizes(blobs);
        let mut actions: Vec<GcAction> = Vec::new();
        let mut bytes: usize = 0;
        let mut i: usize = 0;
        while i < orphans.len()
            invariant
                i <= orphans@.len(),
                blobs == orphans.deep_view(),
                all == sizes(blobs),
                total_bytes(all) <= usize::MAX,
                bytes == total_bytes(all.take(i as int)),
                actions.deep_view() == blob_actions(blobs.take(i as int)),
                actions@.len() == 2 * i,
                forall|j: int|
                    #![trigger orphans@[j]]
                    0 <= j < i ==> {
                        &&& actions@[2 * j] == GcAction::DeleteBlobRow(orphans@[j].digest)
                        &&& actions@[2 * j + 1] == GcAction::DeleteBlobFile(orphans@[j].digest)
                    },
            decreases orphans@.len() - i,
        {
            let blob = &orphans[i];
            let ghost before = actions.deep_view();
            assert(blobs[i as int] == blob.deep_view());
            actions.push(GcAction::DeleteBlobRow(blob.digest.clone()));
            actions.push(GcAction::DeleteBlobFile(blob.digest.clone()));
            proof {
                assert(actions.deep_view() =~= before.push(
                    ActionView::DeleteBlobRow(blob.digest@),
                ).push(ActionView::DeleteBlobFile(blob.digest@)));
                assert(actions.deep_view() =~= blob_actions(blobs.take(i + 1)));
                assert(all.take(i + 1) =~= all.take(i as int).push(blob.size));
                lemma_total_push(all.take(i as int), blob.size);
                lemma_total_grows(all, i + 1);
            }
            bytes = bytes + blob.size as usize;
            i = i + 1;
        }
        proof {
            assert(blobs.take(blobs.len() as int) =~= blobs);
            assert(all.take(all.len() as int) =~= all);
        }
        Reclaim { actions, bytes }
    }

    /// Picks proxied blobs to delete, from the end of the list, until `space_needed` bytes are given
    /// back or none is left.
    pub fn delete_old_proxied_images(&self, proxied: Vec<Blob>, space_needed: usize) -> (r: ProxiedPlan)
        requires
            countable(proxied.deep_view().reverse(), space_needed as nat),
        ensures
            suffices(proxied.deep_view().reverse(), space_needed as nat, r.blobs@.len() as int),
            r.blobs.deep_view() == proxied.deep_view().reverse().take(r.blobs@.len() as int),
            r.bytes == freed(proxied.deep_view().reverse(), r.blobs@.len() as int),
            r.enough == (r.bytes >= space_needed),
            r.blobs@.len() <= proxied@.len(),
            r.blobs@ == proxied@.reverse().take(r.blobs@.len() as int),
            r.bytes >= space_needed || r.blobs@.len() == proxied@.len(),
            r.blobs@.len() > 0 ==> r.bytes - (r.blobs@.last().size as usize) < space_needed,
    {
        let ghost all = proxied.deep_view();
        let ghost order = all.reverse();
        let mut left = proxied;
        let mut blobs: Vec<Blob> = Vec::new();
        let mut bytes: usize = 0;
        while bytes < space_needed
            invariant
                all == proxied.deep_view(),
                order == all.reverse(),
                countable(order, space_needed as nat),
                blobs@.len() <= all.len(),
                left.deep_view() == all.take(all.len() - blobs@.len()),
                blobs.deep_view() == order.take(blobs@.len() as int),
                blobs@ == proxied@.reverse().take(blobs@.len() as int),
                left@ == proxied@.take(proxied@.len() - blobs@.len()),
                blobs@.len() > 0 ==> bytes - (blobs@.last().size as usize) < space_needed,
                bytes == freed(order, blobs@.len() as int),
                forall|j: int|
                    0 <= j < blobs@.len() ==> #[trigger] freed(order, j) < space_needed,
            decreases left@.len(),
        {
            let ghost k = blobs@.len() as int;
            let ghost rest = left.deep_view();
            let ghost taken = blobs.deep_view();
            let ghost taken_rows = blobs@;
            let ghost left_rows = left@;
            assert(rest.len() == all.len() - k);
            match left.pop() {
                None => {
                    return ProxiedPlan { blobs, bytes, enough: false };
                },
                Some(blob) => {
                    assert(rest.last() == blob.deep_view());
                    assert(order[k] == blob.deep_view());
                    proof {
                        lemma_next_countable(order, space_needed as nat, k);
                    }
                    bytes = bytes + blob.size as usize;
                    blobs.push(blob);
                    assert(blobs.deep_view() =~= taken.push(order[k]));
                    assert(order.take(k + 1) =~= order.take(k).push(order[k]));
                    assert(left.deep_view() =~= rest.drop_last());
                    assert(all.take(all.len() - k - 1) =~= rest.drop_last());
                    assert(left@ =~= left_rows.drop_last());
                    assert(left@ =~= proxied@.take(proxied@.len() - k - 1));
                    assert(left_rows.last() == proxied@.reverse()[k]);
                    assert(blobs@ =~= taken_rows.push(proxied@.reverse()[k]));
                    assert(blobs@ =~= proxied@.reverse().take(k + 1));
                },
            }
        }
        ProxiedPlan { blobs, bytes, enough: true }
    }

    /// Deletes a proxied blob, and before it the manifests that use it.
    pub fn proxied_blob_actions(&self, blob: &Blob, manifests: &Vec<String>) -> (actions: Vec<GcAction>)
        ensures
            actions.deep_view() == proxied_actions(blob.digest@, manifests.deep_view()),
            actions@.len() == manifests@.len() + 2,
            forall|i: int|
                #![trigger manifests@[i]]
                0 <= i < manifests@.len() ==> actions@[i] == GcAction::DeleteManifest(manifests@[i]),
            actions@[manifests@.len() as int] == GcAction::DeleteBlobRow(blob.digest),
            actions@[manifests@.len() as int + 1] == GcAction::DeleteBlobFile(blob.digest),
    {
        let ghost all = manifests.deep_view();
        let ghost delete = |m: Seq<char>| ActionView::DeleteManifest(m);
        let mut actions: Vec<GcAction> = Vec::new();
        let mut i: usize = 0;
        while i < manifests.len()
            invariant
                i <= manifests@.len(),
                all == manifests.deep_view(),
                delete == (|m: Seq<char>| ActionView::DeleteManifest(m)),
                actions.deep_view() == all.take(i as int).map_values(delete),
                actions@.len() == i,
                forall|j: int|
                    #![trigger manifests@[j]]
                    0 <= j < i ==> actions@[j] == GcAction::DeleteManifest(manifests@[j]),
            decreases manifests@.len() - i,
        {
            let ghost before = actions.deep_view();
            actions.push(GcAction::DeleteManifest(manifests[i].clone()));
            assert(actions.deep_view() =~= before.push(delete(all[i as int])));
            assert(all.take(i + 1).map_values(delete) =~= before.push(delete(all[i as int])));
            i = i + 1;
        }
        assert(all.take(all.len() as int) =~= all);
        let ghost first = actions.deep_view();
        actions.push(GcAction::DeleteBlobRow(blob.digest.clone()));
        actions.push(GcAction::DeleteBlobFile(blob.digest.clone()));
        assert(actions.deep_view() =~= first.push(ActionView::DeleteBlobRow(blob.digest@)).push(
            ActionView::DeleteBlobFile(blob.digest@),
        ));
        actions
    }
}

impl GcService {
    /// The time before which a config blob has to have been accessed last for its manifest to be
    /// reclaimed at the time `now`.
    pub open spec fn cutoff(self, now: int) -> int {
        now
            - self.config().config_file.garbage_collection.untagged_manifest_retention_days
            * SECS_PER_DAY
    }

    /// Deletes manifests that nothing worth keeping refers to, which unpins their blobs.
    ///
    /// An index is collectable only once nothing it lists is left, so deleting the children of an
    /// orphaned multi-arch image is what makes the index itself collectable on the next pass. This
    /// runs to a fixpoint: it goes on until a pass deletes nothing. Each pass before that deletes at
    /// least one row of a finite table.
    ///
    /// Hands back the digests of the deleted manifests.
    pub fn delete_untagged_manifests(&self, manifests: &mut ManifestRepository, now: i64) -> (deleted: Vec<
        String,
    >)
        ensures
            final(manifests)@ == old(manifests)@.swept(
                self.cutoff(now as int),
                old(manifests)@.manifests.len(),
            ),
            deleted.deep_view() == old(manifests)@.swept_digests(
                self.cutoff(now as int),
                old(manifests)@.manifests.len(),
            ),
            final(manifests)@.condemned(self.cutoff(now as int)).len() == 0,
            final(manifests).tags@ == old(manifests).tags@,
            final(manifests).blobs@ == old(manifests).blobs@,
            final(manifests).repo_blobs@ == old(manifests).repo_blobs@,
            deleted@.len() + final(manifests).manifests@.len() == old(manifests).manifests@.len(),
    {
        let retention_secs: i64 =
            self.config.config_file.garbage_collection.untagged_manifest_retention_secs();
        let ghost t = manifests@;
        let ghost at = self.cutoff(now as int);
        let ghost mut pass: nat = 0;
        let mut deleted: Vec<String> = Vec::new();
        loop
            invariant
                t == old(manifests)@,
                at == self.cutoff(now as int),
                at == now - retention_secs,
                pass + manifests@.manifests.len() <= t.manifests.len(),
                manifests@ == t.swept(at, pass),
                deleted.deep_view() == t.swept_digests(at, pass),
                manifests.tags@ == old(manifests).tags@,
                manifests.blobs@ == old(manifests).blobs@,
                manifests.repo_blobs@ == old(manifests).repo_blobs@,
                deleted@.len() + manifests.manifests@.len() == old(manifests).manifests@.len(),
            decreases manifests@.manifests.len(),
        {
            let ghost before = deleted.deep_view();
            let mut pass_deleted = manifests.delete_untagged_older_than(retention_secs, now);
            let ghost names = pass_deleted.deep_view();
            assert(names.len() == t.swept(at, pass).condemned(at).len());
            if pass_deleted.len() == 0 {
                proof {
                    lemma_settled_stays(t, at, pass, t.manifests.len());
                    law_idle_collection_changes_nothing(t.swept(at, pass), at);
                }
                return deleted;
            }
            deleted.append(&mut pass_deleted);
            proof {
                assert(deleted.deep_view() =~= before + names);
                law_collection_adds_up(t.swept(at, pass), at);
                pass = pass + 1;
            }
        }
    }
}

impl GcService {
    /// Begins a pass that has to give back `space_to_reclaim` bytes, if any.
    pub fn run_once(&self, space_to_reclaim: Option<usize>) -> (run: GcRun)
        ensures
            run == GcRun::start(space_to_reclaim),
            run.phase == GcPhase::StaleUploads,
            run.space_required == space_to_reclaim,
            run.space_reclaimed == 0,
    {
        GcRun { phase: GcPhase::StaleUploads, space_required: space_to_reclaim, space_reclaimed: 0 }
    }
}

/// The text that `size::Size::from_bytes(bytes).to_string()` gives.
pub uninterp spec fn size_text(bytes: nat) -> Seq<char>;

/// Calls [`size::Size::from_bytes`] and then `to_string` on the result. The text is a function of
/// the number of bytes alone; what it looks like is not stated.
#[verifier::external_body]
fn size_to_string(bytes: usize) -> (text: String)
    ensures
        text@ == size_text(bytes as nat),
{
    size::Size::from_bytes(bytes).to_string()
}

/// The number of bytes, for people to read.
pub fn bytes_humanstring(bytes: usize) -> (text: String)
    ensures
        text@ == size_text(bytes as nat),
{
    size_to_string(bytes)
}

impl Reclaim {
    /// How much was given back, if it is worth telling.
    pub fn notice(&self) -> (r: Option<String>)
        ensures
            r.deep_view() == (if self.bytes > 0 {
                Some(size_text(self.bytes as nat))
            } else {
                None
            }),
    {
        if self.bytes > 0 {
            Some(bytes_humanstring(self.bytes))
        } else {
            None
        }
    }
}

impl ProxiedPlan {
    /// How much was given back, if it is worth telling. Nothing is told here where that is not as
    /// much as was needed.
    pub fn notice(&self) -> (r: Option<String>)
        ensures
            r.deep_view() == (if self.enough && self.bytes > 0 {
                Some(size_text(self.bytes as nat))
            } else {
                None
            }),
    {
        if self.enough && self.bytes > 0 {
            Some(bytes_humanstring(self.bytes))
        } else {
            None
        }
    }
}

/// Whether a blob is evicted by deleting the manifests in `users`: they are the ones that use it.
pub open spec fn evicts(before: Tables, blob: Seq<char>, users: Seq<Seq<char>>, after: Tables) -> bool {
    &&& forall|d: Seq<char>| users.contains(d) <==> #[trigger] before.uses_blob(d, blob)
    &&& after == before.without_manifests(users)
}

/// Whether the blobs are evicted one after the other: `states` are the tables before the first, in
/// between, and after the last, and `users` the manifests that are deleted for each.
pub open spec fn is_eviction(blobs: Seq<BlobView>, states: Seq<Tables>, users: Seq<Seq<Seq<char>>>) -> bool {
    &&& states.len() == blobs.len() + 1
    &&& users.len() == blobs.len()
    &&& forall|i: int|
        0 <= i < blobs.len() ==> evicts(
            states[i],
            (#[trigger] blobs[i]).digest,
            users[i],
            states[i + 1],
        )
}

/// Whether the digest uses one of the first `n` blobs.
spec fn uses_any(t: Tables, d: Seq<char>, blobs: Seq<BlobView>, n: int) -> bool {
    exists|i: int| 0 <= i < n && t.uses_blob(d, (#[trigger] blobs[i]).digest)
}

proof fn lemma_eviction_step(
    blobs: Seq<BlobView>,
    states: Seq<Tables>,
    users: Seq<Seq<Seq<char>>>,
    n: int,
    m: ManifestRowView,
    d: Seq<char>,
    blob: Seq<char>,
)
    requires
        is_eviction(blobs, states, users),
        0 <= n <= blobs.len(),
    ensures
        states[n].manifests.contains(m) <==> states[0].manifests.contains(m) && !uses_any(
            states[0],
            m.digest,
            blobs,
            n,
        ),
        states[n].uses_blob(d, blob) <==> states[0].uses_blob(d, blob) && !uses_any(
            states[0],
            d,
            blobs,
            n,
        ),
    decreases n,
{
    if n > 0 {
        let i = n - 1;
        let next = blobs[i].digest;
        assert(evicts(states[i], blobs[i].digest, users[i], states[i + 1]));
        lemma_manifests_left(states[i], users[i], m);
        lemma_uses_left(states[i], users[i], d, blob);
        lemma_eviction_step(blobs, states, users, i, m, d, blob);
        lemma_eviction_step(blobs, states, users, i, m, m.digest, next);
        lemma_eviction_step(blobs, states, users, i, m, d, next);
        assert(users[i].contains(m.digest) <==> states[i].uses_blob(m.digest, next));
        assert(users[i].contains(d) <==> states[i].uses_blob(d, next));
        lemma_uses_one_more(states[0], m.digest, blobs, n);
        lemma_uses_one_more(states[0], d, blobs, n);
    }
}

proof fn lemma_uses_one_more(t: Tables, d: Seq<char>, blobs: Seq<BlobView>, n: int)
    requires
        0 < n <= blobs.len(),
    ensures
        uses_any(t, d, blobs, n) <==> uses_any(t, d, blobs, n - 1) || t.uses_blob(
            d,
            blobs[n - 1].digest,
        ),
{
}

/// Evicting the planned blobs leaves exactly the manifests that used none of them, and no planned
/// blob is used any more.
pub proof fn law_eviction_leaves_the_unconcerned(
    plan: ProxiedPlan,
    states: Seq<Tables>,
    users: Seq<Seq<Seq<char>>>,
    m: ManifestRowView,
)
    requires
        is_eviction(plan.blobs.deep_view(), states, users),
    ensures
        states.last().manifests.contains(m) <==> states[0].manifests.contains(m) && forall|i: int|
            0 <= i < plan.blobs@.len() ==> !states[0].uses_blob(
                m.digest,
                (#[trigger] plan.blobs@[i]).digest@,
            ),
        forall|d: Seq<char>, i: int|
            #![trigger states.last().uses_blob(d, plan.blobs@[i].digest@)]
            0 <= i < plan.blobs@.len() ==> !states.last().uses_blob(d, plan.blobs@[i].digest@),
{
    let blobs = plan.blobs.deep_view();
    let n = blobs.len() as int;
    assert(forall|i: int| 0 <= i < n ==> (#[trigger] blobs[i]).digest == plan.blobs@[i].digest@);
    lemma_eviction_step(blobs, states, users, n, m, m.digest, m.digest);
    if uses_any(states[0], m.digest, blobs, n) {
        let i = choose|i: int|
            0 <= i < n && states[0].uses_blob(m.digest, (#[trigger] blobs[i]).digest);
        assert(states[0].uses_blob(m.digest, plan.blobs@[i].digest@));
    } else {
        assert forall|i: int| 0 <= i < plan.blobs@.len() implies !states[0].uses_blob(
            m.digest,
            (#[trigger] plan.blobs@[i]).digest@,
        ) by {
            assert(blobs[i].digest == plan.blobs@[i].digest@);
        }
    }
    assert forall|d: Seq<char>, i: int|
        #![trigger states.last().uses_blob(d, plan.blobs@[i].digest@)]
        0 <= i < plan.blobs@.len() implies !states.last().uses_blob(d, plan.blobs@[i].digest@) by {
        lemma_eviction_step(blobs, states, users, n, m, d, plan.blobs@[i].digest@);
        assert(blobs[i].digest == plan.blobs@[i].digest@);
    }
}

} // verus!
