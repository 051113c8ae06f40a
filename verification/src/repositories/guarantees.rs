//! What the queries guarantee, said of the rows themselves.

use vstd::prelude::*;

use crate::repositories::manifest_repository::{manifest_of, ManifestRepository};
use crate::repositories::models::{
    Blob, BlobRow, BlobUpload, Manifest, ManifestBlobAssoc, ManifestBlobView, ManifestReferrer,
    ManifestRow, ManifestRowView, ManifestView, ReferrerView, RepoBlobAssoc, RepoBlobView, Tables,
    TagRow, TagView,
};
use crate::repositories::retention::{
    is_closed, law_collection_adds_up, lemma_kept_is_inside, lemma_survives, lists, row_closed,
    row_leads,
};
use crate::repositories::sweep::{
    law_kept_survives_sweep, law_sweep_adds_up, law_sweep_reaches_fixpoint, lemma_sweep_only_deletes,
};
use crate::sequences::{
    lemma_filter_alike, lemma_filter_all, lemma_filter_contains_iff, lemma_filter_filter,
    lemma_filter_take, lemma_push_contains,
};

verus! {

/// Every row is in the tables, in its place.
pub proof fn law_tables_hold_every_row(repo: ManifestRepository)
    ensures
        repo@.manifests.len() == repo.manifests@.len(),
        repo@.tags.len() == repo.tags@.len(),
        repo@.blobs.len() == repo.blobs@.len(),
        repo@.manifest_blobs.len() == repo.manifest_blobs@.len(),
        repo@.repo_blobs.len() == repo.repo_blobs@.len(),
        forall|i: int|
            0 <= i < repo.manifests@.len() ==> #[trigger] repo@.manifests[i]
                == repo.manifests@[i].deep_view(),
        forall|i: int|
            0 <= i < repo.tags@.len() ==> #[trigger] repo@.tags[i] == repo.tags@[i].deep_view(),
        forall|i: int|
            0 <= i < repo.blobs@.len() ==> #[trigger] repo@.blobs[i] == repo.blobs@[i].deep_view(),
        forall|i: int|
            0 <= i < repo.manifest_blobs@.len() ==> #[trigger] repo@.manifest_blobs[i]
                == repo.manifest_blobs@[i].deep_view(),
        forall|i: int|
            0 <= i < repo.repo_blobs@.len() ==> #[trigger] repo@.repo_blobs[i]
                == repo.repo_blobs@[i].deep_view(),
{
}

/// A row stands for what its fields hold.
pub proof fn law_rows_stand_for_their_fields(
    manifest: ManifestRow,
    tag: TagRow,
    blob: BlobRow,
    used: ManifestBlobAssoc,
    held: RepoBlobAssoc,
)
    ensures
        manifest.deep_view().digest == manifest.digest@,
        manifest.deep_view().blob == manifest.blob@,
        manifest.deep_view().json.text == manifest.json.text@,
        manifest.deep_view().json.decodes == manifest.json.decodes,
        manifest.json.media_type matches Some(s) ==> manifest.deep_view().json.media_type == Some(s@),
        manifest.json.media_type is None ==> manifest.deep_view().json.media_type is None,
        manifest.json.config matches Some(s) ==> manifest.deep_view().json.config == Some(s@),
        manifest.json.config is None ==> manifest.deep_view().json.config is None,
        manifest.json.subject matches Some(s) ==> manifest.deep_view().json.subject == Some(s@),
        manifest.json.subject is None ==> manifest.deep_view().json.subject is None,
        manifest.json.manifests is None ==> manifest.deep_view().json.manifests is None,
        manifest.json.manifests matches Some(entries) ==> {
            &&& manifest.deep_view().json.manifests is Some
            &&& manifest.deep_view().json.manifests->0.len() == entries@.len()
            &&& forall|k: int|
                #![trigger entries@[k]]
                0 <= k < entries@.len() ==> {
                    &&& entries@[k] matches Some(s) ==> manifest.deep_view().json.manifests->0[k]
                        == Some(s@)
                    &&& entries@[k] is None ==> manifest.deep_view().json.manifests->0[k] is None
                }
        },
        tag.deep_view().tag == tag.tag@,
        tag.deep_view().repo == tag.repo@,
        tag.deep_view().manifest_digest == tag.manifest_digest@,
        blob.deep_view().digest == blob.digest@,
        blob.deep_view().last_accessed == blob.last_accessed,
        used.deep_view().manifest_digest == used.manifest_digest@,
        used.deep_view().blob_digest == used.blob_digest@,
        held.deep_view().repo_name == held.repo_name@,
        held.manifest_digest matches Some(s) ==> held.deep_view().manifest_digest == Some(s@),
        held.manifest_digest is None ==> held.deep_view().manifest_digest is None,
{
}

/// An answer stands for what its fields hold.
pub proof fn law_answers_stand_for_their_fields(
    manifest: Manifest,
    referrer: ManifestReferrer,
    blob: Blob,
    upload: BlobUpload,
)
    ensures
        manifest.deep_view().blob == manifest.blob@,
        manifest.deep_view().digest == manifest.digest@,
        manifest.media_type matches Some(s) ==> manifest.deep_view().media_type == Some(s@),
        manifest.media_type is None ==> manifest.deep_view().media_type is None,
        referrer.deep_view().content == referrer.content@,
        referrer.deep_view().digest == referrer.digest@,
        referrer.deep_view().size == referrer.size,
        blob.deep_view().digest == blob.digest@,
        blob.deep_view().size == blob.size,
        upload.deep_view().uuid == upload.uuid@,
        upload.deep_view().offset == upload.offset,
{
}

/// A manifest that any tag of any repository points at is not deleted, by one collection or by many.
pub proof fn law_every_tag_protects(t: Tables, cutoff: int, n: nat, i: int, m: ManifestRowView)
    requires
        0 <= i < t.tags.len(),
        t.manifests.contains(m),
        t.tags[i].manifest_digest == m.digest,
    ensures
        t.collected(cutoff).manifests.contains(m),
        t.swept(cutoff, n).manifests.contains(m),
{
    let chain = seq![m.digest];
    let links = seq![m];
    law_protected_manifest_stays(t, cutoff, n, chain, links, m);
}

/// A manifest whose config blob was accessed at the cutoff or later is not deleted.
pub proof fn law_every_recent_config_protects(t: Tables, cutoff: int, n: nat, j: int, m: ManifestRowView)
    requires
        0 <= j < t.blobs.len(),
        t.manifests.contains(m),
        m.json.config == Some(t.blobs[j].digest),
        t.blobs[j].last_accessed >= cutoff,
    ensures
        t.collected(cutoff).manifests.contains(m),
        t.swept(cutoff, n).manifests.contains(m),
{
    let i = choose|i: int| 0 <= i < t.manifests.len() && t.manifests[i] == m;
    assert(t.manifests[i].json.config == Some(t.blobs[j].digest));
    let chain = seq![m.digest];
    let links = seq![m];
    law_protected_manifest_stays(t, cutoff, n, chain, links, m);
}

/// Protection is handed on: from a digest that a tag points at, or that a manifest with a recently
/// accessed config blob has, to whatever an index of that digest lists and to whatever has that
/// digest as its subject, and so on. Nothing that is reached that way is deleted.
///
/// `links[k]` is the manifest that leads from `chain[k - 1]` to `chain[k]`.
pub proof fn law_protected_manifest_stays(
    t: Tables,
    cutoff: int,
    n: nat,
    chain: Seq<Seq<char>>,
    links: Seq<ManifestRowView>,
    m: ManifestRowView,
)
    requires
        t.manifests.contains(m),
        chain.len() > 0,
        chain.last() == m.digest,
        links.len() == chain.len(),
        (exists|i: int|
            0 <= i < t.tags.len() && (#[trigger] t.tags[i]).manifest_digest == chain[0]) || (exists|
            i: int,
            j: int,
        |
            0 <= i < t.manifests.len() && 0 <= j < t.blobs.len() && (#[trigger] t.manifests[i]).digest
                == chain[0] && t.manifests[i].json.config == Some((#[trigger] t.blobs[j]).digest)
                && t.blobs[j].last_accessed >= cutoff),
        forall|k: int|
            #![trigger links[k]]
            1 <= k < chain.len() ==> t.manifests.contains(links[k]) && ((links[k].digest == chain[k
                - 1] && links[k].json.manifests is Some && links[k].json.manifests->0.contains(
                Some(chain[k]),
            )) || (links[k].json.subject == Some(chain[k - 1]) && links[k].digest == chain[k])),
    ensures
        t.collected(cutoff).manifests.contains(m),
        t.swept(cutoff, n).manifests.contains(m),
{
    assert(t.is_root(cutoff, chain[0])) by {
        if exists|i: int| 0 <= i < t.tags.len() && (#[trigger] t.tags[i]).manifest_digest == chain[0] {
            assert(t.is_tagged(chain[0]));
        } else {
            let (i, j) = choose|i: int, j: int|
                0 <= i < t.manifests.len() && 0 <= j < t.blobs.len() && (
                #[trigger] t.manifests[i]).digest == chain[0] && t.manifests[i].json.config == Some(
                    (#[trigger] t.blobs[j]).digest,
                ) && t.blobs[j].last_accessed >= cutoff;
            assert(t.has_blob_since(t.blobs[j].digest, cutoff));
            assert(t.is_warm(t.manifests[i], cutoff));
        }
    }
    assert forall|k: int| 1 <= k < chain.len() implies t.leads(chain[k - 1], #[trigger] chain[k]) by {
        let link = links[k];
        let i = choose|i: int| 0 <= i < t.manifests.len() && t.manifests[i] == link;
        assert(row_leads(t.manifests[i], chain[k - 1], chain[k]));
    }
    assert(t.is_chain(cutoff, chain));
    assert(t.keeps(cutoff, m.digest));
    lemma_survives(t, cutoff, m);
    law_kept_survives_sweep(t, cutoff, n, m);
}

/// What no protection reaches is deleted, if its config blob is stored or if it is an index that
/// lists nothing stored. That no protection reaches it is shown by any set of digests without it that
/// holds all that tags point at, all whose config blobs are recent, and whatever protection would be
/// handed on to.
pub proof fn law_unprotected_manifest_goes(t: Tables, cutoff: int, protected: Set<Seq<char>>, m: ManifestRowView)
    requires
        forall|i: int|
            0 <= i < t.tags.len() ==> protected.contains((#[trigger] t.tags[i]).manifest_digest),
        forall|i: int, j: int|
            0 <= i < t.manifests.len() && 0 <= j < t.blobs.len()
                && (#[trigger] t.manifests[i]).json.config == Some((#[trigger] t.blobs[j]).digest)
                && t.blobs[j].last_accessed >= cutoff ==> protected.contains(t.manifests[i].digest),
        forall|i: int, d: Seq<char>|
            #![trigger t.manifests[i], protected.contains(d)]
            0 <= i < t.manifests.len() && protected.contains(t.manifests[i].digest)
                && t.manifests[i].json.manifests is Some && t.manifests[i].json.manifests->0.contains(
                Some(d),
            ) ==> protected.contains(d),
        forall|i: int|
            0 <= i < t.manifests.len() && (#[trigger] t.manifests[i]).json.subject is Some
                && protected.contains(t.manifests[i].json.subject->0) ==> protected.contains(
                t.manifests[i].digest,
            ),
        !protected.contains(m.digest),
        (exists|j: int|
            0 <= j < t.blobs.len() && m.json.config == Some((#[trigger] t.blobs[j]).digest)) || (
        m.json.manifests is Some && forall|i: int|
            0 <= i < t.manifests.len() ==> !m.json.manifests->0.contains(
                Some((#[trigger] t.manifests[i]).digest),
            )),
    ensures
        !t.collected(cutoff).manifests.contains(m),
{
    lemma_protected_is_closed(t, cutoff, protected);
    if t.keeps(cutoff, m.digest) {
        lemma_kept_is_inside(t, cutoff, protected, m.digest);
    }
    assert(t.condemns(cutoff, m)) by {
        if exists|j: int| 0 <= j < t.blobs.len() && m.json.config == Some((#[trigger] t.blobs[j]).digest) {
            let j = choose|j: int|
                0 <= j < t.blobs.len() && m.json.config == Some((#[trigger] t.blobs[j]).digest);
            assert(t.has_blob(t.blobs[j].digest));
        } else if t.lists_stored(m) {
            let i = choose|i: int|
                0 <= i < t.manifests.len() && lists(m, (#[trigger] t.manifests[i]).digest);
            assert(m.json.manifests->0.contains(Some(t.manifests[i].digest)));
        }
    }
    lemma_survives(t, cutoff, m);
}

proof fn lemma_protected_is_closed(t: Tables, cutoff: int, protected: Set<Seq<char>>)
    requires
        forall|i: int|
            0 <= i < t.tags.len() ==> protected.contains((#[trigger] t.tags[i]).manifest_digest),
        forall|i: int, j: int|
            0 <= i < t.manifests.len() && 0 <= j < t.blobs.len()
                && (#[trigger] t.manifests[i]).json.config == Some((#[trigger] t.blobs[j]).digest)
                && t.blobs[j].last_accessed >= cutoff ==> protected.contains(t.manifests[i].digest),
        forall|i: int, d: Seq<char>|
            #![trigger t.manifests[i], protected.contains(d)]
            0 <= i < t.manifests.len() && protected.contains(t.manifests[i].digest)
                && t.manifests[i].json.manifests is Some && t.manifests[i].json.manifests->0.contains(
                Some(d),
            ) ==> protected.contains(d),
        forall|i: int|
            0 <= i < t.manifests.len() && (#[trigger] t.manifests[i]).json.subject is Some
                && protected.contains(t.manifests[i].json.subject->0) ==> protected.contains(
                t.manifests[i].digest,
            ),
    ensures
        is_closed(t, cutoff, protected),
{
    assert forall|d: Seq<char>| #[trigger] t.is_root(cutoff, d) implies protected.contains(d) by {
        if t.is_tagged(d) {
        } else {
            let i = choose|i: int|
                0 <= i < t.manifests.len() && (#[trigger] t.manifests[i]).digest == d && t.is_warm(
                    t.manifests[i],
                    cutoff,
                );
            let c = t.manifests[i].json.config->0;
            let j = choose|j: int|
                0 <= j < t.blobs.len() && (#[trigger] t.blobs[j]).digest == c
                    && t.blobs[j].last_accessed >= cutoff;
            assert(t.manifests[i].json.config == Some(t.blobs[j].digest));
        }
    }
    assert forall|i: int| 0 <= i < t.manifests.len() implies row_closed(
        #[trigger] t.manifests[i],
        protected,
    ) by {
        assert forall|from: Seq<char>, to: Seq<char>|
            protected.contains(from) && #[trigger] row_leads(t.manifests[i], from, to) implies protected.contains(
            to,
        ) by {
            if t.manifests[i].digest == from && lists(t.manifests[i], to) {
                assert(t.manifests[i].json.manifests->0.contains(Some(to)));
            }
        }
    }
}

/// A manifest whose config blob is not stored is not deleted, unless it is an index that lists
/// nothing stored.
pub proof fn law_manifest_without_clock_stays(t: Tables, cutoff: int, m: ManifestRowView)
    requires
        t.manifests.contains(m),
        forall|j: int| 0 <= j < t.blobs.len() ==> m.json.config != Some((#[trigger] t.blobs[j]).digest),
        m.json.manifests is None || exists|i: int|
            0 <= i < t.manifests.len() && m.json.manifests->0.contains(
                Some((#[trigger] t.manifests[i]).digest),
            ),
    ensures
        t.collected(cutoff).manifests.contains(m),
{
    assert(!t.can_age(m)) by {
        if t.can_age(m) {
            let c = m.json.config->0;
            let j = choose|j: int| 0 <= j < t.blobs.len() && (#[trigger] t.blobs[j]).digest == c;
            assert(m.json.config == Some(t.blobs[j].digest));
        }
    }
    if m.json.manifests is Some {
        let i = choose|i: int|
            0 <= i < t.manifests.len() && m.json.manifests->0.contains(
                Some((#[trigger] t.manifests[i]).digest),
            );
        assert(lists(m, t.manifests[i].digest));
    }
    lemma_survives(t, cutoff, m);
}

/// A collection deletes whole manifests, leaves the others in their order, and reports exactly the
/// deleted ones. It forgets what belongs to a deleted manifest, and touches nothing else.
pub proof fn law_collection_deletes_manifests_only(t: Tables, cutoff: int)
    ensures
        ({
            let after = t.collected(cutoff);
            &&& after.tags == t.tags
            &&& after.blobs == t.blobs
            &&& after.repo_blobs == t.repo_blobs
            &&& after.manifests == t.manifests.filter(|m: ManifestRowView| after.manifests.contains(m))
            &&& t.condemned(cutoff) == t.manifests.filter(
                |m: ManifestRowView| !after.manifests.contains(m),
            )
            &&& t.condemned(cutoff).len() + after.manifests.len() == t.manifests.len()
            &&& after.manifest_blobs == t.manifest_blobs.filter(
                |a: ManifestBlobView|
                    forall|i: int|
                        0 <= i < t.manifests.len() && (#[trigger] t.manifests[i]).digest
                            == a.manifest_digest ==> after.manifests.contains(t.manifests[i]),
            )
        }),
{
    let after = t.collected(cutoff);
    law_collection_adds_up(t, cutoff);
    assert forall|i: int| 0 <= i < t.manifests.len() implies after.manifests.contains(
        #[trigger] t.manifests[i],
    ) == !t.condemns(cutoff, t.manifests[i]) by {
        assert(t.manifests.contains(t.manifests[i]));
        lemma_survives(t, cutoff, t.manifests[i]);
    }
    lemma_filter_alike(
        t.manifests,
        |m: ManifestRowView| !t.condemns(cutoff, m),
        |m: ManifestRowView| after.manifests.contains(m),
    );
    lemma_filter_alike(
        t.manifests,
        |m: ManifestRowView| t.condemns(cutoff, m),
        |m: ManifestRowView| !after.manifests.contains(m),
    );
    let left = |a: ManifestBlobView|
        forall|i: int|
            0 <= i < t.manifests.len() && (#[trigger] t.manifests[i]).digest == a.manifest_digest
                ==> after.manifests.contains(t.manifests[i]);
    assert forall|k: int| 0 <= k < t.manifest_blobs.len() implies left(
        #[trigger] t.manifest_blobs[k],
    ) == !t.condemns_digest(cutoff, t.manifest_blobs[k].manifest_digest) by {
        let d = t.manifest_blobs[k].manifest_digest;
        if t.condemns_digest(cutoff, d) {
            let i = choose|i: int|
                0 <= i < t.manifests.len() && (#[trigger] t.manifests[i]).digest == d && t.condemns(
                    cutoff,
                    t.manifests[i],
                );
            assert(!after.manifests.contains(t.manifests[i]));
        } else {
            assert forall|i: int|
                0 <= i < t.manifests.len() && (#[trigger] t.manifests[i]).digest == d implies after.manifests.contains(
            t.manifests[i]) by {
                if t.condemns(cutoff, t.manifests[i]) {
                    assert(t.condemns_digest(cutoff, d));
                }
            }
        }
    }
    lemma_filter_alike(
        t.manifest_blobs,
        |a: ManifestBlobView| !t.condemns_digest(cutoff, a.manifest_digest),
        left,
    );
}

/// However many collections there are, they delete whole manifests, leave the others in their order,
/// report every deleted one, forget what belongs to a deleted manifest, and touch nothing else.
pub proof fn law_sweep_deletes_manifests_only(t: Tables, cutoff: int, n: nat)
    ensures
        ({
            let after = t.swept(cutoff, n);
            &&& after.tags == t.tags
            &&& after.blobs == t.blobs
            &&& after.repo_blobs == t.repo_blobs
            &&& after.manifests == t.manifests.filter(|m: ManifestRowView| after.manifests.contains(m))
            &&& t.swept_digests(cutoff, n).len() + after.manifests.len() == t.manifests.len()
            &&& forall|d: Seq<char>| #[trigger]
                t.swept_digests(cutoff, n).contains(d) <==> exists|i: int|
                    0 <= i < t.manifests.len() && (#[trigger] t.manifests[i]).digest == d
                        && !after.manifests.contains(t.manifests[i])
            &&& after.manifest_blobs == t.manifest_blobs.filter(
                |a: ManifestBlobView|
                    forall|i: int|
                        0 <= i < t.manifests.len() && (#[trigger] t.manifests[i]).digest
                            == a.manifest_digest ==> after.manifests.contains(t.manifests[i]),
            )
        }),
    decreases n,
{
    let after = t.swept(cutoff, n);
    law_sweep_adds_up(t, cutoff, n);
    lemma_swept_manifests(t, cutoff, n);
    lemma_swept_uses(t, cutoff, n);
    assert forall|d: Seq<char>| #[trigger] t.swept_digests(cutoff, n).contains(d) <==> exists|i: int|
        0 <= i < t.manifests.len() && (#[trigger] t.manifests[i]).digest == d
            && !after.manifests.contains(t.manifests[i]) by {
        lemma_swept_digests(t, cutoff, n, d);
    }
    if n > 0 {
        law_sweep_deletes_manifests_only(t, cutoff, (n - 1) as nat);
    }
}

proof fn lemma_swept_manifests(t: Tables, cutoff: int, n: nat)
    ensures
        t.swept(cutoff, n).manifests == t.manifests.filter(
            |m: ManifestRowView| t.swept(cutoff, n).manifests.contains(m),
        ),
    decreases n,
{
    let after = t.swept(cutoff, n);
    let left = |m: ManifestRowView| after.manifests.contains(m);
    if n == 0 {
        assert forall|i: int| 0 <= i < t.manifests.len() implies left(#[trigger] t.manifests[i]) by {
            assert(t.manifests.contains(t.manifests[i]));
        }
        lemma_filter_all(t.manifests, left);
    } else {
        let before = t.swept(cutoff, (n - 1) as nat);
        let left_before = |m: ManifestRowView| before.manifests.contains(m);
        lemma_swept_manifests(t, cutoff, (n - 1) as nat);
        law_collection_deletes_manifests_only(before, cutoff);
        assert forall|i: int| 0 <= i < t.manifests.len() implies left(#[trigger] t.manifests[i]) == (
        left_before(t.manifests[i]) && left(t.manifests[i])) by {
            lemma_survives(before, cutoff, t.manifests[i]);
        }
        lemma_filter_filter(t.manifests, left_before, left, left);
    }
}

proof fn lemma_swept_digests(t: Tables, cutoff: int, n: nat, d: Seq<char>)
    ensures
        t.swept_digests(cutoff, n).contains(d) <==> exists|i: int|
            0 <= i < t.manifests.len() && (#[trigger] t.manifests[i]).digest == d && !t.swept(
                cutoff,
                n,
            ).manifests.contains(t.manifests[i]),
    decreases n,
{
    let after = t.swept(cutoff, n);
    if n == 0 {
        assert forall|i: int| 0 <= i < t.manifests.len() implies after.manifests.contains(
            #[trigger] t.manifests[i],
        ) by {}
    } else {
        let before = t.swept(cutoff, (n - 1) as nat);
        let first = t.swept_digests(cutoff, (n - 1) as nat);
        let rows = before.condemned(cutoff);
        let names = rows.map_values(|m: ManifestRowView| m.digest);
        let all = t.swept_digests(cutoff, n);
        assert(all == first + names);
        lemma_swept_digests(t, cutoff, (n - 1) as nat, d);
        let goes = |x: ManifestRowView| before.condemns(cutoff, x);
        if all.contains(d) {
            let k = choose|k: int| 0 <= k < all.len() && all[k] == d;
            if k < first.len() {
                assert(first[k] == d);
                let i = choose|i: int|
                    0 <= i < t.manifests.len() && (#[trigger] t.manifests[i]).digest == d
                        && !before.manifests.contains(t.manifests[i]);
                lemma_survives(before, cutoff, t.manifests[i]);
                assert(!after.manifests.contains(t.manifests[i]));
            } else {
                let m = rows[k - first.len()];
                assert(names[k - first.len()] == m.digest);
                assert(rows.contains(m));
                lemma_filter_contains_iff(before.manifests, goes, m);
                assert(goes(m));
                lemma_survives(before, cutoff, m);
                lemma_sweep_only_deletes(t, cutoff, 0, (n - 1) as nat, m);
                let i = choose|i: int| 0 <= i < t.manifests.len() && t.manifests[i] == m;
                assert(t.manifests[i].digest == d);
                assert(!after.manifests.contains(t.manifests[i]));
            }
        }
        if exists|i: int|
            0 <= i < t.manifests.len() && (#[trigger] t.manifests[i]).digest == d
                && !after.manifests.contains(t.manifests[i]) {
            let i = choose|i: int|
                0 <= i < t.manifests.len() && (#[trigger] t.manifests[i]).digest == d
                    && !after.manifests.contains(t.manifests[i]);
            let m = t.manifests[i];
            if before.manifests.contains(m) {
                lemma_survives(before, cutoff, m);
                assert(goes(m));
                lemma_filter_contains_iff(before.manifests, goes, m);
                let k = choose|k: int| 0 <= k < rows.len() && rows[k] == m;
                assert(names[k] == d);
                assert(all[first.len() + k] == d);
            } else {
                assert(first.contains(d));
                let k = choose|k: int| 0 <= k < first.len() && first[k] == d;
                assert(all[k] == d);
            }
        }
    }
}

proof fn lemma_swept_uses(t: Tables, cutoff: int, n: nat)
    ensures
        t.swept(cutoff, n).manifest_blobs == t.manifest_blobs.filter(
            |a: ManifestBlobView|
                forall|i: int|
                    0 <= i < t.manifests.len() && (#[trigger] t.manifests[i]).digest
                        == a.manifest_digest ==> t.swept(cutoff, n).manifests.contains(t.manifests[i]),
        ),
    decreases n,
{
    let after = t.swept(cutoff, n);
    let left = |a: ManifestBlobView|
        forall|i: int|
            0 <= i < t.manifests.len() && (#[trigger] t.manifests[i]).digest == a.manifest_digest
                ==> after.manifests.contains(t.manifests[i]);
    if n == 0 {
        assert forall|k: int| 0 <= k < t.manifest_blobs.len() implies left(
            #[trigger] t.manifest_blobs[k],
        ) by {
            assert forall|i: int| 0 <= i < t.manifests.len() implies after.manifests.contains(
                #[trigger] t.manifests[i],
            ) by {}
        }
        lemma_filter_all(t.manifest_blobs, left);
    } else {
        let before = t.swept(cutoff, (n - 1) as nat);
        let left_before = |a: ManifestBlobView|
            forall|i: int|
                0 <= i < t.manifests.len() && (#[trigger] t.manifests[i]).digest == a.manifest_digest
                    ==> before.manifests.contains(t.manifests[i]);
        let left_now = |a: ManifestBlobView|
            forall|i: int|
                0 <= i < before.manifests.len() && (#[trigger] before.manifests[i]).digest
                    == a.manifest_digest ==> after.manifests.contains(before.manifests[i]);
        lemma_swept_uses(t, cutoff, (n - 1) as nat);
        law_collection_deletes_manifests_only(before, cutoff);
        assert forall|k: int| 0 <= k < t.manifest_blobs.len() implies left(
            #[trigger] t.manifest_blobs[k],
        ) == (left_before(t.manifest_blobs[k]) && left_now(t.manifest_blobs[k])) by {
            let a = t.manifest_blobs[k];
            if left(a) {
                assert forall|i: int|
                    0 <= i < t.manifests.len() && (#[trigger] t.manifests[i]).digest
                        == a.manifest_digest implies before.manifests.contains(t.manifests[i]) by {
                    lemma_survives(before, cutoff, t.manifests[i]);
                }
                assert forall|i: int|
                    0 <= i < before.manifests.len() && (#[trigger] before.manifests[i]).digest
                        == a.manifest_digest implies after.manifests.contains(before.manifests[i]) by {
                    assert(before.manifests.contains(before.manifests[i]));
                    lemma_sweep_only_deletes(t, cutoff, 0, (n - 1) as nat, before.manifests[i]);
                    let j = choose|j: int|
                        0 <= j < t.manifests.len() && t.manifests[j] == before.manifests[i];
                    assert(t.manifests[j].digest == a.manifest_digest);
                }
            }
            if left_before(a) && left_now(a) {
                assert forall|i: int|
                    0 <= i < t.manifests.len() && (#[trigger] t.manifests[i]).digest
                        == a.manifest_digest implies after.manifests.contains(t.manifests[i]) by {
                    assert(before.manifests.contains(t.manifests[i]));
                    let j = choose|j: int|
                        0 <= j < before.manifests.len() && before.manifests[j] == t.manifests[i];
                    assert(before.manifests[j].digest == a.manifest_digest);
                }
            }
        }
        lemma_filter_filter(t.manifest_blobs, left_before, left_now, left);
    }
}

/// Once as many collections are through as there were manifests, none is left that another one would
/// delete: what has a stored config blob, or is an index that lists nothing that is left, is reached
/// by protection.
pub proof fn law_sweep_is_exhaustive(t: Tables, cutoff: int, protected: Set<Seq<char>>, m: ManifestRowView)
    requires
        ({
            let left = t.swept(cutoff, t.manifests.len()).manifests;
            &&& forall|i: int|
                0 <= i < t.tags.len() ==> protected.contains((#[trigger] t.tags[i]).manifest_digest)
            &&& forall|i: int, j: int|
                0 <= i < left.len() && 0 <= j < t.blobs.len() && (#[trigger] left[i]).json.config
                    == Some((#[trigger] t.blobs[j]).digest) && t.blobs[j].last_accessed >= cutoff
                    ==> protected.contains(left[i].digest)
            &&& forall|i: int, d: Seq<char>|
                #![trigger left[i], protected.contains(d)]
                0 <= i < left.len() && protected.contains(left[i].digest)
                    && left[i].json.manifests is Some && left[i].json.manifests->0.contains(Some(d))
                    ==> protected.contains(d)
            &&& forall|i: int|
                0 <= i < left.len() && (#[trigger] left[i]).json.subject is Some
                    && protected.contains(left[i].json.subject->0) ==> protected.contains(
                    left[i].digest,
                )
            &&& left.contains(m)
            &&& !protected.contains(m.digest)
        }),
    ensures
        forall|j: int| 0 <= j < t.blobs.len() ==> m.json.config != Some((#[trigger] t.blobs[j]).digest),
        m.json.manifests is None || exists|i: int|
            0 <= i < t.swept(cutoff, t.manifests.len()).manifests.len()
                && m.json.manifests->0.contains(
                Some((#[trigger] t.swept(cutoff, t.manifests.len()).manifests[i]).digest),
            ),
{
    let after = t.swept(cutoff, t.manifests.len());
    law_sweep_deletes_manifests_only(t, cutoff, t.manifests.len());
    law_sweep_reaches_fixpoint(t, cutoff, 1);
    lemma_swept_once(after, cutoff);
    if (exists|j: int| 0 <= j < t.blobs.len() && m.json.config == Some((#[trigger] t.blobs[j]).digest))
        || (m.json.manifests is Some && forall|i: int|
        0 <= i < after.manifests.len() ==> !m.json.manifests->0.contains(
            Some((#[trigger] after.manifests[i]).digest),
        )) {
        law_unprotected_manifest_goes(after, cutoff, protected, m);
    }
}

proof fn lemma_swept_once(t: Tables, cutoff: int)
    ensures
        t.swept(cutoff, 1) == t.collected(cutoff),
{
    reveal_with_fuel(Tables::swept, 2);
}

/// Through any number of collections, a manifest whose config blob is not stored stays, unless it is
/// an index that lists nothing that is left.
pub proof fn law_manifest_without_clock_stays_through(t: Tables, cutoff: int, n: nat, m: ManifestRowView)
    requires
        t.manifests.contains(m),
        forall|j: int| 0 <= j < t.blobs.len() ==> m.json.config != Some((#[trigger] t.blobs[j]).digest),
        m.json.manifests is None || exists|i: int|
            0 <= i < t.swept(cutoff, n).manifests.len() && m.json.manifests->0.contains(
                Some((#[trigger] t.swept(cutoff, n).manifests[i]).digest),
            ),
    ensures
        t.swept(cutoff, n).manifests.contains(m),
    decreases n,
{
    if n > 0 {
        let before = t.swept(cutoff, (n - 1) as nat);
        let after = t.swept(cutoff, n);
        law_sweep_deletes_manifests_only(t, cutoff, (n - 1) as nat);
        if m.json.manifests is Some {
            let i = choose|i: int|
                0 <= i < after.manifests.len() && m.json.manifests->0.contains(
                    Some((#[trigger] after.manifests[i]).digest),
                );
            let child = after.manifests[i];
            assert(after.manifests.contains(child));
            lemma_survives(before, cutoff, child);
            let j = choose|j: int| 0 <= j < before.manifests.len() && before.manifests[j] == child;
            assert(m.json.manifests->0.contains(Some(before.manifests[j].digest)));
        }
        law_manifest_without_clock_stays_through(t, cutoff, (n - 1) as nat, m);
        law_manifest_without_clock_stays(before, cutoff, m);
    }
}

/// A manifest is stored behind the others if no row has its digest, and otherwise nothing changes.
pub proof fn law_insert_adds_a_row(t: Tables, row: ManifestRowView)
    ensures
        (forall|i: int| 0 <= i < t.manifests.len() ==> (#[trigger] t.manifests[i]).digest != row.digest)
            ==> t.with_manifest(row) == (Tables { manifests: t.manifests.push(row), ..t })
            && !t.has_manifest(row.digest),
        (exists|i: int| 0 <= i < t.manifests.len() && (#[trigger] t.manifests[i]).digest == row.digest)
            ==> t.with_manifest(row) == t && t.has_manifest(row.digest),
{
}

/// What is read of a digest is the blob, the media type and the digest of the first row that has it.
pub proof fn law_found_is_what_is_stored(t: Tables, digest: Seq<char>, i: int)
    requires
        t.is_row_of(digest, i),
    ensures
        0 <= i < t.manifests.len(),
        t.manifests[i].digest == digest,
        forall|j: int| 0 <= j < i ==> (#[trigger] t.manifests[j]).digest != digest,
        manifest_of(t.manifests[i]) == (ManifestView {
            blob: t.manifests[i].blob,
            media_type: t.manifests[i].json.media_type,
            digest,
        }),
{
}

/// Deleting takes the rows of the digest, the tags that point at it and the rows that say what it
/// uses; all other rows stay, in their order.
pub proof fn law_delete_takes_the_digest_only(t: Tables, digest: Seq<char>)
    ensures
        ({
            let after = t.without_manifest(digest);
            &&& after.manifests == t.manifests.filter(|m: ManifestRowView| m.digest != digest)
            &&& after.tags == t.tags.filter(|x: TagView| x.manifest_digest != digest)
            &&& after.manifest_blobs == t.manifest_blobs.filter(
                |a: ManifestBlobView| a.manifest_digest != digest,
            )
            &&& after.blobs == t.blobs
            &&& after.repo_blobs == t.repo_blobs
        }),
{
}

/// A manifest uses a blob exactly if a row says so.
pub proof fn law_use_is_a_row(t: Tables, manifest: Seq<char>, blob: Seq<char>)
    ensures
        t.uses_blob(manifest, blob) <==> exists|k: int|
            0 <= k < t.manifest_blobs.len() && (#[trigger] t.manifest_blobs[k]).manifest_digest
                == manifest && t.manifest_blobs[k].blob_digest == blob,
{
    let row = ManifestBlobView { manifest_digest: manifest, blob_digest: blob };
    if t.uses_blob(manifest, blob) {
        let k = choose|k: int| 0 <= k < t.manifest_blobs.len() && t.manifest_blobs[k] == row;
        assert(t.manifest_blobs[k].manifest_digest == manifest);
    }
    if exists|k: int|
        0 <= k < t.manifest_blobs.len() && (#[trigger] t.manifest_blobs[k]).manifest_digest == manifest
            && t.manifest_blobs[k].blob_digest == blob {
        let k = choose|k: int|
            0 <= k < t.manifest_blobs.len() && (#[trigger] t.manifest_blobs[k]).manifest_digest
                == manifest && t.manifest_blobs[k].blob_digest == blob;
        assert(t.manifest_blobs[k] == row);
    }
}

/// Which of the first `n` rows tie the manifest to the repository.
spec fn ties(rows: Seq<RepoBlobView>, repo: Seq<char>, digest: Seq<char>, n: nat) -> Seq<int>
    decreases n,
{
    if n == 0 {
        Seq::empty()
    } else {
        let before = ties(rows, repo, digest, (n - 1) as nat);
        if rows[n - 1].repo_name == repo && rows[n - 1].manifest_digest == Some(digest) {
            before.push(n - 1)
        } else {
            before
        }
    }
}

proof fn lemma_ties(t: Tables, repo: Seq<char>, digest: Seq<char>, n: nat)
    requires
        n <= t.repo_blobs.len(),
    ensures
        ties(t.repo_blobs, repo, digest, n).no_duplicates(),
        forall|k: int| #[trigger]
            ties(t.repo_blobs, repo, digest, n).contains(k) <==> 0 <= k < n
                && t.repo_blobs[k].repo_name == repo && t.repo_blobs[k].manifest_digest == Some(digest),
        ties(t.repo_blobs, repo, digest, n).len() == t.repo_blobs.take(n as int).filter(
            |a: RepoBlobView| a.repo_name == repo && a.manifest_digest == Some(digest),
        ).len(),
    decreases n,
{
    let held = |a: RepoBlobView| a.repo_name == repo && a.manifest_digest == Some(digest);
    if n == 0 {
        reveal(Seq::filter);
        assert(t.repo_blobs.take(0).filter(held).len() == 0);
    } else {
        let before = ties(t.repo_blobs, repo, digest, (n - 1) as nat);
        lemma_ties(t, repo, digest, (n - 1) as nat);
        lemma_filter_take(t.repo_blobs, n - 1, held);
        lemma_push_contains(before, n - 1);
        assert(!before.contains(n - 1));
    }
}

/// The pairs of a manifest, among the first `n`, with the given subject and a row that ties it to the
/// repository.
spec fn referring(t: Tables, repo: Seq<char>, subject: Seq<char>, n: nat) -> Seq<(int, int)>
    decreases n,
{
    if n == 0 {
        Seq::empty()
    } else {
        let row = t.manifests[n - 1];
        let before = referring(t, repo, subject, (n - 1) as nat);
        if row.json.subject == Some(subject) {
            before + ties(t.repo_blobs, repo, row.digest, t.repo_blobs.len()).map_values(
                |k: int| (n - 1, k),
            )
        } else {
            before
        }
    }
}

proof fn lemma_referring(t: Tables, repo: Seq<char>, subject: Seq<char>, n: nat)
    requires
        n <= t.manifests.len(),
    ensures
        ({
            let pairs = referring(t, repo, subject, n);
            let found = t.referrers(repo, subject, n);
            &&& pairs.no_duplicates()
            &&& forall|i: int, k: int| #[trigger]
                pairs.contains((i, k)) <==> 0 <= i < n && 0 <= k < t.repo_blobs.len()
                    && t.manifests[i].json.subject == Some(subject) && t.repo_blobs[k].repo_name == repo
                    && t.repo_blobs[k].manifest_digest == Some(t.manifests[i].digest)
            &&& found.len() == pairs.len()
            &&& forall|j: int|
                #![trigger found[j]]
                #![trigger pairs[j]]
                0 <= j < pairs.len() ==> {
                    &&& 0 <= pairs[j].0 < n
                    &&& found[j].digest == t.manifests[pairs[j].0].digest
                    &&& found[j].content == t.manifests[pairs[j].0].json.text
                    &&& found[j].size == t.manifests[pairs[j].0].blob.len() as i64
                }
        }),
    decreases n,
{
    if n > 0 {
        let row = t.manifests[n - 1];
        let before = referring(t, repo, subject, (n - 1) as nat);
        let found_before = t.referrers(repo, subject, (n - 1) as nat);
        let pairs = referring(t, repo, subject, n);
        let found = t.referrers(repo, subject, n);
        lemma_referring(t, repo, subject, (n - 1) as nat);
        if row.json.subject == Some(subject) {
            let rows = ties(t.repo_blobs, repo, row.digest, t.repo_blobs.len());
            let new = rows.map_values(|k: int| (n - 1, k));
            lemma_ties(t, repo, row.digest, t.repo_blobs.len());
            assert(t.repo_blobs.take(t.repo_blobs.len() as int) =~= t.repo_blobs);
            assert(t.holdings(repo, row.digest).len() == rows.len());
            assert(pairs == before + new);
            assert forall|i: int, k: int| #[trigger] pairs.contains((i, k)) <==> 0 <= i < n && 0 <= k
                < t.repo_blobs.len() && t.manifests[i].json.subject == Some(subject)
                && t.repo_blobs[k].repo_name == repo && t.repo_blobs[k].manifest_digest == Some(
                t.manifests[i].digest,
            ) by {
                if pairs.contains((i, k)) {
                    let j = choose|j: int| 0 <= j < pairs.len() && pairs[j] == (i, k);
                    if j < before.len() {
                        assert(before[j] == (i, k));
                        assert(before.contains((i, k)));
                    } else {
                        assert(new[j - before.len()] == (i, k));
                        assert(rows[j - before.len()] == k);
                        assert(rows.contains(k));
                    }
                }
                if 0 <= i < n && 0 <= k < t.repo_blobs.len() && t.manifests[i].json.subject == Some(
                    subject,
                ) && t.repo_blobs[k].repo_name == repo && t.repo_blobs[k].manifest_digest == Some(
                    t.manifests[i].digest,
                ) {
                    if i < n - 1 {
                        assert(before.contains((i, k)));
                        let j = choose|j: int| 0 <= j < before.len() && before[j] == (i, k);
                        assert(pairs[j] == (i, k));
                    } else {
                        assert(rows.contains(k));
                        let j = choose|j: int| 0 <= j < rows.len() && rows[j] == k;
                        assert(pairs[before.len() + j] == (i, k));
                    }
                }
            }
            assert forall|j: int, l: int| 0 <= j < l < pairs.len() implies pairs[j] != pairs[l] by {
                if l < before.len() {
                    assert(before[j] == pairs[j] && before[l] == pairs[l]);
                } else if j >= before.len() {
                    assert(rows[j - before.len()] != rows[l - before.len()]);
                    assert(pairs[j] == new[j - before.len()]);
                    assert(pairs[l] == new[l - before.len()]);
                } else {
                    assert(pairs[j] == before[j]);
                    assert(pairs[l] == new[l - before.len()]);
                }
            }
            assert forall|j: int|
                #![trigger found[j]]
                #![trigger pairs[j]]
                0 <= j < pairs.len() implies ({
                &&& 0 <= pairs[j].0 < n
                &&& found[j].digest == t.manifests[pairs[j].0].digest
                &&& found[j].content == t.manifests[pairs[j].0].json.text
                &&& found[j].size == t.manifests[pairs[j].0].blob.len() as i64
            }) by {
                if j < before.len() {
                    assert(pairs[j] == before[j]);
                    assert(found[j] == found_before[j]);
                } else {
                    assert(pairs[j] == new[j - before.len()]);
                }
            }
        }
    }
}

/// The referrers in the answer are the pairs of a stored manifest that has the subject and a row that
/// ties it to the repository: each such pair is there once, and nothing else is. A referrer comes
/// with the document, the digest and the size of its manifest.
pub proof fn law_referrers_are_the_matching_pairs(t: Tables, repo: Seq<char>, subject: Seq<char>) -> (pairs: Seq<
    (int, int),
>)
    ensures
        ({
            let found = t.referrers(repo, subject, t.manifests.len());
            &&& pairs.no_duplicates()
            &&& forall|i: int, k: int| #[trigger]
                pairs.contains((i, k)) <==> 0 <= i < t.manifests.len() && 0 <= k < t.repo_blobs.len()
                    && t.manifests[i].json.subject == Some(subject) && t.repo_blobs[k].repo_name == repo
                    && t.repo_blobs[k].manifest_digest == Some(t.manifests[i].digest)
            &&& found.len() == pairs.len()
            &&& forall|j: int|
                #![trigger found[j]]
                0 <= j < pairs.len() ==> {
                    &&& found[j].digest == t.manifests[pairs[j].0].digest
                    &&& found[j].content == t.manifests[pairs[j].0].json.text
                    &&& found[j].size == t.manifests[pairs[j].0].blob.len() as i64
                }
        }),
{
    lemma_referring(t, repo, subject, t.manifests.len());
    referring(t, repo, subject, t.manifests.len())
}

/// Every manifest that has the subject and that a row ties to the repository is in the answer.
pub proof fn law_every_referrer_is_listed(t: Tables, repo: Seq<char>, subject: Seq<char>, i: int, k: int)
    requires
        0 <= i < t.manifests.len(),
        0 <= k < t.repo_blobs.len(),
        t.manifests[i].json.subject == Some(subject),
        t.repo_blobs[k].repo_name == repo,
        t.repo_blobs[k].manifest_digest == Some(t.manifests[i].digest),
    ensures
        t.referrers(repo, subject, t.manifests.len()).contains(
            (ReferrerView {
                content: t.manifests[i].json.text,
                digest: t.manifests[i].digest,
                size: t.manifests[i].blob.len() as i64,
            }),
        ),
{
    let pairs = law_referrers_are_the_matching_pairs(t, repo, subject);
    let found = t.referrers(repo, subject, t.manifests.len());
    assert(pairs.contains((i, k)));
    let j = choose|j: int| 0 <= j < pairs.len() && pairs[j] == (i, k);
    assert(found[j] == (ReferrerView {
        content: t.manifests[i].json.text,
        digest: t.manifests[i].digest,
        size: t.manifests[i].blob.len() as i64,
    }));
}

/// There are as many referrers in the answer as there are such pairs.
pub proof fn law_referrers_are_counted(t: Tables, repo: Seq<char>, subject: Seq<char>)
    ensures
        t.referrers(repo, subject, t.manifests.len()).len() == Set::new(
            |p: (int, int)|
                0 <= p.0 < t.manifests.len() && 0 <= p.1 < t.repo_blobs.len()
                    && t.manifests[p.0].json.subject == Some(subject) && t.repo_blobs[p.1].repo_name
                    == repo && t.repo_blobs[p.1].manifest_digest == Some(t.manifests[p.0].digest),
        ).len(),
{
    let pairs = law_referrers_are_the_matching_pairs(t, repo, subject);
    pairs.unique_seq_to_set();
    assert(pairs.to_set() =~= Set::new(
        |p: (int, int)|
            0 <= p.0 < t.manifests.len() && 0 <= p.1 < t.repo_blobs.len()
                && t.manifests[p.0].json.subject == Some(subject) && t.repo_blobs[p.1].repo_name
                == repo && t.repo_blobs[p.1].manifest_digest == Some(t.manifests[p.0].digest),
    )) by {
        assert forall|p: (int, int)| pairs.to_set().contains(p) == pairs.contains((p.0, p.1)) by {}
    }
}

/// The referrers decode if and only if the document of each manifest that has the subject and that a
/// row ties to the repository does.
pub proof fn law_referrers_decode_one_by_one(t: Tables, repo: Seq<char>, subject: Seq<char>)
    ensures
        t.referrers_decode(repo, subject) <==> forall|i: int, k: int|
            0 <= i < t.manifests.len() && 0 <= k < t.repo_blobs.len()
                && (#[trigger] t.manifests[i]).json.subject == Some(subject)
                && (#[trigger] t.repo_blobs[k]).repo_name == repo && t.repo_blobs[k].manifest_digest
                == Some(t.manifests[i].digest) ==> t.manifests[i].json.decodes,
{
    assert(t.repo_blobs.take(t.repo_blobs.len() as int) =~= t.repo_blobs);
    if t.referrers_decode(repo, subject) {
        assert forall|i: int, k: int|
            0 <= i < t.manifests.len() && 0 <= k < t.repo_blobs.len()
                && (#[trigger] t.manifests[i]).json.subject == Some(subject)
                && (#[trigger] t.repo_blobs[k]).repo_name == repo && t.repo_blobs[k].manifest_digest
                == Some(t.manifests[i].digest) implies t.manifests[i].json.decodes by {
            lemma_ties(t, repo, t.manifests[i].digest, t.repo_blobs.len());
            assert(ties(t.repo_blobs, repo, t.manifests[i].digest, t.repo_blobs.len()).contains(k));
            assert(t.refers(repo, subject, i));
        }
    } else {
        let i = choose|i: int| #[trigger] t.refers(repo, subject, i) && !t.manifests[i].json.decodes;
        let rows = ties(t.repo_blobs, repo, t.manifests[i].digest, t.repo_blobs.len());
        lemma_ties(t, repo, t.manifests[i].digest, t.repo_blobs.len());
        assert(rows.contains(rows[0]));
        let k = rows[0];
        assert(t.repo_blobs[k].repo_name == repo);
    }
}

} // verus!
