//! Collecting untagged manifests over and over.
//!
//! An index becomes collectable only when what it lists is gone, so one collection can be what makes
//! another one worthwhile.

use vstd::prelude::*;

use crate::repositories::manifest_repository::law_collection_unpins_blobs;
use crate::repositories::models::{ManifestRowView, Tables};
use crate::repositories::retention::{
    law_collection_adds_up, law_collection_preserves_distinct_digests,
    law_collection_preserves_keeps, law_idle_collection_changes_nothing,
    law_orphaned_index_goes_next, lemma_survives, lists,
};
use crate::sequences::lemma_filter_contains_iff;

verus! {

impl Tables {
    /// What is left after `n` collections.
    pub open spec fn swept(self, cutoff: int, n: nat) -> Tables
        decreases n,
    {
        if n == 0 {
            self
        } else {
            self.swept(cutoff, (n - 1) as nat).collected(cutoff)
        }
    }

    /// The digests of the manifests that `n` collections delete.
    pub open spec fn swept_digests(self, cutoff: int, n: nat) -> Seq<Seq<char>>
        decreases n,
    {
        if n == 0 {
            Seq::empty()
        } else {
            self.swept_digests(cutoff, (n - 1) as nat) + self.swept(
                cutoff,
                (n - 1) as nat,
            ).condemned(cutoff).map_values(|m: ManifestRowView| m.digest)
        }
    }

    /// Whether collection `n`, counted from 0, finds nothing to delete.
    pub open spec fn settles_by(self, cutoff: int, n: nat) -> bool {
        self.swept(cutoff, n).condemned(cutoff).len() == 0
    }
}

/// Where nothing was found to delete, nothing is found any more.
pub proof fn lemma_settled_stays(t: Tables, cutoff: int, n: nat, later: nat)
    requires
        t.settles_by(cutoff, n),
        n <= later,
    ensures
        t.swept(cutoff, later) == t.swept(cutoff, n),
        t.swept_digests(cutoff, later) == t.swept_digests(cutoff, n),
        t.settles_by(cutoff, later),
    decreases later,
{
    if n < later {
        let before = (later - 1) as nat;
        lemma_settled_stays(t, cutoff, n, before);
        law_idle_collection_changes_nothing(t.swept(cutoff, before), cutoff);
        assert(t.swept_digests(cutoff, later) =~= t.swept_digests(cutoff, before));
    }
}

/// Sweeping never brings a manifest back.
pub proof fn lemma_sweep_only_deletes(t: Tables, cutoff: int, n: nat, later: nat, m: ManifestRowView)
    requires
        n <= later,
        t.swept(cutoff, later).manifests.contains(m),
    ensures
        t.swept(cutoff, n).manifests.contains(m),
    decreases later,
{
    if n < later {
        let before = (later - 1) as nat;
        lemma_survives(t.swept(cutoff, before), cutoff, m);
        lemma_sweep_only_deletes(t, cutoff, n, before, m);
    }
}

/// A sweep keeps what is worth keeping, and nothing becomes worth keeping by it.
pub proof fn law_sweep_preserves_keeps(t: Tables, cutoff: int, n: nat, d: Seq<char>)
    ensures
        t.swept(cutoff, n).keeps(cutoff, d) == t.keeps(cutoff, d),
    decreases n,
{
    if n > 0 {
        let before = (n - 1) as nat;
        law_sweep_preserves_keeps(t, cutoff, before, d);
        law_collection_preserves_keeps(t.swept(cutoff, before), cutoff, d);
    }
}

/// However often it is repeated, a manifest worth keeping is not deleted.
pub proof fn law_kept_survives_sweep(t: Tables, cutoff: int, n: nat, m: ManifestRowView)
    requires
        t.manifests.contains(m),
        t.keeps(cutoff, m.digest),
    ensures
        t.swept(cutoff, n).manifests.contains(m),
    decreases n,
{
    if n > 0 {
        let before = (n - 1) as nat;
        law_kept_survives_sweep(t, cutoff, before, m);
        law_sweep_preserves_keeps(t, cutoff, before, m.digest);
        lemma_survives(t.swept(cutoff, before), cutoff, m);
    }
}

/// No digest that a sweep deletes was worth keeping when it began.
pub proof fn law_swept_was_not_kept(t: Tables, cutoff: int, n: nat, d: Seq<char>)
    requires
        t.swept_digests(cutoff, n).contains(d),
    ensures
        !t.keeps(cutoff, d),
    decreases n,
{
    if n > 0 {
        let before = (n - 1) as nat;
        let rows = t.swept(cutoff, before).condemned(cutoff);
        let names = rows.map_values(|m: ManifestRowView| m.digest);
        let i = choose|i: int|
            0 <= i < t.swept_digests(cutoff, n).len() && t.swept_digests(cutoff, n)[i] == d;
        let first = t.swept_digests(cutoff, before);
        if i < first.len() {
            assert(first[i] == d);
            law_swept_was_not_kept(t, cutoff, before, d);
        } else {
            let m = rows[i - first.len()];
            assert(names[i - first.len()] == m.digest);
            assert(rows.contains(m));
            let goes = |x: ManifestRowView| t.swept(cutoff, before).condemns(cutoff, x);
            lemma_filter_contains_iff(t.swept(cutoff, before).manifests, goes, m);
            assert(goes(m));
            law_sweep_preserves_keeps(t, cutoff, before, d);
        }
    }
}

/// What a sweep deletes and what it leaves add up.
pub proof fn law_sweep_adds_up(t: Tables, cutoff: int, n: nat)
    ensures
        t.swept(cutoff, n).manifests.len() + t.swept_digests(cutoff, n).len()
            == t.manifests.len(),
    decreases n,
{
    if n > 0 {
        let before = (n - 1) as nat;
        law_sweep_adds_up(t, cutoff, before);
        law_collection_adds_up(t.swept(cutoff, before), cutoff);
    }
}

/// A sweep that settled left nothing to delete, and another one changes nothing.
pub proof fn law_settled_sweep_is_complete(t: Tables, cutoff: int, n: nat, more: nat)
    requires
        n > 0,
        t.settles_by(cutoff, (n - 1) as nat),
    ensures
        forall|m: ManifestRowView|
            t.swept(cutoff, n).manifests.contains(m) ==> !(#[trigger] t.swept(cutoff, n).condemns(cutoff, m)),
        t.swept(cutoff, n).swept(cutoff, more) == t.swept(cutoff, n),
        t.swept(cutoff, n).swept_digests(cutoff, more).len() == 0,
{
    let after = t.swept(cutoff, n);
    lemma_settled_stays(t, cutoff, (n - 1) as nat, n);
    law_idle_collection_changes_nothing(after, cutoff);
    assert(after.settles_by(cutoff, 0));
    lemma_settled_stays(after, cutoff, 0, more);
}

/// Every pass that does not settle deletes a manifest, so that a sweep settles after as many passes
/// as there are manifests.
pub proof fn law_sweep_settles(t: Tables, cutoff: int, n: nat)
    requires
        n >= t.manifests.len(),
    ensures
        t.settles_by(cutoff, n),
{
    if !t.settles_by(cutoff, n) {
        lemma_unsettled_deletes(t, cutoff, n);
        law_sweep_adds_up(t, cutoff, n + 1);
    }
}

proof fn lemma_unsettled_deletes(t: Tables, cutoff: int, n: nat)
    requires
        !t.settles_by(cutoff, n),
    ensures
        t.swept_digests(cutoff, n + 1).len() > n,
    decreases n,
{
    if n > 0 {
        let before = (n - 1) as nat;
        if t.settles_by(cutoff, before) {
            lemma_settled_stays(t, cutoff, before, n);
        }
        lemma_unsettled_deletes(t, cutoff, before);
    }
}

/// A sweep with as many passes as there are manifests runs to a fixpoint: it leaves nothing to
/// delete, and however many passes follow at the same cutoff, they delete nothing and change nothing.
pub proof fn law_sweep_reaches_fixpoint(t: Tables, cutoff: int, more: nat)
    ensures
        ({
            let after = t.swept(cutoff, t.manifests.len());
            &&& after.condemned(cutoff).len() == 0
            &&& after.swept(cutoff, more) == after
            &&& after.swept_digests(cutoff, more).len() == 0
        }),
{
    let after = t.swept(cutoff, t.manifests.len());
    law_sweep_settles(t, cutoff, t.manifests.len());
    assert(after.settles_by(cutoff, 0));
    lemma_settled_stays(after, cutoff, 0, more);
}

/// A sweep forgets what the manifests it deletes have used: however many passes it takes, what a
/// digest uses is remembered only while a manifest with that digest is left. If no two manifests
/// have the same digest, what is left uses what it used before.
pub proof fn law_sweep_unpins_blobs(t: Tables, cutoff: int, n: nat, d: Seq<char>, blob: Seq<char>)
    requires
        t.has_manifest(d),
    ensures
        t.swept(cutoff, n).uses_blob(d, blob) ==> t.swept(cutoff, n).has_manifest(d),
        t.digests_distinct() ==> (t.swept(cutoff, n).uses_blob(d, blob) <==> t.uses_blob(d, blob)
            && t.swept(cutoff, n).has_manifest(d)),
    decreases n,
{
    if n > 0 {
        let before = t.swept(cutoff, (n - 1) as nat);
        let after = t.swept(cutoff, n);
        law_sweep_unpins_blobs(t, cutoff, (n - 1) as nat, d, blob);
        law_collection_unpins_blobs(before, cutoff, d, blob);
        if after.has_manifest(d) {
            let i = choose|i: int|
                0 <= i < after.manifests.len() && (#[trigger] after.manifests[i]).digest == d;
            let m = after.manifests[i];
            assert(after.manifests.contains(m));
            lemma_survives(before, cutoff, m);
            let j = choose|j: int| 0 <= j < before.manifests.len() && before.manifests[j] == m;
            assert(before.manifests[j].digest == d);
            if t.digests_distinct() {
                law_sweep_preserves_distinct_digests(t, cutoff, (n - 1) as nat);
                assert(!before.condemns_digest(cutoff, d)) by {
                    if before.condemns_digest(cutoff, d) {
                        let k = choose|k: int|
                            0 <= k < before.manifests.len() && (#[trigger] before.manifests[k]).digest
                                == d && before.condemns(cutoff, before.manifests[k]);
                        assert(k == j);
                    }
                }
            }
        }
        if after.uses_blob(d, blob) {
            let i = choose|i: int|
                0 <= i < before.manifests.len() && (#[trigger] before.manifests[i]).digest == d;
            let m = before.manifests[i];
            assert(!before.condemns(cutoff, m));
            assert(before.manifests.contains(m));
            lemma_survives(before, cutoff, m);
            let j = choose|j: int| 0 <= j < after.manifests.len() && after.manifests[j] == m;
            assert(after.manifests[j].digest == d);
        }
    }
}

/// A sweep leaves the digests distinct.
pub proof fn law_sweep_preserves_distinct_digests(t: Tables, cutoff: int, n: nat)
    requires
        t.digests_distinct(),
    ensures
        t.swept(cutoff, n).digests_distinct(),
    decreases n,
{
    if n > 0 {
        law_sweep_preserves_distinct_digests(t, cutoff, (n - 1) as nat);
        law_collection_preserves_distinct_digests(t.swept(cutoff, (n - 1) as nat), cutoff);
    }
}

/// An index that is not worth keeping is gone after two passes or more, if the first one deletes
/// every stored manifest that it lists.
pub proof fn law_sweep_takes_orphaned_index(t: Tables, cutoff: int, n: nat, index: ManifestRowView)
    requires
        n >= 2,
        index.json.manifests is Some,
        !t.keeps(cutoff, index.digest),
        forall|m: ManifestRowView|
            #![trigger t.condemns(cutoff, m)]
            t.manifests.contains(m) && lists(index, m.digest) ==> t.condemns(cutoff, m),
    ensures
        !t.swept(cutoff, n).manifests.contains(index),
{
    law_orphaned_index_goes_next(t, cutoff, index);
    reveal_with_fuel(Tables::swept, 3);
    assert(t.swept(cutoff, 2) == t.collected(cutoff).collected(cutoff));
    if t.swept(cutoff, n).manifests.contains(index) {
        lemma_sweep_only_deletes(t, cutoff, 2, n, index);
    }
}

} // verus!
