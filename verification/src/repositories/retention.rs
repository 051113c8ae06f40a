//! Which manifests are worth keeping.
//!
//! A digest is kept if a chain of manifests leads to it from a root. The roots are the manifests
//! that a tag points at and those that have not gone cold, judged by their config blob. A chain
//! follows an index to the manifests it lists, and a manifest to the ones that have it as their
//! subject: signatures and attestations are pushed by digest and never tagged.

use vstd::prelude::*;

use crate::repositories::models::{ManifestBlobView, ManifestRowView, Tables};
use crate::sequences::{lemma_filter_all, lemma_filter_contains_iff, lemma_filter_split_len};

verus! {

impl Tables {
    /// Whether a tag points at the digest.
    pub open spec fn is_tagged(self, digest: Seq<char>) -> bool {
        exists|i: int| 0 <= i < self.tags.len() && (#[trigger] self.tags[i]).manifest_digest == digest
    }

    /// Whether a blob with this digest is stored.
    pub open spec fn has_blob(self, digest: Seq<char>) -> bool {
        exists|i: int| 0 <= i < self.blobs.len() && (#[trigger] self.blobs[i]).digest == digest
    }

    /// Whether a blob with this digest was accessed at `cutoff` or later.
    pub open spec fn has_blob_since(self, digest: Seq<char>, cutoff: int) -> bool {
        exists|i: int|
            0 <= i < self.blobs.len() && (#[trigger] self.blobs[i]).digest == digest
                && self.blobs[i].last_accessed >= cutoff
    }

    /// Whether the config blob of the manifest is stored, so that the manifest can age.
    pub open spec fn can_age(self, m: ManifestRowView) -> bool {
        m.json.config matches Some(c) && self.has_blob(c)
    }

    /// Whether the config blob of the manifest was accessed at `cutoff` or later.
    pub open spec fn is_warm(self, m: ManifestRowView, cutoff: int) -> bool {
        m.json.config matches Some(c) && self.has_blob_since(c, cutoff)
    }

    /// Whether a chain may begin with this digest.
    pub open spec fn is_root(self, cutoff: int, digest: Seq<char>) -> bool {
        ||| self.is_tagged(digest)
        ||| exists|i: int|
            0 <= i < self.manifests.len() && (#[trigger] self.manifests[i]).digest == digest
                && self.is_warm(self.manifests[i], cutoff)
    }

    /// Whether a chain may go on from `from` to `to`.
    pub open spec fn leads(self, from: Seq<char>, to: Seq<char>) -> bool {
        exists|i: int|
            0 <= i < self.manifests.len() && #[trigger] row_leads(self.manifests[i], from, to)
    }

    /// Whether `chain` begins with a root and every step of it is allowed.
    pub open spec fn is_chain(self, cutoff: int, chain: Seq<Seq<char>>) -> bool {
        &&& chain.len() > 0
        &&& self.is_root(cutoff, chain[0])
        &&& forall|k: int| 1 <= k < chain.len() ==> self.leads(chain[k - 1], #[trigger] chain[k])
    }

    /// Whether the digest is worth keeping.
    pub open spec fn keeps(self, cutoff: int, digest: Seq<char>) -> bool {
        exists|chain: Seq<Seq<char>>| #[trigger]
            self.is_chain(cutoff, chain) && chain.last() == digest
    }

    /// Whether the manifest lists one that is stored.
    pub open spec fn lists_stored(self, m: ManifestRowView) -> bool {
        exists|i: int|
            0 <= i < self.manifests.len() && lists(m, (#[trigger] self.manifests[i]).digest)
    }

    /// Whether the manifest goes: it is not kept, and it has either aged out or is an index with
    /// nothing left to point at. A manifest whose config blob was never stored has no clock, so
    /// it stays.
    pub open spec fn condemns(self, cutoff: int, m: ManifestRowView) -> bool {
        &&& !self.keeps(cutoff, m.digest)
        &&& self.can_age(m) || (m.json.manifests is Some && !self.lists_stored(m))
    }

    /// The manifests that go.
    pub open spec fn condemned(self, cutoff: int) -> Seq<ManifestRowView> {
        self.manifests.filter(|m: ManifestRowView| self.condemns(cutoff, m))
    }

    /// Whether one of the manifests that go has this digest.
    pub open spec fn condemns_digest(self, cutoff: int, digest: Seq<char>) -> bool {
        exists|i: int|
            0 <= i < self.manifests.len() && (#[trigger] self.manifests[i]).digest == digest
                && self.condemns(cutoff, self.manifests[i])
    }

    /// What is left when they are gone. What a deleted manifest used is forgotten with it.
    pub open spec fn collected(self, cutoff: int) -> Tables {
        Tables {
            manifests: self.manifests.filter(|m: ManifestRowView| !self.condemns(cutoff, m)),
            manifest_blobs: self.manifest_blobs.filter(
                |a: ManifestBlobView| !self.condemns_digest(cutoff, a.manifest_digest),
            ),
            ..self
        }
    }
}

/// Whether the manifest is an index that lists the digest.
pub open spec fn lists(m: ManifestRowView, digest: Seq<char>) -> bool {
    m.json.manifests matches Some(entries) && entries.contains(Some(digest))
}

/// Whether this manifest is why a chain may go on from `from` to `to`: it is `from` and lists
/// `to`, or it is `to` and has `from` as its subject.
pub open spec fn row_leads(m: ManifestRowView, from: Seq<char>, to: Seq<char>) -> bool {
    ||| m.digest == from && lists(m, to)
    ||| m.json.subject == Some(from) && m.digest == to
}

/// Whether the set holds every digest that the manifest leads to from inside it.
pub open spec fn row_closed(m: ManifestRowView, s: Set<Seq<char>>) -> bool {
    forall|from: Seq<char>, to: Seq<char>|
        s.contains(from) && #[trigger] row_leads(m, from, to) ==> s.contains(to)
}

/// Whether the set holds the roots and everything that is led to from inside it.
pub open spec fn is_closed(t: Tables, cutoff: int, s: Set<Seq<char>>) -> bool {
    &&& forall|d: Seq<char>| #[trigger] t.is_root(cutoff, d) ==> s.contains(d)
    &&& forall|i: int| 0 <= i < t.manifests.len() ==> row_closed(#[trigger] t.manifests[i], s)
}

pub proof fn lemma_root_is_kept(t: Tables, cutoff: int, d: Seq<char>)
    requires
        t.is_root(cutoff, d),
    ensures
        t.keeps(cutoff, d),
{
    assert(t.is_chain(cutoff, seq![d]));
    assert(seq![d].last() == d);
}

pub proof fn lemma_step_is_kept(t: Tables, cutoff: int, from: Seq<char>, to: Seq<char>)
    requires
        t.keeps(cutoff, from),
        t.leads(from, to),
    ensures
        t.keeps(cutoff, to),
{
    let chain = choose|chain: Seq<Seq<char>>| #[trigger]
        t.is_chain(cutoff, chain) && chain.last() == from;
    let longer = chain.push(to);
    assert forall|k: int| 1 <= k < longer.len() implies t.leads(longer[k - 1], #[trigger] longer[k]) by {
        if k < chain.len() {
            assert(longer[k] == chain[k]);
        }
    }
    assert(t.is_chain(cutoff, longer));
    assert(longer.last() == to);
}

proof fn lemma_chain_stays_inside(t: Tables, cutoff: int, s: Set<Seq<char>>, chain: Seq<Seq<char>>, k: int)
    requires
        is_closed(t, cutoff, s),
        t.is_chain(cutoff, chain),
        0 <= k < chain.len(),
    ensures
        s.contains(chain[k]),
    decreases k,
{
    if k > 0 {
        lemma_chain_stays_inside(t, cutoff, s, chain, k - 1);
        assert(t.leads(chain[k - 1], chain[k]));
        let i = choose|i: int|
            0 <= i < t.manifests.len() && #[trigger] row_leads(t.manifests[i], chain[k - 1], chain[k]);
        assert(row_closed(t.manifests[i], s));
    }
}

pub proof fn lemma_kept_is_inside(t: Tables, cutoff: int, s: Set<Seq<char>>, d: Seq<char>)
    requires
        is_closed(t, cutoff, s),
        t.keeps(cutoff, d),
    ensures
        s.contains(d),
{
    let chain = choose|chain: Seq<Seq<char>>| #[trigger]
        t.is_chain(cutoff, chain) && chain.last() == d;
    lemma_chain_stays_inside(t, cutoff, s, chain, chain.len() - 1);
}

/// The kept digests are the least set that holds the roots and everything they lead to.
pub proof fn law_keeps_least_closed_set(t: Tables, cutoff: int, s: Set<Seq<char>>)
    requires
        is_closed(t, cutoff, s),
    ensures
        is_closed(t, cutoff, Set::new(|d: Seq<char>| t.keeps(cutoff, d))),
        Set::new(|d: Seq<char>| t.keeps(cutoff, d)).subset_of(s),
{
    let kept = Set::new(|d: Seq<char>| t.keeps(cutoff, d));
    assert forall|d: Seq<char>| #[trigger] t.is_root(cutoff, d) implies kept.contains(d) by {
        lemma_root_is_kept(t, cutoff, d);
    }
    assert forall|i: int| 0 <= i < t.manifests.len() implies row_closed(
        #[trigger] t.manifests[i],
        kept,
    ) by {
        assert forall|from: Seq<char>, to: Seq<char>|
            kept.contains(from) && #[trigger] row_leads(t.manifests[i], from, to) implies kept.contains(to) by {
            assert(t.leads(from, to));
            lemma_step_is_kept(t, cutoff, from, to);
        }
    }
    assert forall|d: Seq<char>| kept.contains(d) implies s.contains(d) by {
        lemma_kept_is_inside(t, cutoff, s, d);
    }
}

/// A manifest survives a collection exactly if it was there and is not condemned.
pub proof fn lemma_survives(t: Tables, cutoff: int, m: ManifestRowView)
    ensures
        t.collected(cutoff).manifests.contains(m) <==> t.manifests.contains(m) && !t.condemns(cutoff, m),
{
    lemma_filter_contains_iff(t.manifests, |x: ManifestRowView| !t.condemns(cutoff, x), m);
}

/// A manifest that a tag points at is never deleted.
pub proof fn law_tagged_survives(t: Tables, cutoff: int, m: ManifestRowView)
    requires
        t.manifests.contains(m),
        t.is_tagged(m.digest),
    ensures
        t.collected(cutoff).manifests.contains(m),
{
    lemma_root_is_kept(t, cutoff, m.digest);
    lemma_survives(t, cutoff, m);
}

/// A manifest whose config blob was accessed inside the retention window is never deleted.
pub proof fn law_warm_survives(t: Tables, cutoff: int, m: ManifestRowView)
    requires
        t.manifests.contains(m),
        t.is_warm(m, cutoff),
    ensures
        t.collected(cutoff).manifests.contains(m),
{
    let i = choose|i: int| 0 <= i < t.manifests.len() && t.manifests[i] == m;
    assert(t.manifests[i].digest == m.digest);
    lemma_root_is_kept(t, cutoff, m.digest);
    lemma_survives(t, cutoff, m);
}

/// A manifest that can age goes if it is no root and no manifest leads to it.
pub proof fn law_unreferenced_cold_manifest_goes(t: Tables, cutoff: int, m: ManifestRowView)
    requires
        t.can_age(m),
        !t.is_root(cutoff, m.digest),
        forall|from: Seq<char>| !(#[trigger] t.leads(from, m.digest)),
    ensures
        !t.keeps(cutoff, m.digest),
        !t.collected(cutoff).manifests.contains(m),
{
    if t.keeps(cutoff, m.digest) {
        let chain = choose|chain: Seq<Seq<char>>| #[trigger]
            t.is_chain(cutoff, chain) && chain.last() == m.digest;
        if chain.len() > 1 {
            assert(t.leads(chain[chain.len() - 2], chain[chain.len() - 1]));
        }
    }
    lemma_survives(t, cutoff, m);
}

/// What a kept index lists is kept, and is not deleted.
pub proof fn law_child_of_kept_index_survives(t: Tables, cutoff: int, index: ManifestRowView, child: ManifestRowView)
    requires
        t.manifests.contains(index),
        t.manifests.contains(child),
        t.keeps(cutoff, index.digest),
        lists(index, child.digest),
    ensures
        t.keeps(cutoff, child.digest),
        t.collected(cutoff).manifests.contains(child),
{
    let i = choose|i: int| 0 <= i < t.manifests.len() && t.manifests[i] == index;
    assert(row_leads(t.manifests[i], index.digest, child.digest));
    lemma_step_is_kept(t, cutoff, index.digest, child.digest);
    lemma_survives(t, cutoff, child);
}

/// What has a kept manifest as its subject is kept, and is not deleted, be the subject tagged, warm
/// or led to.
///
/// A subject that is not kept and merely stays does not protect its referrers: one whose config blob
/// is not stored, or an untagged index that lists a stored manifest.
pub proof fn law_referrer_outlives_kept_subject(t: Tables, cutoff: int, subject: Seq<char>, referrer: ManifestRowView)
    requires
        t.manifests.contains(referrer),
        t.keeps(cutoff, subject),
        referrer.json.subject == Some(subject),
    ensures
        t.keeps(cutoff, referrer.digest),
        t.collected(cutoff).manifests.contains(referrer),
{
    let i = choose|i: int| 0 <= i < t.manifests.len() && t.manifests[i] == referrer;
    assert(row_leads(t.manifests[i], subject, referrer.digest));
    lemma_step_is_kept(t, cutoff, subject, referrer.digest);
    lemma_survives(t, cutoff, referrer);
}

/// A manifest that is no index and whose config blob is not stored has no clock and is left alone.
pub proof fn law_clockless_survives(t: Tables, cutoff: int, m: ManifestRowView)
    requires
        t.manifests.contains(m),
        !t.can_age(m),
        m.json.manifests is None,
    ensures
        t.collected(cutoff).manifests.contains(m),
{
    lemma_survives(t, cutoff, m);
}

/// An index that cannot age is left alone while one of the manifests it lists is stored.
pub proof fn law_index_outlives_its_children(t: Tables, cutoff: int, index: ManifestRowView, child: ManifestRowView)
    requires
        t.manifests.contains(index),
        t.manifests.contains(child),
        !t.can_age(index),
        lists(index, child.digest),
    ensures
        t.collected(cutoff).manifests.contains(index),
{
    let i = choose|i: int| 0 <= i < t.manifests.len() && t.manifests[i] == child;
    assert(lists(index, t.manifests[i].digest));
    lemma_survives(t, cutoff, index);
}

/// A collection counts right: what is left and what was deleted add up.
pub proof fn law_collection_adds_up(t: Tables, cutoff: int)
    ensures
        t.collected(cutoff).manifests.len() + t.condemned(cutoff).len() == t.manifests.len(),
{
    lemma_filter_split_len(
        t.manifests,
        |m: ManifestRowView| t.condemns(cutoff, m),
        |m: ManifestRowView| !t.condemns(cutoff, m),
    );
}

/// A collection that deletes no manifest changes nothing.
pub proof fn law_idle_collection_changes_nothing(t: Tables, cutoff: int)
    requires
        t.condemned(cutoff).len() == 0,
    ensures
        t.collected(cutoff) == t,
        forall|m: ManifestRowView| t.manifests.contains(m) ==> !(#[trigger] t.condemns(cutoff, m)),
{
    let goes = |m: ManifestRowView| t.condemns(cutoff, m);
    assert forall|m: ManifestRowView| t.manifests.contains(m) implies !(#[trigger] t.condemns(cutoff, m)) by {
        lemma_filter_contains_iff(t.manifests, goes, m);
        if t.condemns(cutoff, m) {
            assert(goes(m));
            assert(t.condemned(cutoff).contains(m));
        }
    }
    assert forall|i: int| 0 <= i < t.manifests.len() implies !t.condemns(
        cutoff,
        #[trigger] t.manifests[i],
    ) by {
        assert(t.manifests.contains(t.manifests[i]));
    }
    lemma_filter_all(t.manifests, |m: ManifestRowView| !t.condemns(cutoff, m));
    lemma_filter_all(
        t.manifest_blobs,
        |a: ManifestBlobView| !t.condemns_digest(cutoff, a.manifest_digest),
    );
}

proof fn lemma_kept_set_closed(t: Tables, cutoff: int)
    ensures
        is_closed(t, cutoff, Set::new(|d: Seq<char>| t.keeps(cutoff, d))),
{
    law_keeps_least_closed_set(t, cutoff, Set::full());
}

proof fn lemma_collection_marks(t: Tables, cutoff: int)
    ensures
        forall|d: Seq<char>| #[trigger] t.collected(cutoff).is_tagged(d) <==> t.is_tagged(d),
        forall|m: ManifestRowView| #[trigger] t.collected(cutoff).is_warm(m, cutoff) <==> t.is_warm(m, cutoff),
{
    let after = t.collected(cutoff);
    assert(after.tags == t.tags);
    assert(after.blobs == t.blobs);
    assert forall|d: Seq<char>| #[trigger] after.is_tagged(d) <==> t.is_tagged(d) by {
        if t.is_tagged(d) {
            let i = choose|i: int| 0 <= i < t.tags.len() && (#[trigger] t.tags[i]).manifest_digest == d;
            assert(after.tags[i].manifest_digest == d);
        }
    }
    assert forall|m: ManifestRowView| #[trigger] after.is_warm(m, cutoff) <==> t.is_warm(m, cutoff) by {
        if t.is_warm(m, cutoff) {
            let config = m.json.config->0;
            let i = choose|i: int|
                0 <= i < t.blobs.len() && (#[trigger] t.blobs[i]).digest == config
                    && t.blobs[i].last_accessed >= cutoff;
            assert(after.blobs[i].digest == config);
        }
    }
}

proof fn lemma_collection_keeps_no_more(t: Tables, cutoff: int, d: Seq<char>)
    requires
        t.collected(cutoff).keeps(cutoff, d),
    ensures
        t.keeps(cutoff, d),
{
    let after = t.collected(cutoff);
    let kept = Set::new(|x: Seq<char>| t.keeps(cutoff, x));
    lemma_kept_set_closed(t, cutoff);
    lemma_collection_marks(t, cutoff);
    assert forall|i: int| 0 <= i < after.manifests.len() implies t.manifests.contains(
        #[trigger] after.manifests[i],
    ) by {
        assert(after.manifests.contains(after.manifests[i]));
        lemma_survives(t, cutoff, after.manifests[i]);
    }
    assert forall|x: Seq<char>| #[trigger] after.is_root(cutoff, x) implies kept.contains(x) by {
        if !after.is_tagged(x) {
            let i = choose|i: int|
                0 <= i < after.manifests.len() && (#[trigger] after.manifests[i]).digest == x
                    && after.is_warm(after.manifests[i], cutoff);
            let m = after.manifests[i];
            let k = choose|k: int| 0 <= k < t.manifests.len() && t.manifests[k] == m;
            assert(t.manifests[k].digest == x && t.is_warm(t.manifests[k], cutoff));
        }
        assert(t.is_root(cutoff, x));
    }
    assert forall|i: int| 0 <= i < after.manifests.len() implies row_closed(
        #[trigger] after.manifests[i],
        kept,
    ) by {
        let m = after.manifests[i];
        let k = choose|k: int| 0 <= k < t.manifests.len() && t.manifests[k] == m;
        assert(row_closed(t.manifests[k], kept));
    }
    lemma_kept_is_inside(after, cutoff, kept, d);
}

proof fn lemma_collection_keeps_no_less(t: Tables, cutoff: int, d: Seq<char>)
    requires
        t.keeps(cutoff, d),
    ensures
        t.collected(cutoff).keeps(cutoff, d),
{
    let after = t.collected(cutoff);
    let kept_after = Set::new(|x: Seq<char>| after.keeps(cutoff, x));
    lemma_kept_set_closed(after, cutoff);
    lemma_collection_marks(t, cutoff);
    assert forall|k: int| 0 <= k < t.manifests.len() && t.keeps(
        cutoff,
        (#[trigger] t.manifests[k]).digest,
    ) implies after.manifests.contains(t.manifests[k]) by {
        assert(t.manifests.contains(t.manifests[k]));
        lemma_survives(t, cutoff, t.manifests[k]);
    }
    assert forall|x: Seq<char>| #[trigger] t.is_root(cutoff, x) implies kept_after.contains(x) by {
        lemma_root_is_kept(t, cutoff, x);
        if !t.is_tagged(x) {
            let k = choose|k: int|
                0 <= k < t.manifests.len() && (#[trigger] t.manifests[k]).digest == x && t.is_warm(
                    t.manifests[k],
                    cutoff,
                );
            let m = t.manifests[k];
            let i = choose|i: int| 0 <= i < after.manifests.len() && after.manifests[i] == m;
            assert(after.manifests[i].digest == x && after.is_warm(after.manifests[i], cutoff));
        } else {
            assert(after.is_tagged(x));
        }
        assert(after.is_root(cutoff, x));
    }
    assert forall|k: int| 0 <= k < t.manifests.len() implies row_closed(
        #[trigger] t.manifests[k],
        kept_after,
    ) by {
        let m = t.manifests[k];
        assert forall|from: Seq<char>, to: Seq<char>|
            kept_after.contains(from) && #[trigger] row_leads(m, from, to) implies kept_after.contains(to) by {
            lemma_collection_keeps_no_more(t, cutoff, from);
            assert(row_leads(t.manifests[k], from, to));
            assert(t.leads(from, to));
            lemma_step_is_kept(t, cutoff, from, to);
            assert(t.keeps(cutoff, t.manifests[k].digest));
            let i = choose|i: int| 0 <= i < after.manifests.len() && after.manifests[i] == m;
            assert(row_closed(after.manifests[i], kept_after));
        }
    }
    lemma_kept_is_inside(t, cutoff, kept_after, d);
}

/// A collection does not change what is worth keeping.
pub proof fn law_collection_preserves_keeps(t: Tables, cutoff: int, d: Seq<char>)
    ensures
        t.collected(cutoff).keeps(cutoff, d) == t.keeps(cutoff, d),
{
    if t.keeps(cutoff, d) {
        lemma_collection_keeps_no_less(t, cutoff, d);
    }
    if t.collected(cutoff).keeps(cutoff, d) {
        lemma_collection_keeps_no_more(t, cutoff, d);
    }
}

/// A longer retention deletes no manifest that a shorter one spares.
pub proof fn law_longer_retention_deletes_no_more(t: Tables, earlier: int, later: int, m: ManifestRowView)
    requires
        earlier <= later,
        t.condemns(earlier, m),
    ensures
        t.condemns(later, m),
{
    if t.keeps(later, m.digest) {
        let kept = Set::new(|d: Seq<char>| t.keeps(earlier, d));
        lemma_kept_set_closed(t, earlier);
        assert forall|d: Seq<char>| #[trigger] t.is_root(later, d) implies kept.contains(d) by {
            if !t.is_tagged(d) {
                let i = choose|i: int|
                    0 <= i < t.manifests.len() && (#[trigger] t.manifests[i]).digest == d && t.is_warm(
                        t.manifests[i],
                        later,
                    );
                let config = t.manifests[i].json.config->0;
                let k = choose|k: int|
                    0 <= k < t.blobs.len() && (#[trigger] t.blobs[k]).digest == config
                        && t.blobs[k].last_accessed >= later;
                assert(t.blobs[k].digest == config && t.blobs[k].last_accessed >= earlier);
                assert(t.is_warm(t.manifests[i], earlier));
            }
            assert(t.is_root(earlier, d));
        }
        assert(is_closed(t, later, kept));
        lemma_kept_is_inside(t, later, kept, m.digest);
    }
}

/// An index that nothing keeps goes in the collection after the one that deletes the last of
/// what it lists.
pub proof fn law_orphaned_index_goes_next(t: Tables, cutoff: int, index: ManifestRowView)
    requires
        index.json.manifests is Some,
        !t.keeps(cutoff, index.digest),
        forall|m: ManifestRowView|
            #![trigger t.condemns(cutoff, m)]
            t.manifests.contains(m) && lists(index, m.digest) ==> t.condemns(cutoff, m),
    ensures
        !t.collected(cutoff).collected(cutoff).manifests.contains(index),
{
    let after = t.collected(cutoff);
    law_collection_preserves_keeps(t, cutoff, index.digest);
    lemma_survives(after, cutoff, index);
    if after.lists_stored(index) {
        let i = choose|i: int|
            0 <= i < after.manifests.len() && lists(index, (#[trigger] after.manifests[i]).digest);
        assert(after.manifests.contains(after.manifests[i]));
        lemma_survives(t, cutoff, after.manifests[i]);
    }
}

/// Manifests with distinct digests still have distinct digests after a collection.
pub proof fn law_collection_preserves_distinct_digests(t: Tables, cutoff: int)
    requires
        t.digests_distinct(),
    ensures
        t.collected(cutoff).digests_distinct(),
{
    lemma_filter_distinct(t, |m: ManifestRowView| !t.condemns(cutoff, m));
}

/// Leaving out rows leaves the digests of the others distinct.
pub proof fn lemma_filter_distinct(t: Tables, pred: spec_fn(ManifestRowView) -> bool)
    requires
        t.digests_distinct(),
    ensures
        (Tables { manifests: t.manifests.filter(pred), ..t }).digests_distinct(),
    decreases t.manifests.len(),
{
    reveal(Seq::filter);
    if t.manifests.len() > 0 {
        let rows = t.manifests;
        let front = Tables { manifests: rows.drop_last(), ..t };
        assert forall|i: int, j: int|
            #![trigger front.manifests[i], front.manifests[j]]
            0 <= i < j < front.manifests.len() implies front.manifests[i].digest
            != front.manifests[j].digest by {
            assert(rows[i].digest != rows[j].digest);
        }
        lemma_filter_distinct(front, pred);
        let left = front.manifests.filter(pred);
        let less = Tables { manifests: left, ..front };
        assert(less.digests_distinct());
        let result = Tables { manifests: rows.filter(pred), ..t };
        assert forall|i: int, j: int|
            #![trigger result.manifests[i], result.manifests[j]]
            0 <= i < j < result.manifests.len() implies result.manifests[i].digest
            != result.manifests[j].digest by {
            assert(result.manifests[i] == left[i]);
            if j < left.len() {
                assert(result.manifests[j] == left[j]);
                assert(less.manifests[i].digest != less.manifests[j].digest);
            } else {
                assert(left.contains(left[i]));
                lemma_filter_contains_iff(front.manifests, pred, left[i]);
                let k = choose|k: int| 0 <= k < front.manifests.len() && front.manifests[k] == left[i];
                assert(rows[k] == left[i]);
                assert(rows[k].digest != rows[rows.len() - 1].digest);
            }
        }
    }
}

} // verus!
