//! The queries over stored manifests.

use vstd::hash_set::StringHashSet;
use vstd::prelude::*;
use vstd::set_lib::{lemma_len_subset, lemma_set_subset_finite};

use crate::repositories::models::{
    BlobRow, Manifest, ManifestBlobAssoc, ManifestBlobView, ManifestJson, ManifestReferrer,
    ManifestRow, ManifestRowView, ManifestView, ReferrerView, RepoBlobAssoc, RepoBlobView, Tables,
    TagRow, TagView,
};
use crate::repositories::retention::{
    is_closed, law_collection_adds_up, law_keeps_least_closed_set, lemma_filter_distinct,
    lemma_kept_is_inside, lists, row_closed, row_leads,
};
use crate::sequences::{lemma_filter_contains_iff, lemma_filter_take, lemma_push_contains, retain};
use crate::text::same_text;

verus! {

/// The rows that the queries read.
#[derive(Clone, Debug)]
pub struct ManifestRepository {
    pub manifests: Vec<ManifestRow>,
    pub tags: Vec<TagRow>,
    pub blobs: Vec<BlobRow>,
    pub manifest_blobs: Vec<ManifestBlobAssoc>,
    pub repo_blobs: Vec<RepoBlobAssoc>,
}

/// Why a query has no answer.
#[derive(Clone, Copy, Debug, PartialEq, Eq, Structural)]
pub enum RepositoryError {
    /// No row matches.
    RowNotFound,
    /// The document of a row that matches does not decode as an OCI manifest.
    Undecodable,
}

impl View for ManifestRepository {
    type V = Tables;

    open spec fn view(&self) -> Tables {
        Tables {
            manifests: self.manifests.deep_view(),
            tags: self.tags.deep_view(),
            blobs: self.blobs.deep_view(),
            manifest_blobs: self.manifest_blobs.deep_view(),
            repo_blobs: self.repo_blobs.deep_view(),
        }
    }
}

/// What is read of a stored manifest.
pub open spec fn manifest_of(row: ManifestRowView) -> ManifestView {
    ManifestView { blob: row.blob, media_type: row.json.media_type, digest: row.digest }
}

/// What is read of a manifest that refers to another.
pub open spec fn referrer_of(row: ManifestRowView) -> ReferrerView {
    ReferrerView { content: row.json.text, digest: row.digest, size: row.blob.len() as i64 }
}

impl Tables {
    /// Whether row `i` is the first with this digest.
    pub open spec fn is_row_of(self, digest: Seq<char>, i: int) -> bool {
        &&& 0 <= i < self.manifests.len()
        &&& self.manifests[i].digest == digest
        &&& forall|j: int| 0 <= j < i ==> (#[trigger] self.manifests[j]).digest != digest
    }

    /// The tables with a manifest more, unless its digest is taken.
    pub open spec fn with_manifest(self, row: ManifestRowView) -> Tables {
        if self.has_manifest(row.digest) {
            self
        } else {
            Tables { manifests: self.manifests.push(row), ..self }
        }
    }

    /// The tables without the manifest of this digest. The tags that point at it, and what it
    /// used, are forgotten with it.
    /// What ties it to a repository is left as it is: no query finds that without the
    /// manifest.
    pub open spec fn without_manifest(self, digest: Seq<char>) -> Tables {
        Tables {
            manifests: self.manifests.filter(|m: ManifestRowView| m.digest != digest),
            tags: self.tags.filter(|t: TagView| t.manifest_digest != digest),
            manifest_blobs: self.manifest_blobs.filter(
                |a: ManifestBlobView| a.manifest_digest != digest,
            ),
            ..self
        }
    }

    /// The tables without the manifests of these digests.
    pub open spec fn without_manifests(self, digests: Seq<Seq<char>>) -> Tables
        decreases digests.len(),
    {
        if digests.len() == 0 {
            self
        } else {
            self.without_manifests(digests.drop_last()).without_manifest(digests.last())
        }
    }

    /// The rows that tie a manifest to a repository.
    pub open spec fn holdings(self, repo: Seq<char>, digest: Seq<char>) -> Seq<RepoBlobView> {
        self.repo_blobs.filter(
            |a: RepoBlobView| a.repo_name == repo && a.manifest_digest == Some(digest),
        )
    }

    /// The referrers of `subject` in `repo` among the first `n` manifests: one for each row that
    /// ties a manifest with that subject to the repository.
    pub open spec fn referrers(self, repo: Seq<char>, subject: Seq<char>, n: nat) -> Seq<ReferrerView>
        decreases n,
    {
        if n == 0 {
            Seq::empty()
        } else {
            let row = self.manifests[n - 1];
            let before = self.referrers(repo, subject, (n - 1) as nat);
            if row.json.subject == Some(subject) {
                before + Seq::new(self.holdings(repo, row.digest).len(), |k: int| referrer_of(row))
            } else {
                before
            }
        }
    }

    /// Whether manifest `i` has `subject` as its subject and is tied to `repo`.
    pub open spec fn refers(self, repo: Seq<char>, subject: Seq<char>, i: int) -> bool {
        &&& 0 <= i < self.manifests.len()
        &&& self.manifests[i].json.subject == Some(subject)
        &&& self.holdings(repo, self.manifests[i].digest).len() > 0
    }

    /// Whether the documents of all the referrers of `subject` in `repo` decode.
    pub open spec fn referrers_decode(self, repo: Seq<char>, subject: Seq<char>) -> bool {
        forall|i: int| #[trigger] self.refers(repo, subject, i) ==> self.manifests[i].json.decodes
    }

    /// Whether the manifest uses the blob.
    pub open spec fn uses_blob(self, manifest_digest: Seq<char>, blob_digest: Seq<char>) -> bool {
        self.manifest_blobs.contains(ManifestBlobView { manifest_digest, blob_digest })
    }
}

/// The digests that the first entries of an index name.
spec fn entry_digests(entries: Seq<Option<Seq<char>>>) -> Set<Seq<char>>
    decreases entries.len(),
{
    if entries.len() == 0 {
        Set::empty()
    } else {
        match entries.last() {
            Some(d) => entry_digests(entries.drop_last()).insert(d),
            None => entry_digests(entries.drop_last()),
        }
    }
}

/// The digests that the manifests have or list.
spec fn row_digests(rows: Seq<ManifestRowView>) -> Set<Seq<char>>
    decreases rows.len(),
{
    if rows.len() == 0 {
        Set::empty()
    } else {
        let front = row_digests(rows.drop_last()).insert(rows.last().digest);
        match rows.last().json.manifests {
            Some(entries) => front.union(entry_digests(entries)),
            None => front,
        }
    }
}

/// The digests that the tags point at.
spec fn tag_digests(tags: Seq<TagView>) -> Set<Seq<char>>
    decreases tags.len(),
{
    if tags.len() == 0 {
        Set::empty()
    } else {
        tag_digests(tags.drop_last()).insert(tags.last().manifest_digest)
    }
}

/// Every digest that the tables could lead to.
spec fn all_digests(t: Tables) -> Set<Seq<char>> {
    tag_digests(t.tags).union(row_digests(t.manifests))
}

proof fn lemma_entry_digests(entries: Seq<Option<Seq<char>>>)
    ensures
        entry_digests(entries).finite(),
        forall|d: Seq<char>| entries.contains(Some(d)) ==> #[trigger] entry_digests(entries).contains(d),
    decreases entries.len(),
{
    if entries.len() > 0 {
        let front = entries.drop_last();
        lemma_entry_digests(front);
        assert forall|d: Seq<char>| entries.contains(Some(d)) implies #[trigger] entry_digests(
            entries,
        ).contains(d) by {
            let k = choose|k: int| 0 <= k < entries.len() && entries[k] == Some(d);
            if k < front.len() {
                assert(front[k] == Some(d));
                assert(entry_digests(front).contains(d));
            }
        }
    }
}

proof fn lemma_row_digests(rows: Seq<ManifestRowView>)
    ensures
        row_digests(rows).finite(),
        forall|i: int| 0 <= i < rows.len() ==> row_digests(rows).contains((#[trigger] rows[i]).digest),
        forall|i: int, d: Seq<char>|
            0 <= i < rows.len() && #[trigger] lists(rows[i], d) ==> row_digests(rows).contains(d),
    decreases rows.len(),
{
    if rows.len() > 0 {
        let front = rows.drop_last();
        lemma_row_digests(front);
        let last = rows.last();
        if last.json.manifests is Some {
            lemma_entry_digests(last.json.manifests->0);
        }
        assert forall|i: int| 0 <= i < rows.len() implies row_digests(rows).contains(
            (#[trigger] rows[i]).digest,
        ) by {
            if i < front.len() {
                assert(front[i] == rows[i]);
            }
        }
        assert forall|i: int, d: Seq<char>|
            0 <= i < rows.len() && #[trigger] lists(rows[i], d) implies row_digests(rows).contains(d) by {
            if i < front.len() {
                assert(lists(front[i], d));
            } else {
                assert(entry_digests(last.json.manifests->0).contains(d));
            }
        }
    }
}

proof fn lemma_tag_digests(tags: Seq<TagView>)
    ensures
        tag_digests(tags).finite(),
        forall|i: int| 0 <= i < tags.len() ==> tag_digests(tags).contains((#[trigger] tags[i]).manifest_digest),
    decreases tags.len(),
{
    if tags.len() > 0 {
        let front = tags.drop_last();
        lemma_tag_digests(front);
        assert forall|i: int| 0 <= i < tags.len() implies tag_digests(tags).contains(
            (#[trigger] tags[i]).manifest_digest,
        ) by {
            if i < front.len() {
                assert(front[i] == tags[i]);
            }
        }
    }
}

proof fn lemma_all_digests_closed(t: Tables, cutoff: int)
    ensures
        all_digests(t).finite(),
        is_closed(t, cutoff, all_digests(t)),
{
    lemma_tag_digests(t.tags);
    lemma_row_digests(t.manifests);
    let all = all_digests(t);
    assert forall|i: int| 0 <= i < t.manifests.len() implies row_closed(#[trigger] t.manifests[i], all) by {
        assert forall|from: Seq<char>, to: Seq<char>|
            all.contains(from) && #[trigger] row_leads(t.manifests[i], from, to) implies all.contains(to) by {
            if lists(t.manifests[i], to) {
            } else {
                assert(t.manifests[i].digest == to);
            }
        }
    }
}

/// Whether an entry of an index names one of the digests.
fn lists_any(entries: &Vec<Option<String>>, digests: &StringHashSet) -> (r: bool)
    ensures
        r <==> exists|d: Seq<char>|
            #![trigger digests@.contains(d)]
            entries.deep_view().contains(Some(d)) && digests@.contains(d),
{
    let ghost all = entries.deep_view();
    let mut i: usize = 0;
    while i < entries.len()
        invariant
            i <= entries@.len(),
            all == entries.deep_view(),
            forall|j: int|
                0 <= j < i ==> (#[trigger] all[j] matches Some(d) ==> !digests@.contains(d)),
        decreases entries@.len() - i,
    {
        if let Some(d) = &entries[i] {
            assert(all[i as int] == Some(d@));
            if digests.contains(d.as_str()) {
                assert(all.contains(Some(d@)));
                return true;
            }
        } else {
            assert(all[i as int] is None);
        }
        i = i + 1;
    }
    false
}

/// Adds to `keep` what this manifest leads to from inside it. Says whether that was anything new.
fn spread(row: &ManifestRow, keep: &mut StringHashSet) -> (grew: bool)
    requires
        old(keep)@.finite(),
    ensures
        old(keep)@.subset_of(final(keep)@),
        forall|s: Set<Seq<char>>|
            old(keep)@.subset_of(s) && #[trigger] row_closed(row.deep_view(), s) ==> final(keep)@.subset_of(s),
        final(keep)@.finite(),
        grew ==> old(keep)@.len() < final(keep)@.len(),
        !grew ==> final(keep)@ == old(keep)@ && row_closed(row.deep_view(), final(keep)@),
{
    let ghost start = keep@;
    let ghost m = row.deep_view();
    let mut grew = false;
    let own = keep.contains(row.digest.as_str());
    if own {
        if let Some(entries) = &row.json.manifests {
            let n: usize = entries.len();
            let mut k: usize = 0;
            while k < n
                invariant
                    k <= n,
                    n == entries@.len(),
                    m == row.deep_view(),
                    m.json.manifests == Some(entries.deep_view()),
                    start.contains(m.digest),
                    start.finite(),
                    start.subset_of(keep@),
                    keep@.finite(),
                    forall|s: Set<Seq<char>>|
                        start.subset_of(s) && #[trigger] row_closed(m, s) ==> keep@.subset_of(s),
                    grew ==> start.len() < keep@.len(),
                    !grew ==> keep@ == start,
                    forall|j: int, d: Seq<char>|
                        #![trigger entries.deep_view()[j], keep@.contains(d)]
                        0 <= j < k && entries.deep_view()[j] == Some(d) ==> keep@.contains(d),
                decreases n - k,
            {
                let ghost before = keep@;
                if let Some(d) = &entries[k] {
                    assert(entries.deep_view()[k as int] == Some(d@));
                    assert(row_leads(m, m.digest, d@)) by {
                        assert(entries.deep_view().contains(Some(d@)));
                    }
                    if keep.insert(d.clone()) {
                        grew = true;
                    } else {
                        assert(keep@ =~= before);
                    }
                    proof {
                        if start.len() <= before.len() {
                            lemma_len_subset(before, keep@);
                        }
                    }
                } else {
                    assert(entries.deep_view()[k as int] is None);
                }
                k = k + 1;
            }
        }
    }
    let ghost middle = keep@;
    assert(!grew && own ==> forall|d: Seq<char>| lists(m, d) ==> start.contains(d)) by {
        if !grew && own {
            assert forall|d: Seq<char>| lists(m, d) implies start.contains(d) by {
                let entries = m.json.manifests->0;
                let j = choose|j: int| 0 <= j < entries.len() && entries[j] == Some(d);
                assert(entries[j] == Some(d));
            }
        }
    }
    if let Some(subject) = &row.json.subject {
        if keep.contains(subject.as_str()) {
            assert(row_leads(m, subject@, m.digest));
            if keep.insert(row.digest.clone()) {
                grew = true;
            } else {
                assert(keep@ =~= middle);
            }
        }
    }
    grew
}

impl ManifestRepository {
    /// A repository with these rows.
    pub fn new(
        manifests: Vec<ManifestRow>,
        tags: Vec<TagRow>,
        blobs: Vec<BlobRow>,
        manifest_blobs: Vec<ManifestBlobAssoc>,
        repo_blobs: Vec<RepoBlobAssoc>,
    ) -> (r: Self)
        ensures
            r@ == (Tables {
                manifests: manifests.deep_view(),
                tags: tags.deep_view(),
                blobs: blobs.deep_view(),
                manifest_blobs: manifest_blobs.deep_view(),
                repo_blobs: repo_blobs.deep_view(),
            }),
    {
        ManifestRepository { manifests, tags, blobs, manifest_blobs, repo_blobs }
    }

    /// Where the manifest with this digest stands.
    fn position(&self, digest: &str) -> (r: Option<usize>)
        ensures
            r is None <==> !self@.has_manifest(digest@),
            r matches Some(i) ==> self@.is_row_of(digest@, i as int),
    {
        let mut i: usize = 0;
        while i < self.manifests.len()
            invariant
                i <= self.manifests@.len(),
                forall|j: int| 0 <= j < i ==> (#[trigger] self@.manifests[j]).digest != digest@,
            decreases self.manifests@.len() - i,
        {
            assert(self@.manifests[i as int] == self.manifests@[i as int].deep_view());
            if same_text(self.manifests[i].digest.as_str(), digest) {
                return Some(i);
            }
            i = i + 1;
        }
        None
    }

    /// The manifest with this digest.
    pub fn find(&self, digest: &str) -> (r: Result<Manifest, RepositoryError>)
        ensures
            !self@.has_manifest(digest@) ==> r == Err::<Manifest, RepositoryError>(
                RepositoryError::RowNotFound,
            ),
            self@.has_manifest(digest@) ==> r is Ok,
            r matches Ok(m) ==> exists|i: int| #[trigger]
                self@.is_row_of(digest@, i) && m.deep_view() == manifest_of(self@.manifests[i]),
            r is Ok <==> exists|i: int|
                0 <= i < self.manifests@.len() && (#[trigger] self.manifests@[i]).digest@ == digest@,
            r matches Ok(m) ==> m.digest@ == digest@ && exists|i: int|
                0 <= i < self.manifests@.len() && (#[trigger] self.manifests@[i]).digest@ == digest@
                    && m.blob@ == self.manifests@[i].blob@ && m.media_type.deep_view()
                    == self.manifests@[i].json.media_type.deep_view(),
    {
        proof {
            assert forall|i: int| 0 <= i < self.manifests@.len() implies (
            #[trigger] self.manifests@[i]).digest@ == self@.manifests[i].digest by {}
        }
        match self.position(digest) {
            Some(i) => {
                let row = &self.manifests[i];
                assert(self@.manifests[i as int] == row.deep_view());
                assert(self@.is_row_of(digest@, i as int));
                let m = Manifest {
                    blob: row.blob.clone(),
                    media_type: row.json.media_type.clone(),
                    digest: row.digest.clone(),
                };
                assert(m.blob@ =~= row.blob@);
                Ok(m)
            },
            None => Err(RepositoryError::RowNotFound),
        }
    }

    /// Stores a manifest, unless its digest is taken. Says whether it was stored.
    pub fn insert_or_ignore(&mut self, digest: &str, blob: Vec<u8>, json: ManifestJson) -> (inserted: bool)
        ensures
            inserted == !old(self)@.has_manifest(digest@),
            final(self)@ == old(self)@.with_manifest(
                (ManifestRowView { digest: digest@, blob: blob@, json: json.deep_view() }),
            ),
    {
        if self.position(digest).is_some() {
            return false;
        }
        let ghost rows = self.manifests.deep_view();
        let row = ManifestRow { digest: digest.to_owned(), blob, json };
        let ghost added = row.deep_view();
        self.manifests.push(row);
        assert(self.manifests.deep_view() =~= rows.push(added));
        true
    }

    /// Deletes the manifest with this digest.
    pub fn delete(&mut self, digest: &str)
        ensures
            final(self)@ == old(self)@.without_manifest(digest@),
    {
        let mut manifests: Vec<ManifestRow> = Vec::new();
        core::mem::swap(&mut manifests, &mut self.manifests);
        let is_other = |m: &ManifestRow| -> (b: bool)
            ensures
                b == (m.digest@ != digest@),
        {
            !same_text(m.digest.as_str(), digest)
        };
        self.manifests = retain(
            manifests,
            is_other,
            Ghost(|m: ManifestRowView| m.digest != digest@),
        );
        let mut tags: Vec<TagRow> = Vec::new();
        core::mem::swap(&mut tags, &mut self.tags);
        let is_other = |t: &TagRow| -> (b: bool)
            ensures
                b == (t.manifest_digest@ != digest@),
        {
            !same_text(t.manifest_digest.as_str(), digest)
        };
        self.tags = retain(
            tags,
            is_other,
            Ghost(|t: TagView| t.manifest_digest != digest@),
        );
        let mut manifest_blobs: Vec<ManifestBlobAssoc> = Vec::new();
        core::mem::swap(&mut manifest_blobs, &mut self.manifest_blobs);
        let is_other = |a: &ManifestBlobAssoc| -> (b: bool)
            ensures
                b == (a.manifest_digest@ != digest@),
        {
            !same_text(a.manifest_digest.as_str(), digest)
        };
        self.manifest_blobs = retain(
            manifest_blobs,
            is_other,
            Ghost(|a: ManifestBlobView| a.manifest_digest != digest@),
        );
    }

    /// The manifests in `repo` that have `digest` as their subject. There is no answer if the
    /// document of one of them does not decode.
    pub fn list_referrers(&self, repo: &str, digest: &str) -> (r: Result<
        Vec<ManifestReferrer>,
        RepositoryError,
    >)
        ensures
            r is Ok <==> self@.referrers_decode(repo@, digest@),
            r matches Err(e) ==> e == RepositoryError::Undecodable,
            r matches Ok(found) ==> found.deep_view() == self@.referrers(
                repo@,
                digest@,
                self@.manifests.len(),
            ),
    {
        let ghost t = self@;
        let mut found: Vec<ManifestReferrer> = Vec::new();
        assert(found.deep_view() =~= t.referrers(repo@, digest@, 0));
        let mut i: usize = 0;
        while i < self.manifests.len()
            invariant
                i <= self.manifests@.len(),
                t == self@,
                found.deep_view() == t.referrers(repo@, digest@, i as nat),
                forall|j: int|
                    j < i && #[trigger] t.refers(repo@, digest@, j) ==> t.manifests[j].json.decodes,
            decreases self.manifests@.len() - i,
        {
            let row = &self.manifests[i];
            assert(t.manifests[i as int] == row.deep_view());
            let matches = match &row.json.subject {
                Some(subject) => same_text(subject.as_str(), digest),
                None => false,
            };
            if matches {
                let times: usize = self.count_holdings(repo, row.digest.as_str());
                if times > 0 && !row.json.decodes {
                    assert(t.refers(repo@, digest@, i as int));
                    return Err(RepositoryError::Undecodable);
                }
                let ghost before = found.deep_view();
                let ghost this = referrer_of(row.deep_view());
                let mut k: usize = 0;
                assert(found.deep_view() =~= before + Seq::new(0, |j: int| this));
                while k < times
                    invariant
                        k <= times,
                        this == referrer_of(row.deep_view()),
                        found.deep_view() == before + Seq::new(k as nat, |j: int| this),
                    decreases times - k,
                {
                    let referrer = ManifestReferrer {
                        content: row.json.text.clone(),
                        digest: row.digest.clone(),
                        size: row.blob.len() as i64,
                    };
                    assert(referrer.deep_view() == this);
                    let ghost so_far = found.deep_view();
                    found.push(referrer);
                    assert(found.deep_view() =~= so_far.push(this));
                    assert(found.deep_view() =~= before + Seq::new((k + 1) as nat, |j: int| this));
                    k = k + 1;
                }
                assert(Seq::new(times as nat, |j: int| this) =~= Seq::new(
                    t.holdings(repo@, row.digest@).len(),
                    |j: int| referrer_of(t.manifests[i as int]),
                ));
            }
            i = i + 1;
        }
        Ok(found)
    }

    /// How many rows tie the manifest to the repository.
    fn count_holdings(&self, repo: &str, digest: &str) -> (n: usize)
        ensures
            n == self@.holdings(repo@, digest@).len(),
    {
        let ghost rows = self@.repo_blobs;
        let ghost held = |a: RepoBlobView| a.repo_name == repo@ && a.manifest_digest == Some(digest@);
        let mut n: usize = 0;
        let mut i: usize = 0;
        proof {
            reveal(Seq::filter);
            assert(rows.take(0).filter(held).len() == 0);
        }
        while i < self.repo_blobs.len()
            invariant
                i <= self.repo_blobs@.len(),
                n <= i,
                rows == self@.repo_blobs,
                held == (|a: RepoBlobView|
                    a.repo_name == repo@ && a.manifest_digest == Some(digest@)),
                n == rows.take(i as int).filter(held).len(),
            decreases self.repo_blobs@.len() - i,
        {
            let row = &self.repo_blobs[i];
            assert(rows[i as int] == row.deep_view());
            proof {
                lemma_filter_take(rows, i as int, held);
            }
            if same_text(row.repo_name.as_str(), repo) {
                if let Some(d) = &row.manifest_digest {
                    if same_text(d.as_str(), digest) {
                        n = n + 1;
                    }
                }
            }
            i = i + 1;
        }
        assert(rows.take(rows.len() as int) =~= rows);
        n
    }

    /// The digests of the manifests that use the blob, each once.
    pub fn list_manifests_using_blob(&self, blob_digest: &str) -> (r: Vec<String>)
        ensures
            r.deep_view().no_duplicates(),
            forall|d: Seq<char>| r.deep_view().contains(d) <==> #[trigger] self@.uses_blob(
                d,
                blob_digest@,
            ),
            forall|k: int|
                0 <= k < self.manifest_blobs@.len() && (#[trigger] self.manifest_blobs@[k]).blob_digest@
                    == blob_digest@ ==> r.deep_view().contains(
                    self.manifest_blobs@[k].manifest_digest@,
                ),
            forall|d: Seq<char>| #[trigger]
                r.deep_view().contains(d) ==> exists|k: int|
                    0 <= k < self.manifest_blobs@.len() && (
                    #[trigger] self.manifest_blobs@[k]).blob_digest@ == blob_digest@
                        && self.manifest_blobs@[k].manifest_digest@ == d,
    {
        let ghost rows = self@.manifest_blobs;
        let mut seen = StringHashSet::new();
        let mut found: Vec<String> = Vec::new();
        let mut i: usize = 0;
        while i < self.manifest_blobs.len()
            invariant
                i <= self.manifest_blobs@.len(),
                rows == self@.manifest_blobs,
                found.deep_view().no_duplicates(),
                forall|d: Seq<char>| #[trigger] seen@.contains(d) <==> found.deep_view().contains(d),
                forall|d: Seq<char>| #[trigger] seen@.contains(d) <==> rows.take(i as int).contains(
                    ManifestBlobView { manifest_digest: d, blob_digest: blob_digest@ },
                ),
            decreases self.manifest_blobs@.len() - i,
        {
            let row = &self.manifest_blobs[i];
            let ghost this = row.deep_view();
            let ghost before = found.deep_view();
            assert(rows[i as int] == this);
            assert(rows.take(i + 1) =~= rows.take(i as int).push(this));
            if same_text(row.blob_digest.as_str(), blob_digest) {
                if seen.insert(row.manifest_digest.clone()) {
                    found.push(row.manifest_digest.clone());
                    assert(found.deep_view() =~= before.push(this.manifest_digest));
                    proof {
                        lemma_push_contains(before, this.manifest_digest);
                    }
                }
            }
            proof {
                lemma_push_contains(rows.take(i as int), this);
            }
            i = i + 1;
        }
        assert(rows.take(rows.len() as int) =~= rows);
        assert forall|d: Seq<char>| found.deep_view().contains(d) <==> #[trigger] self@.uses_blob(
            d,
            blob_digest@,
        ) by {
            assert(seen@.contains(d) <==> found.deep_view().contains(d));
        }
        proof {
            assert forall|k: int|
                0 <= k < self.manifest_blobs@.len() && (#[trigger] self.manifest_blobs@[k]).blob_digest@
                    == blob_digest@ implies found.deep_view().contains(
                self.manifest_blobs@[k].manifest_digest@,
            ) by {
                let d = self.manifest_blobs@[k].manifest_digest@;
                assert(rows[k] == (ManifestBlobView { manifest_digest: d, blob_digest: blob_digest@ }));
                assert(self@.uses_blob(d, blob_digest@));
            }
            assert forall|d: Seq<char>| #[trigger] found.deep_view().contains(d) implies exists|k: int|
                0 <= k < self.manifest_blobs@.len() && (#[trigger] self.manifest_blobs@[k]).blob_digest@
                    == blob_digest@ && self.manifest_blobs@[k].manifest_digest@ == d by {
                assert(self@.uses_blob(d, blob_digest@));
                let k = choose|k: int|
                    0 <= k < rows.len() && rows[k] == (ManifestBlobView {
                        manifest_digest: d,
                        blob_digest: blob_digest@,
                    });
                assert(self.manifest_blobs@[k].deep_view() == rows[k]);
            }
        }
        found
    }
}

impl ManifestRepository {
    /// Deletes every manifest that is not worth keeping and that nothing worth keeping leads to,
    /// if it has gone untouched for `retention_secs` seconds at the time `now`, or is an index
    /// that lists no stored manifest. Hands back the digests of the deleted ones.
    ///
    /// A manifest that no tag points at keeps its layers pinned, and tags are repointed whenever
    /// they are pushed again, so this accumulates once per overwrite.
    ///
    /// An index becomes collectable only when what it lists is gone, so this has to be repeated
    /// until nothing is deleted.
    pub fn delete_untagged_older_than(&mut self, retention_secs: i64, now: i64) -> (deleted: Vec<String>)
        ensures
            deleted.deep_view() == old(self)@.condemned(now - retention_secs).map_values(
                |m: ManifestRowView| m.digest,
            ),
            final(self)@ == old(self)@.collected(now - retention_secs),
            final(self).tags@ == old(self).tags@,
            final(self).blobs@ == old(self).blobs@,
            final(self).repo_blobs@ == old(self).repo_blobs@,
            deleted@.len() + final(self).manifests@.len() == old(self).manifests@.len(),
    {
        proof {
            law_collection_adds_up(self@, now - retention_secs);
        }
        let cutoff: i128 = now as i128 - retention_secs as i128;
        let ghost t = self@;
        let ghost at = now - retention_secs;
        let ghost goes = |m: ManifestRowView| t.condemns(at, m);
        let ghost stays = |m: ManifestRowView| !t.condemns(at, m);
        let ghost digest_of = |m: ManifestRowView| m.digest;
        let condemned = self.condemned_rows(cutoff);
        let mut rows: Vec<ManifestRow> = Vec::new();
        core::mem::swap(&mut rows, &mut self.manifests);
        let mut deleted: Vec<String> = Vec::new();
        let mut gone = StringHashSet::new();
        let mut manifests: Vec<ManifestRow> = Vec::new();
        let mut i: usize = 0;
        proof {
            reveal(Seq::filter);
            assert(deleted.deep_view() =~= t.manifests.take(0).filter(goes).map_values(digest_of));
            assert(manifests.deep_view() =~= t.manifests.take(0).filter(stays));
        }
        for row in it: rows
            invariant
                it.seq() == rows@,
                rows.deep_view() == t.manifests,
                i == it.index(),
                condemned@.len() == rows@.len(),
                forall|j: int|
                    0 <= j < rows@.len() ==> #[trigger] condemned@[j] == t.condemns(at, t.manifests[j]),
                goes == (|m: ManifestRowView| t.condemns(at, m)),
                stays == (|m: ManifestRowView| !t.condemns(at, m)),
                digest_of == (|m: ManifestRowView| m.digest),
                deleted.deep_view() == t.manifests.take(i as int).filter(goes).map_values(digest_of),
                manifests.deep_view() == t.manifests.take(i as int).filter(stays),
                forall|d: Seq<char>| #[trigger] gone@.contains(d) <==> exists|j: int|
                    0 <= j < i && (#[trigger] t.manifests[j]).digest == d && t.condemns(at, t.manifests[j]),
        {
            let ghost this = row.deep_view();
            let ghost doomed = t.manifests.take(i as int).filter(goes);
            let ghost names = deleted.deep_view();
            let ghost left = manifests.deep_view();
            assert(this == t.manifests[i as int]);
            proof {
                lemma_filter_take(t.manifests, i as int, goes);
                lemma_filter_take(t.manifests, i as int, stays);
            }
            if condemned[i] {
                gone.insert(row.digest.clone());
                deleted.push(row.digest);
                assert(deleted.deep_view() =~= names.push(this.digest));
                assert(doomed.push(this).map_values(digest_of) =~= doomed.map_values(digest_of).push(
                    this.digest,
                ));
            } else {
                manifests.push(row);
                assert(manifests.deep_view() =~= left.push(this));
            }
            assert(i < condemned.len());
            i = i + 1;
        }
        assert(t.manifests.take(t.manifests.len() as int) =~= t.manifests);
        self.manifests = manifests;
        let mut manifest_blobs: Vec<ManifestBlobAssoc> = Vec::new();
        core::mem::swap(&mut manifest_blobs, &mut self.manifest_blobs);
        let is_left = |a: &ManifestBlobAssoc| -> (b: bool)
            ensures
                b == !gone@.contains(a.manifest_digest@),
        {
            !gone.contains(a.manifest_digest.as_str())
        };
        let ghost stays_tied = |a: ManifestBlobView| !t.condemns_digest(at, a.manifest_digest);
        assert forall|d: Seq<char>| #[trigger] gone@.contains(d) <==> t.condemns_digest(at, d) by {
        }
        self.manifest_blobs = retain(manifest_blobs, is_left, Ghost(stays_tied));
        deleted
    }

    /// For each manifest, whether it goes.
    fn condemned_rows(&self, cutoff: i128) -> (condemned: Vec<bool>)
        ensures
            condemned@.len() == self@.manifests.len(),
            forall|j: int|
                0 <= j < condemned@.len() ==> #[trigger] condemned@[j] == self@.condemns(
                    cutoff as int,
                    self@.manifests[j],
                ),
    {
        let ghost t = self@;
        let keep = self.keep_set(cutoff);
        let stored = self.blob_digests();
        let present = self.manifest_digests();
        let mut condemned: Vec<bool> = Vec::new();
        let mut i: usize = 0;
        while i < self.manifests.len()
            invariant
                i <= self.manifests@.len(),
                t == self@,
                forall|d: Seq<char>| keep@.contains(d) <==> #[trigger] t.keeps(cutoff as int, d),
                forall|d: Seq<char>| stored@.contains(d) <==> #[trigger] t.has_blob(d),
                forall|d: Seq<char>| present@.contains(d) <==> #[trigger] t.has_manifest(d),
                condemned@.len() == i,
                forall|j: int|
                    0 <= j < i ==> #[trigger] condemned@[j] == t.condemns(
                        cutoff as int,
                        t.manifests[j],
                    ),
            decreases self.manifests@.len() - i,
        {
            let row = &self.manifests[i];
            let ghost m = row.deep_view();
            assert(t.manifests[i as int] == m);
            let kept = keep.contains(row.digest.as_str());
            assert(kept == t.keeps(cutoff as int, m.digest));
            let ages = match &row.json.config {
                Some(config) => {
                    assert(stored@.contains(config@) <==> t.has_blob(config@));
                    stored.contains(config.as_str())
                },
                None => false,
            };
            assert(ages == t.can_age(m));
            let hollow = match &row.json.manifests {
                Some(entries) => !lists_any(entries, &present),
                None => false,
            };
            assert(hollow == (m.json.manifests is Some && !t.lists_stored(m))) by {
                if m.json.manifests is Some {
                    let entries = m.json.manifests->0;
                    if t.lists_stored(m) {
                        let k = choose|k: int|
                            0 <= k < t.manifests.len() && lists(m, (#[trigger] t.manifests[k]).digest);
                        let d = t.manifests[k].digest;
                        assert(t.has_manifest(d));
                        assert(entries.contains(Some(d)) && present@.contains(d));
                    }
                    if !hollow {
                        let d = choose|d: Seq<char>|
                            #![trigger present@.contains(d)]
                            entries.contains(Some(d)) && present@.contains(d);
                        assert(t.has_manifest(d));
                        let k = choose|k: int|
                            0 <= k < t.manifests.len() && (#[trigger] t.manifests[k]).digest == d;
                        assert(lists(m, t.manifests[k].digest));
                    }
                }
            }
            condemned.push(!kept && (ages || hollow));
            i = i + 1;
        }
        condemned
    }

    /// The digests of the stored blobs.
    fn blob_digests(&self) -> (r: StringHashSet)
        ensures
            forall|d: Seq<char>| r@.contains(d) <==> #[trigger] self@.has_blob(d),
    {
        let ghost t = self@;
        let mut digests = StringHashSet::new();
        let mut i: usize = 0;
        while i < self.blobs.len()
            invariant
                i <= self.blobs@.len(),
                t == self@,
                forall|d: Seq<char>| #[trigger] digests@.contains(d) <==> exists|j: int|
                    0 <= j < i && (#[trigger] t.blobs[j]).digest == d,
            decreases self.blobs@.len() - i,
        {
            assert(t.blobs[i as int] == self.blobs@[i as int].deep_view());
            digests.insert(self.blobs[i].digest.clone());
            i = i + 1;
        }
        digests
    }

    /// The digests of the stored manifests.
    fn manifest_digests(&self) -> (r: StringHashSet)
        ensures
            forall|d: Seq<char>| r@.contains(d) <==> #[trigger] self@.has_manifest(d),
    {
        let ghost t = self@;
        let mut digests = StringHashSet::new();
        let mut i: usize = 0;
        while i < self.manifests.len()
            invariant
                i <= self.manifests@.len(),
                t == self@,
                forall|d: Seq<char>| #[trigger] digests@.contains(d) <==> exists|j: int|
                    0 <= j < i && (#[trigger] t.manifests[j]).digest == d,
            decreases self.manifests@.len() - i,
        {
            assert(t.manifests[i as int] == self.manifests@[i as int].deep_view());
            digests.insert(self.manifests[i].digest.clone());
            i = i + 1;
        }
        digests
    }
}

impl ManifestRepository {
    /// The digests worth keeping.
    fn keep_set(&self, cutoff: i128) -> (keep: StringHashSet)
        ensures
            forall|d: Seq<char>| keep@.contains(d) <==> #[trigger] self@.keeps(cutoff as int, d),
    {
        let ghost t = self@;
        let ghost kept = Set::new(|d: Seq<char>| t.keeps(cutoff as int, d));
        let ghost all = all_digests(t);
        proof {
            lemma_all_digests_closed(t, cutoff as int);
            law_keeps_least_closed_set(t, cutoff as int, all);
        }
        let mut keep = self.root_set(cutoff);
        assert forall|d: Seq<char>| keep@.contains(d) implies kept.contains(d) by {
            assert(t.is_root(cutoff as int, d));
        }
        proof {
            lemma_set_subset_finite(all, keep@);
        }
        let mut changed = true;
        while changed
            invariant
                t == self@,
                is_closed(t, cutoff as int, kept),
                all.finite(),
                kept.subset_of(all),
                keep@.subset_of(kept),
                keep@.finite(),
                forall|d: Seq<char>| #[trigger] t.is_root(cutoff as int, d) ==> keep@.contains(d),
                !changed ==> is_closed(t, cutoff as int, keep@),
            decreases all.len() - keep@.len(), changed as int,
        {
            let ghost start = keep@;
            proof {
                lemma_len_subset(start, all);
            }
            changed = false;
            let n: usize = self.manifests.len();
            let mut i: usize = 0;
            while i < n
                invariant
                    i <= n,
                    n == self.manifests@.len(),
                    t == self@,
                    is_closed(t, cutoff as int, kept),
                    start.subset_of(keep@),
                    keep@.subset_of(kept),
                    keep@.finite(),
                    start.finite(),
                    changed ==> start.len() < keep@.len(),
                    !changed ==> keep@ == start,
                    !changed ==> forall|j: int|
                        0 <= j < i ==> row_closed(#[trigger] t.manifests[j], keep@),
                decreases n - i,
            {
                let ghost before = keep@;
                assert(t.manifests[i as int] == self.manifests@[i as int].deep_view());
                let grew = spread(&self.manifests[i], &mut keep);
                assert(row_closed(t.manifests[i as int], kept));
                if grew {
                    proof {
                        lemma_len_subset(start, before);
                    }
                    changed = true;
                }
                i = i + 1;
            }
            proof {
                lemma_len_subset(keep@, all);
            }
        }
        assert forall|d: Seq<char>| keep@.contains(d) <==> #[trigger] self@.keeps(cutoff as int, d) by {
            if t.keeps(cutoff as int, d) {
                lemma_kept_is_inside(t, cutoff as int, keep@, d);
            }
            if keep@.contains(d) {
                assert(kept.contains(d));
            }
        }
        keep
    }

    /// The digests that are kept whatever leads to them.
    fn root_set(&self, cutoff: i128) -> (roots: StringHashSet)
        ensures
            forall|d: Seq<char>| roots@.contains(d) <==> #[trigger] self@.is_root(cutoff as int, d),
    {
        let ghost t = self@;
        let mut fresh = StringHashSet::new();
        let mut i: usize = 0;
        while i < self.blobs.len()
            invariant
                i <= self.blobs@.len(),
                t == self@,
                forall|d: Seq<char>| #[trigger] fresh@.contains(d) <==> exists|j: int|
                    0 <= j < i && (#[trigger] t.blobs[j]).digest == d && t.blobs[j].last_accessed >= cutoff,
            decreases self.blobs@.len() - i,
        {
            let blob = &self.blobs[i];
            assert(t.blobs[i as int] == blob.deep_view());
            if blob.last_accessed as i128 >= cutoff {
                fresh.insert(blob.digest.clone());
            }
            i = i + 1;
        }
        let mut roots = StringHashSet::new();
        let mut k: usize = 0;
        while k < self.tags.len()
            invariant
                k <= self.tags@.len(),
                t == self@,
                forall|d: Seq<char>| #[trigger] roots@.contains(d) <==> exists|j: int|
                    0 <= j < k && (#[trigger] t.tags[j]).manifest_digest == d,
            decreases self.tags@.len() - k,
        {
            assert(t.tags[k as int] == self.tags@[k as int].deep_view());
            roots.insert(self.tags[k].manifest_digest.clone());
            k = k + 1;
        }
        assert(forall|d: Seq<char>| roots@.contains(d) <==> #[trigger] t.is_tagged(d));
        assert(forall|d: Seq<char>| fresh@.contains(d) <==> #[trigger] t.has_blob_since(d, cutoff as int));
        let mut n: usize = 0;
        while n < self.manifests.len()
            invariant
                n <= self.manifests@.len(),
                t == self@,
                forall|d: Seq<char>| fresh@.contains(d) <==> #[trigger] t.has_blob_since(d, cutoff as int),
                forall|d: Seq<char>| #[trigger] roots@.contains(d) <==> t.is_tagged(d) || exists|j: int|
                    0 <= j < n && (#[trigger] t.manifests[j]).digest == d && t.is_warm(
                        t.manifests[j],
                        cutoff as int,
                    ),
            decreases self.manifests@.len() - n,
        {
            let row = &self.manifests[n];
            assert(t.manifests[n as int] == row.deep_view());
            if let Some(config) = &row.json.config {
                if fresh.contains(config.as_str()) {
                    assert(t.is_warm(t.manifests[n as int], cutoff as int));
                    roots.insert(row.digest.clone());
                }
            }
            n = n + 1;
        }
        roots
    }
}

/// A stored manifest is read back as it was written, unless its digest was taken: then what was
/// there before is read.
pub proof fn law_find_after_insert(t: Tables, row: ManifestRowView, i: int)
    requires
        t.with_manifest(row).is_row_of(row.digest, i),
    ensures
        !t.has_manifest(row.digest) ==> t.with_manifest(row).manifests[i] == row,
        t.has_manifest(row.digest) ==> t.is_row_of(row.digest, i),
{
    if !t.has_manifest(row.digest) && i < t.manifests.len() {
        assert(t.manifests[i].digest == row.digest);
    }
}

/// Storing a manifest leaves what is read of every other digest as it was.
pub proof fn law_insert_leaves_others(t: Tables, row: ManifestRowView, other: Seq<char>, i: int)
    requires
        other != row.digest,
    ensures
        t.with_manifest(row).is_row_of(other, i) <==> t.is_row_of(other, i),
        t.is_row_of(other, i) ==> t.with_manifest(row).manifests[i] == t.manifests[i],
{
    let after = t.with_manifest(row);
    if !t.has_manifest(row.digest) {
        assert(forall|j: int| 0 <= j < t.manifests.len() ==> after.manifests[j] == t.manifests[j]);
        if t.is_row_of(other, i) {
            assert forall|j: int| 0 <= j < i implies (#[trigger] after.manifests[j]).digest != other by {
                assert(t.manifests[j].digest != other);
            }
        }
        if after.is_row_of(other, i) {
            assert forall|j: int| 0 <= j < i implies (#[trigger] t.manifests[j]).digest != other by {
                assert(after.manifests[j].digest != other);
            }
        }
    }
}

/// Storing a manifest twice is storing it once.
pub proof fn law_insert_twice_is_once(t: Tables, row: ManifestRowView, again: ManifestRowView)
    requires
        again.digest == row.digest,
    ensures
        t.with_manifest(row).with_manifest(again) == t.with_manifest(row),
{
    if !t.has_manifest(row.digest) {
        let after = t.with_manifest(row);
        assert(after.manifests[t.manifests.len() as int].digest == row.digest);
    }
}

/// A deleted manifest is gone, with the tags that pointed at it and what it used; every other
/// manifest is still there.
pub proof fn law_delete_removes_one(t: Tables, digest: Seq<char>, m: ManifestRowView, blob: Seq<char>)
    ensures
        !t.without_manifest(digest).has_manifest(digest),
        !t.without_manifest(digest).is_tagged(digest),
        !t.without_manifest(digest).uses_blob(digest, blob),
        m.digest != digest ==> (t.without_manifest(digest).manifests.contains(m)
            <==> t.manifests.contains(m)),
{
    let after = t.without_manifest(digest);
    let other = |x: ManifestRowView| x.digest != digest;
    lemma_filter_contains_iff(t.manifests, other, m);
    if after.has_manifest(digest) {
        let i = choose|i: int|
            0 <= i < after.manifests.len() && (#[trigger] after.manifests[i]).digest == digest;
        assert(after.manifests.contains(after.manifests[i]));
        lemma_filter_contains_iff(t.manifests, other, after.manifests[i]);
    }
    let elsewhere = |x: TagView| x.manifest_digest != digest;
    if after.is_tagged(digest) {
        let i = choose|i: int|
            0 <= i < after.tags.len() && (#[trigger] after.tags[i]).manifest_digest == digest;
        assert(after.tags.contains(after.tags[i]));
        lemma_filter_contains_iff(t.tags, elsewhere, after.tags[i]);
    }
    lemma_filter_contains_iff(
        t.manifest_blobs,
        |a: ManifestBlobView| a.manifest_digest != digest,
        ManifestBlobView { manifest_digest: digest, blob_digest: blob },
    );
}

/// Storing and deleting keep the digests of the manifests distinct.
pub proof fn law_digests_stay_distinct(t: Tables, row: ManifestRowView, digest: Seq<char>)
    requires
        t.digests_distinct(),
    ensures
        t.with_manifest(row).digests_distinct(),
        t.without_manifest(digest).digests_distinct(),
{
    let more = t.with_manifest(row);
    if !t.has_manifest(row.digest) {
        assert forall|i: int, j: int|
            #![trigger more.manifests[i], more.manifests[j]]
            0 <= i < j < more.manifests.len() implies more.manifests[i].digest
            != more.manifests[j].digest by {
            assert(more.manifests[i] == t.manifests[i]);
            if j < t.manifests.len() {
                assert(t.manifests[i].digest != t.manifests[j].digest);
            }
        }
    }
    let pred = |m: ManifestRowView| m.digest != digest;
    lemma_filter_distinct(t, pred);
    let less = t.without_manifest(digest);
    let same = Tables { manifests: t.manifests.filter(pred), ..t };
    assert forall|i: int, j: int|
        #![trigger less.manifests[i], less.manifests[j]]
        0 <= i < j < less.manifests.len() implies less.manifests[i].digest
        != less.manifests[j].digest by {
        assert(same.manifests[i].digest != same.manifests[j].digest);
    }
}

/// Deleting manifests takes those of the given digests, and no other.
pub proof fn lemma_manifests_left(t: Tables, digests: Seq<Seq<char>>, m: ManifestRowView)
    ensures
        t.without_manifests(digests).manifests.contains(m) <==> t.manifests.contains(m)
            && !digests.contains(m.digest),
    decreases digests.len(),
{
    if digests.len() > 0 {
        let front = digests.drop_last();
        assert(digests =~= front.push(digests.last()));
        lemma_push_contains(front, digests.last());
        lemma_manifests_left(t, front, m);
        lemma_filter_contains_iff(
            t.without_manifests(front).manifests,
            |x: ManifestRowView| x.digest != digests.last(),
            m,
        );
    }
}

/// Deleting manifests takes what those of the given digests use, and nothing else.
pub proof fn lemma_uses_left(t: Tables, digests: Seq<Seq<char>>, d: Seq<char>, blob: Seq<char>)
    ensures
        t.without_manifests(digests).uses_blob(d, blob) <==> t.uses_blob(d, blob)
            && !digests.contains(d),
    decreases digests.len(),
{
    if digests.len() > 0 {
        let front = digests.drop_last();
        assert(digests =~= front.push(digests.last()));
        lemma_push_contains(front, digests.last());
        lemma_uses_left(t, front, d, blob);
        lemma_filter_contains_iff(
            t.without_manifests(front).manifest_blobs,
            |a: ManifestBlobView| a.manifest_digest != digests.last(),
            (ManifestBlobView { manifest_digest: d, blob_digest: blob }),
        );
    }
}

/// Once every manifest that uses a blob is deleted, no manifest uses it.
pub proof fn law_deleting_users_frees_blob(t: Tables, blob: Seq<char>, users: Seq<Seq<char>>)
    requires
        forall|d: Seq<char>| #[trigger] t.uses_blob(d, blob) ==> users.contains(d),
    ensures
        forall|d: Seq<char>| !(#[trigger] t.without_manifests(users).uses_blob(d, blob)),
{
    assert forall|d: Seq<char>| !(#[trigger] t.without_manifests(users).uses_blob(d, blob)) by {
        lemma_uses_left(t, users, d, blob);
    }
}

/// A collection forgets what the manifests it deletes have used, and only that.
pub proof fn law_collection_unpins_blobs(t: Tables, cutoff: int, d: Seq<char>, blob: Seq<char>)
    ensures
        t.collected(cutoff).uses_blob(d, blob) <==> t.uses_blob(d, blob) && !t.condemns_digest(
            cutoff,
            d,
        ),
{
    lemma_filter_contains_iff(
        t.manifest_blobs,
        |a: ManifestBlobView| !t.condemns_digest(cutoff, a.manifest_digest),
        (ManifestBlobView { manifest_digest: d, blob_digest: blob }),
    );
}

/// A digest that was just stored is found.
pub proof fn law_inserted_is_found(t: Tables, row: ManifestRowView)
    ensures
        t.with_manifest(row).has_manifest(row.digest),
{
    if !t.has_manifest(row.digest) {
        let after = t.with_manifest(row);
        assert(after.manifests[t.manifests.len() as int].digest == row.digest);
    }
}

} // verus!
