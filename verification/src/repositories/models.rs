//! The rows that the queries read, and what they stand for.

use vstd::prelude::*;

verus! {

/// The parts of a manifest's JSON document that the queries look at.
#[derive(Clone, Debug)]
pub struct ManifestJson {
    /// The document itself, as text.
    pub text: String,
    /// `$.mediaType`
    pub media_type: Option<String>,
    /// `$.config.digest`
    pub config: Option<String>,
    /// `$.manifests`, which only an index has, and of each of its entries `$.digest`
    pub manifests: Option<Vec<Option<String>>>,
    /// `$.subject.digest`
    pub subject: Option<String>,
    /// Whether the document decodes as an OCI manifest.
    pub decodes: bool,
}

/// A row of the table `manifest`.
#[derive(Clone, Debug)]
pub struct ManifestRow {
    pub digest: String,
    pub blob: Vec<u8>,
    pub json: ManifestJson,
}

/// A row of the table `tag`.
#[derive(Clone, Debug)]
pub struct TagRow {
    pub tag: String,
    pub repo: String,
    pub manifest_digest: String,
}

/// A row of the table `blob`.
#[derive(Clone, Debug)]
pub struct BlobRow {
    pub digest: String,
    /// In seconds since the epoch.
    pub last_accessed: i64,
}

/// A row of the table `manifest_blob_assoc`: a manifest that uses a blob.
#[derive(Clone, Debug)]
pub struct ManifestBlobAssoc {
    pub manifest_digest: String,
    pub blob_digest: String,
}

/// A row of the table `repo_blob_assoc`: a repository that holds a manifest, if it names one.
#[derive(Clone, Debug)]
pub struct RepoBlobAssoc {
    pub repo_name: String,
    pub manifest_digest: Option<String>,
}

/// A stored manifest.
#[derive(Clone, Debug, PartialEq)]
pub struct Manifest {
    pub blob: Vec<u8>,
    pub media_type: Option<String>,
    pub digest: String,
}

/// A manifest that has another one as its subject.
#[derive(Clone, Debug, PartialEq)]
pub struct ManifestReferrer {
    /// The JSON document, as text.
    pub content: String,
    pub digest: String,
    /// The size of the stored manifest in bytes.
    pub size: i64,
}

/// A blob that may be deleted.
#[derive(Clone, Debug)]
pub struct Blob {
    pub digest: String,
    pub size: i64,
}

/// An upload that was begun.
#[derive(Clone, Debug)]
pub struct BlobUpload {
    pub uuid: String,
    /// How many bytes have arrived.
    pub offset: i64,
}

/// What a [`ManifestJson`] stands for.
#[verifier::ext_equal]
pub struct JsonView {
    pub text: Seq<char>,
    pub media_type: Option<Seq<char>>,
    pub config: Option<Seq<char>>,
    pub manifests: Option<Seq<Option<Seq<char>>>>,
    pub subject: Option<Seq<char>>,
    pub decodes: bool,
}

/// What a [`ManifestRow`] stands for.
#[verifier::ext_equal]
pub struct ManifestRowView {
    pub digest: Seq<char>,
    pub blob: Seq<u8>,
    pub json: JsonView,
}

/// What a [`TagRow`] stands for.
#[verifier::ext_equal]
pub struct TagView {
    pub tag: Seq<char>,
    pub repo: Seq<char>,
    pub manifest_digest: Seq<char>,
}

/// What a [`BlobRow`] stands for.
#[verifier::ext_equal]
pub struct BlobRowView {
    pub digest: Seq<char>,
    pub last_accessed: int,
}

/// What a [`ManifestBlobAssoc`] stands for.
#[verifier::ext_equal]
pub struct ManifestBlobView {
    pub manifest_digest: Seq<char>,
    pub blob_digest: Seq<char>,
}

/// What a [`RepoBlobAssoc`] stands for.
#[verifier::ext_equal]
pub struct RepoBlobView {
    pub repo_name: Seq<char>,
    pub manifest_digest: Option<Seq<char>>,
}

/// What a [`Manifest`] stands for.
#[verifier::ext_equal]
pub struct ManifestView {
    pub blob: Seq<u8>,
    pub media_type: Option<Seq<char>>,
    pub digest: Seq<char>,
}

/// What a [`ManifestReferrer`] stands for.
#[verifier::ext_equal]
pub struct ReferrerView {
    pub content: Seq<char>,
    pub digest: Seq<char>,
    pub size: i64,
}

/// What a [`Blob`] stands for.
#[verifier::ext_equal]
pub struct BlobView {
    pub digest: Seq<char>,
    pub size: i64,
}

/// What a [`BlobUpload`] stands for.
#[verifier::ext_equal]
pub struct UploadView {
    pub uuid: Seq<char>,
    pub offset: i64,
}

/// The tables.
#[verifier::ext_equal]
pub struct Tables {
    pub manifests: Seq<ManifestRowView>,
    pub tags: Seq<TagView>,
    pub blobs: Seq<BlobRowView>,
    pub manifest_blobs: Seq<ManifestBlobView>,
    pub repo_blobs: Seq<RepoBlobView>,
}

impl Tables {
    /// No two manifests have the same digest.
    pub open spec fn digests_distinct(self) -> bool {
        forall|i: int, j: int|
            #![trigger self.manifests[i], self.manifests[j]]
            0 <= i < j < self.manifests.len() ==> self.manifests[i].digest
                != self.manifests[j].digest
    }

    /// Whether a manifest with this digest is stored.
    pub open spec fn has_manifest(self, digest: Seq<char>) -> bool {
        exists|i: int|
            0 <= i < self.manifests.len() && (#[trigger] self.manifests[i]).digest == digest
    }
}

impl DeepView for ManifestJson {
    type V = JsonView;

    open spec fn deep_view(&self) -> JsonView {
        JsonView {
            text: self.text@,
            media_type: self.media_type.deep_view(),
            config: self.config.deep_view(),
            manifests: self.manifests.deep_view(),
            subject: self.subject.deep_view(),
            decodes: self.decodes,
        }
    }
}

impl DeepView for ManifestRow {
    type V = ManifestRowView;

    open spec fn deep_view(&self) -> ManifestRowView {
        ManifestRowView { digest: self.digest@, blob: self.blob@, json: self.json.deep_view() }
    }
}

impl DeepView for TagRow {
    type V = TagView;

    open spec fn deep_view(&self) -> TagView {
        TagView { tag: self.tag@, repo: self.repo@, manifest_digest: self.manifest_digest@ }
    }
}

impl DeepView for BlobRow {
    type V = BlobRowView;

    open spec fn deep_view(&self) -> BlobRowView {
        BlobRowView { digest: self.digest@, last_accessed: self.last_accessed as int }
    }
}

impl DeepView for ManifestBlobAssoc {
    type V = ManifestBlobView;

    open spec fn deep_view(&self) -> ManifestBlobView {
        ManifestBlobView {
            manifest_digest: self.manifest_digest@,
            blob_digest: self.blob_digest@,
        }
    }
}

impl DeepView for RepoBlobAssoc {
    type V = RepoBlobView;

    open spec fn deep_view(&self) -> RepoBlobView {
        RepoBlobView {
            repo_name: self.repo_name@,
            manifest_digest: self.manifest_digest.deep_view(),
        }
    }
}

impl DeepView for Manifest {
    type V = ManifestView;

    open spec fn deep_view(&self) -> ManifestView {
        ManifestView {
            blob: self.blob@,
            media_type: self.media_type.deep_view(),
            digest: self.digest@,
        }
    }
}

impl DeepView for ManifestReferrer {
    type V = ReferrerView;

    open spec fn deep_view(&self) -> ReferrerView {
        ReferrerView { content: self.content@, digest: self.digest@, size: self.size }
    }
}

impl DeepView for Blob {
    type V = BlobView;

    open spec fn deep_view(&self) -> BlobView {
        BlobView { digest: self.digest@, size: self.size }
    }
}

impl DeepView for BlobUpload {
    type V = UploadView;

    open spec fn deep_view(&self) -> UploadView {
        UploadView { uuid: self.uuid@, offset: self.offset }
    }
}

} // verus!
