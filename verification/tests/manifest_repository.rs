use trow::repositories::manifest_repository::{ManifestRepository, RepositoryError};
use trow::repositories::models::{
    BlobRow, ManifestBlobAssoc, ManifestJson, RepoBlobAssoc, TagRow,
};

const NOW: i64 = 1_000_000;
const RETENTION: i64 = 1_000;
const COLD: i64 = 0;
const WARM: i64 = NOW;

fn empty() -> ManifestRepository {
    ManifestRepository::new(Vec::new(), Vec::new(), Vec::new(), Vec::new(), Vec::new())
}

fn json() -> ManifestJson {
    ManifestJson {
        text: "{}".to_string(),
        media_type: None,
        config: None,
        manifests: None,
        subject: None,
        decodes: true,
    }
}

fn image(config: &str) -> ManifestJson {
    ManifestJson {
        config: Some(config.to_string()),
        ..json()
    }
}

fn index(entries: &[&str]) -> ManifestJson {
    ManifestJson {
        manifests: Some(entries.iter().map(|e| Some(e.to_string())).collect()),
        ..json()
    }
}

fn referrer(config: &str, subject: &str) -> ManifestJson {
    ManifestJson {
        subject: Some(subject.to_string()),
        ..image(config)
    }
}

fn repository(manifests: Vec<(&str, ManifestJson)>) -> ManifestRepository {
    let mut repo = empty();
    for (digest, json) in manifests {
        assert!(repo.insert_or_ignore(digest, Vec::new(), json));
    }
    repo.blobs.push(BlobRow {
        digest: "cold".to_string(),
        last_accessed: COLD,
    });
    repo.blobs.push(BlobRow {
        digest: "warm".to_string(),
        last_accessed: WARM,
    });
    repo
}

fn tag(repo: &mut ManifestRepository, digest: &str) {
    repo.tags.push(TagRow {
        tag: "latest".to_string(),
        repo: "r".to_string(),
        manifest_digest: digest.to_string(),
    });
}

fn uses(repo: &mut ManifestRepository, manifest: &str, blob: &str) {
    repo.manifest_blobs.push(ManifestBlobAssoc {
        manifest_digest: manifest.to_string(),
        blob_digest: blob.to_string(),
    });
}

fn holds(repo: &mut ManifestRepository, name: &str, manifest: Option<&str>) {
    repo.repo_blobs.push(RepoBlobAssoc {
        repo_name: name.to_string(),
        manifest_digest: manifest.map(|m| m.to_string()),
    });
}

fn stored(repo: &ManifestRepository) -> Vec<String> {
    repo.manifests.iter().map(|m| m.digest.clone()).collect()
}

fn collect(repo: &mut ManifestRepository) -> Vec<String> {
    repo.delete_untagged_older_than(RETENTION, NOW)
}

#[test]
fn what_was_stored_is_found() {
    let mut repo = empty();
    assert_eq!(repo.find("d"), Err(RepositoryError::RowNotFound));
    let first = ManifestJson {
        media_type: Some("application/vnd.oci.image.index.v1+json".to_string()),
        ..json()
    };
    assert!(repo.insert_or_ignore("d", vec![1, 2], first));
    let found = repo.find("d").unwrap();
    assert_eq!(found.digest, "d");
    assert_eq!(found.blob, vec![1, 2]);
    assert_eq!(
        found.media_type.as_deref(),
        Some("application/vnd.oci.image.index.v1+json")
    );
    assert_eq!(repo.find("D"), Err(RepositoryError::RowNotFound));
}

#[test]
fn a_taken_digest_is_not_stored_again() {
    let mut repo = empty();
    assert!(repo.insert_or_ignore("d", vec![1], json()));
    assert!(!repo.insert_or_ignore("d", vec![2], image("c")));
    assert_eq!(repo.find("d").unwrap().blob, vec![1]);
    assert_eq!(repo.manifests.len(), 1);
    assert!(repo.insert_or_ignore("e", vec![3], json()));
    assert_eq!(repo.find("d").unwrap().blob, vec![1]);
    assert_eq!(repo.find("e").unwrap().blob, vec![3]);
}

#[test]
fn deleting_a_manifest_forgets_its_tags_and_blobs() {
    let mut repo = repository(vec![("a", json()), ("b", json())]);
    tag(&mut repo, "a");
    tag(&mut repo, "b");
    uses(&mut repo, "a", "x");
    uses(&mut repo, "b", "x");
    repo.delete("a");
    assert_eq!(repo.find("a"), Err(RepositoryError::RowNotFound));
    assert_eq!(stored(&repo), vec!["b"]);
    assert_eq!(repo.tags.len(), 1);
    assert_eq!(repo.tags[0].manifest_digest, "b");
    assert_eq!(repo.list_manifests_using_blob("x"), vec!["b"]);
    repo.delete("nothing");
    assert_eq!(stored(&repo), vec!["b"]);
}

#[test]
fn referrers_are_those_of_the_repository() {
    let mut repo = empty();
    let sig = ManifestJson {
        text: r#"{"subject":{"digest":"s"}}"#.to_string(),
        ..referrer("c", "s")
    };
    assert!(repo.insert_or_ignore("sig", vec![0; 5], sig));
    assert!(repo.insert_or_ignore("other", Vec::new(), referrer("c", "t")));
    assert!(repo.insert_or_ignore("plain", Vec::new(), image("c")));
    holds(&mut repo, "r", Some("sig"));
    holds(&mut repo, "r", Some("other"));
    holds(&mut repo, "r", Some("plain"));
    holds(&mut repo, "r", None);
    holds(&mut repo, "q", Some("other"));

    let found = repo.list_referrers("r", "s").unwrap();
    assert_eq!(found.len(), 1);
    assert_eq!(found[0].digest, "sig");
    assert_eq!(found[0].size, 5);
    assert_eq!(found[0].content, r#"{"subject":{"digest":"s"}}"#);
    assert!(repo.list_referrers("q", "s").unwrap().is_empty());
    assert_eq!(repo.list_referrers("q", "t").unwrap().len(), 1);
    assert!(repo.list_referrers("r", "sig").unwrap().is_empty());

    // One for each row that ties it to the repository.
    holds(&mut repo, "r", Some("sig"));
    assert_eq!(repo.list_referrers("r", "s").unwrap().len(), 2);
}

#[test]
fn a_referrer_that_does_not_decode_is_an_error() {
    let mut repo = empty();
    let odd = ManifestJson {
        decodes: false,
        ..referrer("c", "s")
    };
    assert!(repo.insert_or_ignore("sig", Vec::new(), referrer("c", "s")));
    assert!(repo.insert_or_ignore("odd", Vec::new(), odd));
    holds(&mut repo, "r", Some("sig"));
    // It is of another repository, and of another subject.
    holds(&mut repo, "q", Some("odd"));
    assert_eq!(repo.list_referrers("r", "s").unwrap().len(), 1);
    assert!(repo.list_referrers("q", "t").unwrap().is_empty());

    assert_eq!(
        repo.list_referrers("q", "s"),
        Err(RepositoryError::Undecodable)
    );
    holds(&mut repo, "r", Some("odd"));
    assert_eq!(
        repo.list_referrers("r", "s"),
        Err(RepositoryError::Undecodable)
    );
    // What does not decode is found all the same.
    assert_eq!(repo.find("odd").unwrap().digest, "odd");
}

#[test]
fn manifests_that_use_a_blob_are_listed_once() {
    let mut repo = empty();
    uses(&mut repo, "m", "x");
    uses(&mut repo, "m", "y");
    uses(&mut repo, "n", "x");
    uses(&mut repo, "m", "x");
    let mut found = repo.list_manifests_using_blob("x");
    found.sort();
    assert_eq!(found, vec!["m", "n"]);
    assert_eq!(repo.list_manifests_using_blob("y"), vec!["m"]);
    assert!(repo.list_manifests_using_blob("z").is_empty());

    for digest in repo.list_manifests_using_blob("x") {
        repo.delete(&digest);
    }
    assert!(repo.list_manifests_using_blob("x").is_empty());
    assert!(repo.list_manifests_using_blob("y").is_empty());
}

#[test]
fn what_is_collected_and_what_is_left_add_up() {
    let mut repo = repository(vec![
        ("cold", image("cold")),
        ("warm", image("warm")),
        ("tagged", image("cold")),
    ]);
    tag(&mut repo, "tagged");
    assert_eq!(collect(&mut repo), vec!["cold"]);
    assert_eq!(stored(&repo), vec!["warm", "tagged"]);
    assert!(collect(&mut repo).is_empty());
    assert_eq!(stored(&repo), vec!["warm", "tagged"]);
    assert_eq!(repo.tags.len(), 1);
}

#[test]
fn a_manifest_without_a_stored_config_has_no_clock() {
    let mut repo = repository(vec![("foreign", image("never stored")), ("bare", json())]);
    assert!(collect(&mut repo).is_empty());
    assert_eq!(stored(&repo), vec!["foreign", "bare"]);
}

#[test]
fn a_referrer_of_a_manifest_that_is_merely_left_alone_is_collected() {
    let mut repo = repository(vec![
        ("foreign", image("never stored")),
        ("sig", referrer("cold", "foreign")),
    ]);
    assert_eq!(collect(&mut repo), vec!["sig"]);
}

#[test]
fn a_chain_of_referrers_is_kept() {
    let mut repo = repository(vec![
        ("sbom_sig", referrer("cold", "sbom")),
        ("sbom", referrer("cold", "image")),
        ("image", image("cold")),
        ("index", index(&["image"])),
        ("index_sig", referrer("cold", "index")),
    ]);
    tag(&mut repo, "index");
    assert!(collect(&mut repo).is_empty());
    assert_eq!(repo.manifests.len(), 5);
    repo.tags.clear();
    let mut deleted = collect(&mut repo);
    deleted.sort();
    assert_eq!(deleted, vec!["image", "index_sig", "sbom", "sbom_sig"]);
    assert_eq!(collect(&mut repo), vec!["index"]);
}

#[test]
fn indexes_that_list_each_other_are_walked_once() {
    let mut repo = repository(vec![
        ("a", index(&["b"])),
        ("b", index(&["a"])),
        ("own", index(&["own"])),
    ]);
    tag(&mut repo, "a");
    assert!(collect(&mut repo).is_empty());
    // Each of them lists a stored manifest, be it itself.
    repo.tags.clear();
    assert!(collect(&mut repo).is_empty());
}

#[test]
fn an_index_that_lists_nothing_stored_goes() {
    let nameless = ManifestJson {
        manifests: Some(vec![None]),
        ..json()
    };
    let mut repo = repository(vec![
        ("empty", index(&[])),
        ("gone", index(&["never stored"])),
        ("nameless", nameless),
    ]);
    let mut deleted = collect(&mut repo);
    deleted.sort();
    assert_eq!(deleted, vec!["empty", "gone", "nameless"]);
}

#[test]
fn an_index_goes_after_its_children() {
    let mut repo = repository(vec![
        ("old", index(&["child", "shared"])),
        ("child", image("cold")),
        ("shared", image("cold")),
        ("new", index(&["shared"])),
    ]);
    tag(&mut repo, "new");
    assert_eq!(collect(&mut repo), vec!["child"]);
    // It shares a child with an index that is kept, so it stays.
    assert!(collect(&mut repo).is_empty());
    repo.delete("shared");
    assert_eq!(collect(&mut repo), vec!["old"]);
}

#[test]
fn a_tag_on_something_missing_still_keeps_what_refers_to_it() {
    let mut repo = repository(vec![("sig", referrer("cold", "missing"))]);
    assert_eq!(collect(&mut repo.clone()), vec!["sig"]);
    tag(&mut repo, "missing");
    assert!(collect(&mut repo).is_empty());
}

#[test]
fn a_longer_retention_collects_no_more() {
    let repo = repository(vec![("cold", image("cold")), ("warm", image("warm"))]);
    let collected = |secs: i64| repo.clone().delete_untagged_older_than(secs, NOW);
    assert_eq!(collected(-1), vec!["cold", "warm"]);
    assert_eq!(collected(0), vec!["cold"]);
    assert_eq!(collected(NOW - 1), vec!["cold"]);
    assert!(collected(NOW).is_empty());
    assert!(collected(i64::MAX).is_empty());
}

#[test]
fn the_blobs_of_collected_manifests_are_unpinned() {
    let mut repo = repository(vec![("cold", image("cold")), ("warm", image("warm"))]);
    uses(&mut repo, "cold", "layer");
    uses(&mut repo, "warm", "layer");
    uses(&mut repo, "cold", "own");
    collect(&mut repo);
    assert_eq!(repo.list_manifests_using_blob("layer"), vec!["warm"]);
    assert!(repo.list_manifests_using_blob("own").is_empty());
}
