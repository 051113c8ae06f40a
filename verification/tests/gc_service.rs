use std::sync::Arc;

use serde_json::Value;
use trow::configuration::{ConfigFile, TrowConfig};
use trow::repositories::manifest_repository::ManifestRepository;
use trow::repositories::models::{
    Blob, BlobRow, BlobUpload, ManifestBlobAssoc, ManifestJson, TagRow,
};
use trow::services::gc_run::{GcEvent, GcPhase, StoredSweep, SweepPhase, MAX_PASSES};
use trow::services::gc_service::{
    blobs_countable, bytes_humanstring, proxied_countable, uploads_countable, GcAction, GcService,
};

const NOW: i64 = 1_700_000_000;
const HOUR: i64 = 3_600;
const DAY: i64 = 86_400;

fn service(change: impl FnOnce(&mut ConfigFile)) -> GcService {
    let mut config_file = ConfigFile::default();
    change(&mut config_file);
    GcService::new(Arc::new(TrowConfig { config_file }))
}

fn empty() -> ManifestRepository {
    ManifestRepository::new(Vec::new(), Vec::new(), Vec::new(), Vec::new(), Vec::new())
}

fn text(value: &Value) -> Option<String> {
    value.as_str().map(|s| s.to_string())
}

fn insert(repo: &mut ManifestRepository, digest: &str, json: &str) {
    let value: Value = serde_json::from_str(json).unwrap();
    let parsed = ManifestJson {
        text: json.to_string(),
        media_type: text(&value["mediaType"]),
        config: text(&value["config"]["digest"]),
        manifests: value["manifests"]
            .as_array()
            .map(|entries| entries.iter().map(|e| text(&e["digest"])).collect()),
        subject: text(&value["subject"]["digest"]),
        decodes: true,
    };
    assert!(repo.insert_or_ignore(digest, json.as_bytes().to_vec(), parsed));
    let mut used: Vec<String> = text(&value["config"]["digest"]).into_iter().collect();
    if let Some(layers) = value["layers"].as_array() {
        used.extend(layers.iter().filter_map(|l| text(&l["digest"])));
    }
    for blob_digest in used {
        repo.manifest_blobs.push(ManifestBlobAssoc {
            manifest_digest: digest.to_string(),
            blob_digest,
        });
    }
}

fn repository(
    blobs: &[(&str, i64)],
    manifests: &[(&str, &str)],
    tags: &[(&str, &str, &str)],
) -> ManifestRepository {
    let mut repo = empty();
    for (digest, last_accessed) in blobs {
        repo.blobs.push(BlobRow {
            digest: digest.to_string(),
            last_accessed: *last_accessed,
        });
    }
    for (digest, json) in manifests {
        insert(&mut repo, digest, json);
    }
    for (tag, name, digest) in tags {
        repo.tags.push(TagRow {
            tag: tag.to_string(),
            repo: name.to_string(),
            manifest_digest: digest.to_string(),
        });
    }
    repo
}

fn stored(repo: &ManifestRepository) -> Vec<String> {
    let mut all: Vec<String> = repo.manifests.iter().map(|m| m.digest.clone()).collect();
    all.sort();
    all
}

fn blob(digest: &str, size: i64) -> Blob {
    Blob {
        digest: digest.to_string(),
        size,
    }
}

fn upload(uuid: &str, offset: i64) -> BlobUpload {
    BlobUpload {
        uuid: uuid.to_string(),
        offset,
    }
}

fn digests(blobs: &[Blob]) -> Vec<String> {
    blobs.iter().map(|b| b.digest.clone()).collect()
}

#[test]
fn test_delete_old_proxied_images() {
    let gc = service(|_| {});
    let mut repo = repository(
        &[],
        &[(
            "sha256:test_manifest",
            r#"{"config":{"digest":"sha256:test2"},"layers":[{"digest":"sha256:test3"}]}"#,
        )],
        &[],
    );
    let mut repo_blob_assocs = vec![
        ("f/test_repo1", "sha256:test1"),
        ("f/test_repo3", "sha256:test3"),
    ];
    let proxied = vec![
        blob("sha256:test3", 300),
        blob("sha256:test2", 175),
        blob("sha256:test1", 100),
    ];

    let space_needed = 250;
    assert!(proxied_countable(&proxied, space_needed));
    let plan = gc.delete_old_proxied_images(proxied, space_needed);
    assert_eq!(plan.bytes, 275);
    assert!(plan.enough);
    assert_eq!(digests(&plan.blobs), vec!["sha256:test1", "sha256:test2"]);
    assert_eq!(plan.notice().unwrap(), "275 bytes");

    let mut files = Vec::new();
    for blob in &plan.blobs {
        let manifests = repo.list_manifests_using_blob(&blob.digest);
        for action in gc.proxied_blob_actions(blob, &manifests) {
            match action {
                GcAction::DeleteManifest(digest) => repo.delete(&digest),
                GcAction::DeleteBlobRow(digest) => {
                    repo_blob_assocs.retain(|(_, blob)| *blob != digest)
                }
                GcAction::DeleteBlobFile(digest) => files.push(digest),
                other => panic!("unexpected {other:?}"),
            }
        }
    }
    let names: Vec<&str> = repo_blob_assocs.iter().map(|(name, _)| *name).collect();
    assert_eq!(&names, &["f/test_repo3"]);
    assert!(repo.manifests.is_empty());
    assert!(repo.list_manifests_using_blob("sha256:test2").is_empty());
    assert_eq!(files, vec!["sha256:test1", "sha256:test2"]);
}

#[test]
fn test_delete_orphan_blobs() {
    let gc = service(|_| {});
    let mut repo = empty();
    insert(
        &mut repo,
        "sha256:test_manifest1",
        r#"{"config":{"digest":"sha256:test1"},"layers":[{"digest":"sha256:test3"}]}"#,
    );
    let mut blobs = vec![
        blob("sha256:test1", 28),
        blob("sha256:test2", 200),
        blob("sha256:test3", 155),
    ];
    let orphans: Vec<Blob> = blobs
        .iter()
        .filter(|b| repo.list_manifests_using_blob(&b.digest).is_empty())
        .cloned()
        .collect();

    assert!(blobs_countable(&orphans));
    let result = gc.delete_orphan_blobs(&orphans);
    assert_eq!(result.bytes, 200);
    assert_eq!(
        result.actions,
        vec![
            GcAction::DeleteBlobRow("sha256:test2".to_string()),
            GcAction::DeleteBlobFile("sha256:test2".to_string()),
        ]
    );
    for action in result.actions {
        if let GcAction::DeleteBlobRow(digest) = action {
            blobs.retain(|b| b.digest != digest);
        }
    }
    assert_eq!(blobs.len(), 2);
    assert!(digests(&blobs).contains(&"sha256:test1".to_string()));
    assert!(digests(&blobs).contains(&"sha256:test3".to_string()));
}

#[test]
fn test_delete_stale_uploads() {
    let gc = service(|_| {});
    let mut uploads = vec!["test-uuid-1", "test-uuid-2", "test-uuid-3", "test-uuid-4"];
    let stale = vec![upload("test-uuid-1", 100), upload("test-uuid-3", 150)];

    assert!(uploads_countable(&stale));
    let result = gc.delete_stale_uploads(&stale);
    assert_eq!(result.bytes, 250);
    assert_eq!(result.notice().unwrap(), "250 bytes");

    let mut files = Vec::new();
    for action in result.actions {
        match action {
            GcAction::DeleteUploadRow(uuid) => uploads.retain(|u| *u != uuid),
            GcAction::DeleteUploadFile(uuid) => files.push(uuid),
            other => panic!("unexpected {other:?}"),
        }
    }
    uploads.sort();
    assert_eq!(uploads, vec!["test-uuid-2", "test-uuid-4"]);
    assert_eq!(files, vec!["test-uuid-1", "test-uuid-3"]);
}

#[test]
fn test_delete_stale_uploads_collects_untouched_uploads() {
    let gc = service(|_| {});
    let mut uploads = vec!["never-touched"];
    let result = gc.delete_stale_uploads(&vec![upload("never-touched", 0)]);
    for action in &result.actions {
        if let GcAction::DeleteUploadRow(uuid) = action {
            uploads.retain(|u| u != uuid);
        }
    }
    assert!(
        uploads.is_empty(),
        "upload created but never written to was not collected"
    );
    assert_eq!(result.bytes, 0);
    assert_eq!(result.notice(), None);
}

#[test]
fn test_delete_untagged_manifests() {
    let gc = service(|_| {});
    let mut repo = repository(
        &[
            ("sha256:cfg_tagged", NOW - 30 * DAY),
            ("sha256:cfg_untagged", NOW - 30 * DAY),
            ("sha256:cfg_warm", NOW - HOUR),
            ("sha256:layer", NOW - 30 * DAY),
        ],
        &[
            (
                "sha256:m_tagged",
                r#"{"config":{"digest":"sha256:cfg_tagged"},"layers":[{"digest":"sha256:layer"}]}"#,
            ),
            (
                "sha256:m_untagged",
                r#"{"config":{"digest":"sha256:cfg_untagged"},"layers":[{"digest":"sha256:layer"}]}"#,
            ),
            (
                "sha256:m_warm",
                r#"{"config":{"digest":"sha256:cfg_warm"},"layers":[{"digest":"sha256:layer"}]}"#,
            ),
        ],
        &[("latest", "testrepo", "sha256:m_tagged")],
    );

    let result = gc.delete_untagged_manifests(&mut repo, NOW);
    assert_eq!(result.len(), 1);
    assert_eq!(result, vec!["sha256:m_untagged"]);

    let manifests = stored(&repo);
    assert_eq!(manifests.len(), 2);
    assert!(manifests.contains(&"sha256:m_tagged".to_string()));
    assert!(manifests.contains(&"sha256:m_warm".to_string()));

    assert!(
        !repo
            .manifest_blobs
            .iter()
            .any(|a| a.manifest_digest == "sha256:m_untagged"),
        "manifest_blob_assoc was not cascaded"
    );
    assert_eq!(repo.manifest_blobs.len(), 4);
}

#[test]
fn test_delete_untagged_manifests_keeps_index_children() {
    let gc = service(|_| {});
    let mut repo = repository(
        &[
            ("sha256:cfg_child", NOW - 30 * DAY),
            ("sha256:layer", NOW - 30 * DAY),
        ],
        &[
            (
                "sha256:m_child",
                r#"{"config":{"digest":"sha256:cfg_child"},"layers":[{"digest":"sha256:layer"}]}"#,
            ),
            (
                "sha256:m_index",
                r#"{"manifests":[{"digest":"sha256:m_child"}]}"#,
            ),
        ],
        &[("latest", "testrepo", "sha256:m_index")],
    );

    let result = gc.delete_untagged_manifests(&mut repo, NOW);
    assert_eq!(result.len(), 0, "index child was collected");
    assert_eq!(stored(&repo).len(), 2);
}

/// OCI 1.1 referrers (signatures, SBOMs, attestations) are pushed by digest and are untagged
/// by design, so tag-only reachability would reclaim every artifact attached to a live image.
#[test]
fn test_delete_untagged_manifests_keeps_referrers_of_tagged_image() {
    let gc = service(|_| {});
    let mut repo = repository(
        &[
            ("sha256:cfg_image", NOW - 30 * DAY),
            ("sha256:cfg_sig", NOW - 30 * DAY),
            ("sha256:cfg_orphan_sig", NOW - 30 * DAY),
        ],
        &[
            (
                "sha256:m_image",
                r#"{"config":{"digest":"sha256:cfg_image"}}"#,
            ),
            // Attached to the tagged image: must survive.
            (
                "sha256:m_sig",
                r#"{"config":{"digest":"sha256:cfg_sig"},"subject":{"digest":"sha256:m_image"}}"#,
            ),
            // Attached to a manifest that is itself unreachable: must not survive.
            (
                "sha256:m_orphan_sig",
                r#"{"config":{"digest":"sha256:cfg_orphan_sig"},"subject":{"digest":"sha256:m_gone"}}"#,
            ),
        ],
        &[("latest", "testrepo", "sha256:m_image")],
    );

    let deleted = gc.delete_untagged_manifests(&mut repo, NOW);
    assert_eq!(deleted.len(), 1);
    assert_eq!(
        stored(&repo),
        vec!["sha256:m_image", "sha256:m_sig"],
        "a referrer of a tagged image was collected"
    );
}

/// A referrer must outlive its subject regardless of *why* the subject is kept. Rooting
/// reachability at tags alone protects only referrers of tagged images, which drops the
/// signature of an image pinned by digest.
#[test]
fn test_delete_untagged_manifests_keeps_referrers_of_untagged_warm_image() {
    let gc = service(|_| {});
    let mut repo = repository(
        &[
            ("sha256:cfg_pinned", NOW),
            ("sha256:cfg_empty", NOW - 30 * DAY),
        ],
        &[
            // Untagged, but freshly pushed: the age gate is what keeps it.
            (
                "sha256:m_pinned",
                r#"{"config":{"digest":"sha256:cfg_pinned"}}"#,
            ),
            // Its signature, sharing the long-cold empty config blob every OCI artifact uses.
            (
                "sha256:m_pinned_sig",
                r#"{"config":{"digest":"sha256:cfg_empty"},"subject":{"digest":"sha256:m_pinned"}}"#,
            ),
        ],
        &[],
    );

    let deleted = gc.delete_untagged_manifests(&mut repo, NOW);
    assert_eq!(deleted.len(), 0);
    assert_eq!(
        stored(&repo),
        vec!["sha256:m_pinned", "sha256:m_pinned_sig"],
        "the signature of an untagged but still-live image was collected"
    );
}

/// Re-pushing a multi-arch tag orphans the previous index. It has no config blob to age, so it
/// is only collectable once its children are gone, which takes a second pass.
#[test]
fn test_delete_untagged_manifests_collects_orphaned_index() {
    let gc = service(|_| {});
    let mut repo = repository(
        &[
            ("sha256:cfg_old_amd64", NOW - 30 * DAY),
            ("sha256:cfg_old_arm64", NOW - 30 * DAY),
            ("sha256:cfg_new", NOW - HOUR),
        ],
        &[
            (
                "sha256:m_old_amd64",
                r#"{"config":{"digest":"sha256:cfg_old_amd64"}}"#,
            ),
            (
                "sha256:m_old_arm64",
                r#"{"config":{"digest":"sha256:cfg_old_arm64"}}"#,
            ),
            (
                "sha256:m_old_index",
                r#"{"manifests":[{"digest":"sha256:m_old_amd64"},{"digest":"sha256:m_old_arm64"}]}"#,
            ),
            (
                "sha256:m_new_child",
                r#"{"config":{"digest":"sha256:cfg_new"}}"#,
            ),
            (
                "sha256:m_new_index",
                r#"{"manifests":[{"digest":"sha256:m_new_child"}]}"#,
            ),
        ],
        // 'latest' was repointed at the new index; the old one is now unreachable.
        &[("latest", "testrepo", "sha256:m_new_index")],
    );

    let result = gc.delete_untagged_manifests(&mut repo, NOW);
    assert_eq!(
        result.len(),
        3,
        "the orphaned index itself was left behind"
    );
    assert_eq!(
        stored(&repo),
        vec!["sha256:m_new_child", "sha256:m_new_index"]
    );
}

#[test]
fn test_delete_untagged_manifests_honours_configured_retention() {
    let gc = service(|cfg| {
        cfg.garbage_collection.untagged_manifest_retention_days = 30;
    });
    let mut repo = repository(
        &[("sha256:cfg", NOW - 10 * DAY)],
        &[("sha256:m", r#"{"config":{"digest":"sha256:cfg"}}"#)],
        &[],
    );

    // 10 days cold, but the configured window is 30.
    let deleted = gc.delete_untagged_manifests(&mut repo, NOW);
    assert_eq!(deleted.len(), 0, "configured retention window was ignored");
}

#[test]
fn retention_ends_to_the_second() {
    let gc = service(|_| {});
    let manifest = [("m", r#"{"config":{"digest":"c"}}"#)];
    let mut repo = repository(&[("c", NOW - 7 * DAY)], &manifest, &[]);
    assert!(gc.delete_untagged_manifests(&mut repo, NOW).is_empty());
    let mut repo = repository(&[("c", NOW - 7 * DAY - 1)], &manifest, &[]);
    assert_eq!(gc.delete_untagged_manifests(&mut repo, NOW), vec!["m"]);
}

#[test]
fn a_retention_of_no_days_collects_what_was_not_touched_now() {
    let gc = service(|cfg| {
        cfg.garbage_collection.untagged_manifest_retention_days = 0;
    });
    let mut repo = repository(
        &[("c", NOW - 1), ("d", NOW)],
        &[
            ("m", r#"{"config":{"digest":"c"}}"#),
            ("n", r#"{"config":{"digest":"d"}}"#),
        ],
        &[],
    );
    assert_eq!(gc.delete_untagged_manifests(&mut repo, NOW), vec!["m"]);
}

#[test]
fn a_time_before_the_retention_window_is_no_problem() {
    let gc = service(|cfg| {
        cfg.garbage_collection.untagged_manifest_retention_days = u32::MAX;
    });
    let mut repo = repository(
        &[("c", i64::MIN)],
        &[("m", r#"{"config":{"digest":"c"}}"#)],
        &[],
    );
    assert!(gc
        .delete_untagged_manifests(&mut repo, i64::MIN)
        .is_empty());
}

/// Indexes nested one in the other go one per pass, from the inside out.
fn nested_indexes(depth: usize) -> ManifestRepository {
    let mut repo = repository(
        &[("cfg", NOW - 30 * DAY)],
        &[("i0", r#"{"config":{"digest":"cfg"}}"#)],
        &[],
    );
    for level in 1..depth {
        let json = format!(r#"{{"manifests":[{{"digest":"i{}"}}]}}"#, level - 1);
        insert(&mut repo, &format!("i{level}"), &json);
    }
    repo
}

#[test]
fn a_sweep_runs_to_a_fixpoint() {
    let gc = service(|_| {});
    for depth in [1, 2, 15, 16, 17, 18, 40] {
        let mut repo = nested_indexes(depth);
        let deleted = gc.delete_untagged_manifests(&mut repo, NOW);
        let expected: Vec<String> = (0..depth).map(|level| format!("i{level}")).collect();
        assert_eq!(deleted, expected);
        assert!(repo.manifests.is_empty());
        assert!(repo.manifest_blobs.is_empty());
    }
}

#[test]
fn a_second_sweep_changes_nothing() {
    let gc = service(|_| {});
    let mut repo = nested_indexes(18);
    insert(&mut repo, "kept", r#"{"config":{"digest":"cfg"}}"#);
    insert(&mut repo, "holder", r#"{"manifests":[{"digest":"kept"}]}"#);
    repo.tags.push(TagRow {
        tag: "latest".to_string(),
        repo: "testrepo".to_string(),
        manifest_digest: "holder".to_string(),
    });
    assert_eq!(repo.list_manifests_using_blob("cfg"), vec!["i0", "kept"]);
    assert_eq!(gc.delete_untagged_manifests(&mut repo, NOW).len(), 18);
    assert_eq!(repo.list_manifests_using_blob("cfg"), vec!["kept"]);
    assert_eq!(stored(&repo), vec!["holder", "kept"]);
    assert!(gc.delete_untagged_manifests(&mut repo, NOW).is_empty());
    assert_eq!(stored(&repo), vec!["holder", "kept"]);
}

#[test]
fn a_sweep_of_nothing_deletes_nothing() {
    assert!(service(|_| {})
        .delete_untagged_manifests(&mut empty(), NOW)
        .is_empty());
}

#[test]
fn sweeps_of_the_store_settle_with_one_that_deletes_nothing() {
    let gc = service(|_| {});
    let mut repo = nested_indexes(18);
    let mut sweep = StoredSweep::new();
    let mut rounds = 0;
    while sweep.phase == SweepPhase::Open {
        let removed = gc.delete_untagged_manifests(&mut repo, NOW).len() as u64;
        assert!(sweep.can_record(removed));
        sweep.record(removed);
        rounds += 1;
    }
    assert_eq!(sweep.phase, SweepPhase::Settled);
    assert_eq!(sweep.deleted, 18);
    assert_eq!(rounds, 2);
}

#[test]
fn sweeps_of_a_store_that_keeps_its_rows_are_given_up() {
    assert_eq!(MAX_PASSES, 16);
    let mut sweep = StoredSweep::new();
    for _ in 0..15 {
        sweep.record(3);
        assert_eq!(sweep.phase, SweepPhase::Open);
    }
    let mut settled = sweep;
    settled.record(0);
    assert_eq!(settled.phase, SweepPhase::Settled);
    assert_eq!(settled.deleted, 45);

    sweep.record(3);
    assert_eq!(sweep.phase, SweepPhase::GaveUp);
    assert_eq!(sweep.deleted, 48);
    sweep.record(3);
    assert_eq!(sweep.phase, SweepPhase::GaveUp);
    assert_eq!(sweep.deleted, 48);
    assert!(!sweep.can_record(u64::MAX));
}

#[test]
fn eviction_leaves_the_manifests_that_use_no_planned_blob() {
    let gc = service(|_| {});
    let mut repo = repository(
        &[],
        &[
            ("m1", r#"{"config":{"digest":"a"},"layers":[{"digest":"b"}]}"#),
            ("m2", r#"{"config":{"digest":"x"},"layers":[{"digest":"b"}]}"#),
            ("m3", r#"{"config":{"digest":"x"},"layers":[{"digest":"c"}]}"#),
            ("m4", r#"{"config":{"digest":"a"}}"#),
        ],
        &[],
    );
    let plan = gc.delete_old_proxied_images(vec![blob("c", 5), blob("b", 5), blob("a", 5)], 6);
    assert_eq!(digests(&plan.blobs), vec!["a", "b"]);
    for blob in &plan.blobs {
        for digest in repo.list_manifests_using_blob(&blob.digest) {
            repo.delete(&digest);
        }
    }
    assert_eq!(stored(&repo), vec!["m3"]);
    assert!(repo.list_manifests_using_blob("a").is_empty());
    assert!(repo.list_manifests_using_blob("b").is_empty());
    assert_eq!(repo.list_manifests_using_blob("x"), vec!["m3"]);
}

#[test]
fn proxied_images_go_from_the_end_and_no_more_than_it_takes() {
    let gc = service(|_| {});
    let list = || vec![blob("a", 1), blob("b", 2), blob("c", 4)];

    let plan = gc.delete_old_proxied_images(list(), 0);
    assert!(plan.blobs.is_empty());
    assert!(plan.enough);
    assert_eq!(plan.notice(), None);

    let plan = gc.delete_old_proxied_images(list(), 4);
    assert_eq!(digests(&plan.blobs), vec!["c"]);
    let plan = gc.delete_old_proxied_images(list(), 5);
    assert_eq!(digests(&plan.blobs), vec!["c", "b"]);
    assert_eq!(plan.bytes, 6);
    let plan = gc.delete_old_proxied_images(list(), 7);
    assert_eq!(digests(&plan.blobs), vec!["c", "b", "a"]);
    assert!(plan.enough);
    assert_eq!(plan.notice().unwrap(), "7 bytes");

    let plan = gc.delete_old_proxied_images(list(), 8);
    assert_eq!(plan.bytes, 7);
    assert!(!plan.enough);
    assert_eq!(plan.notice(), None);
}

#[test]
fn manifests_go_before_the_blob_they_use() {
    let gc = service(|_| {});
    let actions = gc.proxied_blob_actions(
        &blob("b", 1),
        &vec!["m1".to_string(), "m2".to_string()],
    );
    assert_eq!(
        actions,
        vec![
            GcAction::DeleteManifest("m1".to_string()),
            GcAction::DeleteManifest("m2".to_string()),
            GcAction::DeleteBlobRow("b".to_string()),
            GcAction::DeleteBlobFile("b".to_string()),
        ]
    );
}

#[test]
fn sums_that_do_not_fit_are_noticed() {
    let huge = i64::MAX;
    assert!(blobs_countable(&vec![blob("a", huge), blob("b", huge)]));
    let three = vec![blob("a", huge), blob("b", huge), blob("c", huge)];
    assert!(!blobs_countable(&three));
    assert!(uploads_countable(&vec![upload("a", huge), upload("b", huge)]));
    assert!(!uploads_countable(&vec![
        upload("a", huge),
        upload("b", huge),
        upload("c", huge)
    ]));
    // A negative number wraps around.
    assert!(!blobs_countable(&vec![blob("a", -1), blob("b", 1)]));
    assert!(proxied_countable(&three, 5));
    assert!(proxied_countable(&three, huge as usize + 1));
    assert!(!proxied_countable(&three, usize::MAX));
}

#[test]
fn space_is_reclaimed_only_beyond_the_limit() {
    let limited = service(|cfg| cfg.registry_proxies.max_size = Some(1000));
    assert_eq!(limited.compute_space_to_reclaim(700, 200, 800), Some(100));
    assert_eq!(limited.compute_space_to_reclaim(700, 101, 800), Some(1));
    assert_eq!(limited.compute_space_to_reclaim(700, 100, 800), None);
    assert_eq!(limited.compute_space_to_reclaim(0, 0, 800), None);

    let unlimited = service(|_| {});
    assert_eq!(unlimited.compute_space_to_reclaim(700, 200, 800), None);
}

#[test]
fn a_run_without_a_limit_leaves_proxied_images_alone() {
    let mut run = service(|_| {}).run_once(None);
    assert_eq!(run.phase, GcPhase::StaleUploads);
    run.advance(GcEvent::StaleUploadsDeleted(30));
    assert_eq!(run.phase, GcPhase::UntaggedManifests);
    run.advance(GcEvent::UntaggedManifestsDeleted(5));
    assert_eq!(run.phase, GcPhase::OrphanBlobs);
    run.advance(GcEvent::OrphanBlobsDeleted(12));
    assert_eq!(run.phase, GcPhase::Finished);
    assert_eq!(run.space_reclaimed, 42);
    assert_eq!(run.total().unwrap(), "42 bytes");
    assert_eq!(run.shortfall(), None);
}

#[test]
fn a_run_with_a_limit_asks_proxied_images_for_the_rest() {
    let mut run = service(|_| {}).run_once(Some(100));
    run.advance(GcEvent::StaleUploadsDeleted(30));
    run.advance(GcEvent::UntaggedManifestsDeleted(5));
    run.advance(GcEvent::OrphanBlobsDeleted(12));
    assert_eq!(run.phase, GcPhase::ProxiedImages(58));
    assert_eq!(run.total(), None);
    let mut short = run;
    run.advance(GcEvent::ProxiedImagesDeleted(58));
    assert_eq!(run.phase, GcPhase::Finished);
    assert_eq!(run.shortfall(), None);
    assert_eq!(run.total().unwrap(), "100 bytes");

    short.advance(GcEvent::ProxiedImagesDeleted(57));
    assert_eq!(short.shortfall().unwrap(), "100 bytes");
    assert_eq!(short.total().unwrap(), "99 bytes");
}

#[test]
fn a_run_that_has_enough_asks_proxied_images_for_nothing() {
    let mut run = service(|_| {}).run_once(Some(10));
    run.advance(GcEvent::StaleUploadsDeleted(30));
    run.advance(GcEvent::UntaggedManifestsDeleted(0));
    run.advance(GcEvent::OrphanBlobsDeleted(0));
    assert_eq!(run.phase, GcPhase::ProxiedImages(0));
}

#[test]
fn a_failure_ends_a_run() {
    let mut run = service(|_| {}).run_once(Some(10));
    run.advance(GcEvent::StaleUploadsDeleted(3));
    run.advance(GcEvent::Failed);
    assert_eq!(run.phase, GcPhase::Failed);
    assert_eq!(run.space_reclaimed, 3);
    run.advance(GcEvent::UntaggedManifestsDeleted(1));
    assert_eq!(run.phase, GcPhase::Failed);
    assert_eq!(run.shortfall(), None);
    assert_eq!(run.total(), None);

    let mut done = service(|_| {}).run_once(None);
    done.advance(GcEvent::StaleUploadsDeleted(0));
    done.advance(GcEvent::UntaggedManifestsDeleted(0));
    done.advance(GcEvent::OrphanBlobsDeleted(0));
    done.advance(GcEvent::Failed);
    assert_eq!(done.phase, GcPhase::Finished);
    assert_eq!(done.total(), None);
}

#[test]
fn an_event_out_of_turn_changes_nothing() {
    let run = service(|_| {}).run_once(Some(10));
    let mut other = run;
    other.advance(GcEvent::OrphanBlobsDeleted(3));
    assert_eq!(other, run);
    assert!(run.can_advance(GcEvent::OrphanBlobsDeleted(usize::MAX)));

    let mut later = run;
    later.advance(GcEvent::StaleUploadsDeleted(1));
    later.advance(GcEvent::UntaggedManifestsDeleted(usize::MAX));
    assert!(later.can_advance(GcEvent::OrphanBlobsDeleted(usize::MAX - 1)));
    assert!(!later.can_advance(GcEvent::OrphanBlobsDeleted(usize::MAX)));
}

#[test]
fn bytes_are_shown_for_people() {
    assert_eq!(bytes_humanstring(0), "0 bytes");
    assert_eq!(bytes_humanstring(1), "1 byte");
    assert_eq!(bytes_humanstring(200), "200 bytes");
    assert_eq!(bytes_humanstring(1_340_249), "1.28 MiB");
}
