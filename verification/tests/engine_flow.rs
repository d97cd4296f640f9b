use std::io::Write;

use vampire::engine::{Action, Event, MavenResolver, Resolution, ResolutionPlan};
use vampire::errors::ResolveError;
use vampire::lock::{LockMetadata, LockedArtifact, VampireLock};
use vampire::lockrun::LockAction;

fn jar_bytes(tag: &[u8]) -> Vec<u8> {
    let mut writer = zip::ZipWriter::new(std::io::Cursor::new(Vec::new()));
    let options = zip::write::SimpleFileOptions::default()
        .compression_method(zip::CompressionMethod::Stored);
    writer.start_file("META-INF/MANIFEST.MF", options).unwrap();
    writer.write_all(tag).unwrap();
    writer.finish().unwrap().into_inner()
}

fn resolver() -> MavenResolver {
    MavenResolver::new("cache".to_string())
}

/// Drive one artifact through: aar cache miss, aar not in either
/// repository, jar cache hit with the given bytes; returns the action
/// after the POM cache read was answered with `pom`.
fn feed_artifact_via_jar_cache(
    machine: &mut Resolution,
    action: Action,
    bytes: Vec<u8>,
    pom: &str,
) -> Action {
    match action {
        Action::ReadArtifactCache { .. } => {}
        other => panic!("expected ReadArtifactCache, got {:?}", action_name(&other)),
    }
    let a = machine.step(Event::FileBytes { bytes: None });
    assert!(matches!(a, Action::DownloadArtifact { .. }));
    let a = machine.step(Event::NotFound);
    assert!(matches!(a, Action::DownloadArtifact { .. }));
    let a = machine.step(Event::NotFound);
    assert!(matches!(a, Action::ReadArtifactCache { .. }));
    let a = machine.step(Event::FileBytes { bytes: Some(bytes) });
    assert!(matches!(a, Action::ReadPomCache { .. }));
    machine.step(Event::PomCacheText { text: Some(pom.to_string()) })
}

fn action_name(a: &Action) -> &'static str {
    match a {
        Action::ReadArtifactCache { .. } => "ReadArtifactCache",
        Action::RemoveCorrupt { .. } => "RemoveCorrupt",
        Action::DownloadArtifact { .. } => "DownloadArtifact",
        Action::ReadPomCache { .. } => "ReadPomCache",
        Action::DownloadPom { .. } => "DownloadPom",
        Action::FetchMetadata { .. } => "FetchMetadata",
        Action::ExtractAar { .. } => "ExtractAar",
        Action::Finished { .. } => "Finished",
        Action::Fail { .. } => "Fail",
    }
}

const EMPTY_POM: &str = "<project><dependencies></dependencies></project>";

#[test]
fn full_resolution_with_transitive_dependency_and_upgrade() {
    let foo_pom = "<project><dependencies>\
        <dependency><groupId>org.example</groupId><artifactId>bar</artifactId><version>1.0.0</version></dependency>\
        <dependency><groupId>org.example</groupId><artifactId>baz</artifactId><version>9.9.9</version><scope>test</scope></dependency>\
        </dependencies></project>";
    let bar_metadata = "<metadata><versioning><versions>\
        <version>1.0.0</version><version>1.0.1</version><version>1.1.0</version><version>2.0.0</version>\
        </versions></versioning></metadata>";

    let (mut machine, action) = resolver().start_resolution(&vec![
        "org.example:foo:1.0.0".to_string(),
    ]);
    match &action {
        Action::ReadArtifactCache { path } => {
            assert_eq!(path, "cache/org.example/foo/1.0.0/foo-1.0.0.aar");
        }
        other => panic!("unexpected first action {:?}", action_name(other)),
    }
    let a = machine.step(Event::FileBytes { bytes: None });
    match &a {
        Action::DownloadArtifact { url, .. } => {
            assert_eq!(
                url,
                "https://dl.google.com/dl/android/maven2/org/example/foo/1.0.0/foo-1.0.0.aar"
            );
        }
        other => panic!("unexpected action {:?}", action_name(other)),
    }
    let a = machine.step(Event::NotFound);
    match &a {
        Action::DownloadArtifact { url, .. } => {
            assert_eq!(
                url,
                "https://repo.maven.apache.org/maven2/org/example/foo/1.0.0/foo-1.0.0.aar"
            );
        }
        other => panic!("unexpected action {:?}", action_name(other)),
    }
    let a = machine.step(Event::NotFound);
    match &a {
        Action::ReadArtifactCache { path } => {
            assert_eq!(path, "cache/org.example/foo/1.0.0/foo-1.0.0.jar");
        }
        other => panic!("unexpected action {:?}", action_name(other)),
    }
    let foo_jar = jar_bytes(b"foo");
    let a = machine.step(Event::FileBytes { bytes: Some(foo_jar.clone()) });
    assert!(matches!(a, Action::ReadPomCache { .. }));
    let a = machine.step(Event::PomCacheText { text: Some(foo_pom.to_string()) });
    match &a {
        Action::FetchMetadata { url } => {
            assert_eq!(
                url,
                "https://dl.google.com/dl/android/maven2/org/example/bar/maven-metadata.xml"
            );
        }
        other => panic!("unexpected action {:?}", action_name(other)),
    }
    let a = machine.step(Event::MetadataFetched { text: Some(bar_metadata.to_string()) });
    // bar upgraded to the highest compatible version 1.1.0
    match &a {
        Action::ReadArtifactCache { path } => {
            assert_eq!(path, "cache/org.example/bar/1.1.0/bar-1.1.0.aar");
        }
        other => panic!("unexpected action {:?}", action_name(other)),
    }
    let bar_jar = jar_bytes(b"bar");
    let a = machine.step(Event::FileBytes { bytes: None });
    assert!(matches!(a, Action::DownloadArtifact { .. }));
    let a = machine.step(Event::NotFound);
    assert!(matches!(a, Action::DownloadArtifact { .. }));
    let a = machine.step(Event::NotFound);
    assert!(matches!(a, Action::ReadArtifactCache { .. }));
    let a = machine.step(Event::FileBytes { bytes: Some(bar_jar.clone()) });
    assert!(matches!(a, Action::ReadPomCache { .. }));
    let a = machine.step(Event::PomCacheText { text: Some(EMPTY_POM.to_string()) });
    match a {
        Action::Finished { artifacts, lock } => {
            let coords: Vec<String> =
                artifacts.iter().map(|a| a.coordinate.to_string()).collect();
            assert_eq!(
                coords,
                vec!["org.example:foo:1.0.0", "org.example:bar:1.1.0"]
            );
            // test-scoped baz never appears
            assert!(!coords.iter().any(|c| c.contains("baz")));
            assert_eq!(lock.version, "1");
            assert_eq!(lock.artifacts.len(), 2);
            assert_eq!(lock.artifacts[0].requested, "org.example:foo:1.0.0");
            assert_eq!(lock.artifacts[0].resolved, "org.example:foo:1.0.0");
            assert!(!lock.artifacts[0].transitive);
            assert_eq!(
                lock.artifacts[0].blake3,
                Some(blake3::hash(foo_jar.as_slice()).to_hex().to_string())
            );
            assert_eq!(lock.artifacts[0].source_url, None);
            assert_eq!(lock.artifacts[1].requested, "org.example:bar:1.0.0");
            assert_eq!(lock.artifacts[1].resolved, "org.example:bar:1.1.0");
            assert!(lock.artifacts[1].transitive);
            assert_eq!(lock.metadata.repositories.len(), 2);
        }
        other => panic!("expected Finished, got {:?}", action_name(&other)),
    }
}

#[test]
fn nearest_wins_keeps_first_resolution_per_key() {
    let b_pom = "<project><dependencies>\
        <dependency><groupId>g</groupId><artifactId>a</artifactId><version>2.0.0</version></dependency>\
        </dependencies></project>";
    let (mut machine, action) = resolver().start_resolution(&vec![
        "g:a:1.0.0".to_string(),
        "g:b:1.0.0".to_string(),
    ]);
    // root a resolves first, with no dependencies
    let a = feed_artifact_via_jar_cache(&mut machine, action, jar_bytes(b"a"), EMPTY_POM);
    // root b resolves next; its POM asks for g:a:2.0.0
    let a = feed_artifact_via_jar_cache(&mut machine, a, jar_bytes(b"b"), b_pom);
    // the child a:2.0.0 parses as semver, so metadata is consulted; none available
    assert!(matches!(a, Action::FetchMetadata { .. }));
    let a = machine.step(Event::MetadataFetched { text: None });
    assert!(matches!(a, Action::FetchMetadata { .. }));
    let a = machine.step(Event::MetadataFetched { text: None });
    // the revisited key g:a is skipped: resolution finishes immediately
    match a {
        Action::Finished { artifacts, .. } => {
            let coords: Vec<String> =
                artifacts.iter().map(|a| a.coordinate.to_string()).collect();
            assert_eq!(coords, vec!["g:a:1.0.0", "g:b:1.0.0"]);
        }
        other => panic!("expected Finished, got {:?}", action_name(&other)),
    }
}

#[test]
fn aar_artifact_goes_through_extraction() {
    let mut writer = zip::ZipWriter::new(std::io::Cursor::new(Vec::new()));
    let options = zip::write::SimpleFileOptions::default()
        .compression_method(zip::CompressionMethod::Stored);
    writer.start_file("AndroidManifest.xml", options).unwrap();
    writer
        .write_all(b"<manifest package=\"com.example.widget\"></manifest>")
        .unwrap();
    writer.start_file("jni/arm64-v8a/libfoo.so", options).unwrap();
    writer.write_all(b"\x7fELF").unwrap();
    let aar = writer.finish().unwrap().into_inner();

    let (mut machine, action) =
        resolver().start_resolution(&vec!["com.example:widget:1.0.0".to_string()]);
    assert!(matches!(action, Action::ReadArtifactCache { .. }));
    // the AAR is found in the cache
    let a = machine.step(Event::FileBytes { bytes: Some(aar) });
    match &a {
        Action::ExtractAar { out_dir, plan, .. } => {
            assert_eq!(out_dir, "cache/com.example/widget/1.0.0");
            assert!(plan.synthesize_classes_jar.is_some());
            assert_eq!(plan.native_libs.len(), 1);
        }
        other => panic!("expected ExtractAar, got {:?}", action_name(other)),
    }
    let a = machine.step(Event::Extracted);
    assert!(matches!(a, Action::ReadPomCache { .. }));
    let a = machine.step(Event::PomCacheText { text: Some(EMPTY_POM.to_string()) });
    match a {
        Action::Finished { artifacts, lock } => {
            assert_eq!(artifacts.len(), 1);
            let art = &artifacts[0];
            assert!(art.is_aar);
            assert_eq!(art.jar_path, "cache/com.example/widget/1.0.0/classes.jar");
            assert_eq!(
                art.native_libs,
                vec![(
                    "arm64-v8a".to_string(),
                    "cache/com.example/widget/1.0.0/jni/arm64-v8a/libfoo.so".to_string()
                )]
            );
            assert_eq!(art.package_name, Some("com.example.widget".to_string()));
            assert_eq!(
                art.manifest_path,
                Some("cache/com.example/widget/1.0.0/AndroidManifest.xml".to_string())
            );
            assert_eq!(lock.artifacts[0].artifact_type, "aar");
        }
        other => panic!("expected Finished, got {:?}", action_name(&other)),
    }
}

#[test]
fn corrupt_cached_artifact_is_removed_and_redownloaded() {
    let (mut machine, action) =
        resolver().start_resolution(&vec!["g:a:1.0.0".to_string()]);
    assert!(matches!(action, Action::ReadArtifactCache { .. }));
    let a = machine.step(Event::FileBytes { bytes: Some(b"garbage".to_vec()) });
    match &a {
        Action::RemoveCorrupt { path } => {
            assert_eq!(path, "cache/g/a/1.0.0/a-1.0.0.aar");
        }
        other => panic!("expected RemoveCorrupt, got {:?}", action_name(other)),
    }
    let a = machine.step(Event::Removed);
    assert!(matches!(a, Action::DownloadArtifact { .. }));
}

#[test]
fn missing_artifact_everywhere_is_not_found() {
    let (mut machine, action) =
        resolver().start_resolution(&vec!["g:a:1.0.0".to_string()]);
    assert!(matches!(action, Action::ReadArtifactCache { .. }));
    let a = machine.step(Event::FileBytes { bytes: None });
    assert!(matches!(a, Action::DownloadArtifact { .. }));
    let a = machine.step(Event::NotFound);
    assert!(matches!(a, Action::DownloadArtifact { .. }));
    let a = machine.step(Event::NotFound);
    assert!(matches!(a, Action::ReadArtifactCache { .. }));
    let a = machine.step(Event::FileBytes { bytes: None });
    assert!(matches!(a, Action::DownloadArtifact { .. }));
    let a = machine.step(Event::NotFound);
    assert!(matches!(a, Action::DownloadArtifact { .. }));
    let a = machine.step(Event::NotFound);
    match a {
        Action::Fail { error: ResolveError::NotFound { what } } => {
            assert_eq!(what, "g:a:1.0.0");
        }
        other => panic!("expected NotFound failure, got {:?}", action_name(&other)),
    }
}

#[test]
fn transport_failure_aborts_resolution() {
    let (mut machine, action) =
        resolver().start_resolution(&vec!["g:a:1.0.0".to_string()]);
    assert!(matches!(action, Action::ReadArtifactCache { .. }));
    let a = machine.step(Event::FileBytes { bytes: None });
    assert!(matches!(a, Action::DownloadArtifact { .. }));
    let a = machine.step(Event::TransportFailed { message: "connection reset".to_string() });
    match a {
        Action::Fail { error: ResolveError::Transport { message } } => {
            assert_eq!(message, "connection reset");
        }
        other => panic!("expected Transport failure, got {:?}", action_name(&other)),
    }
}

#[test]
fn corrupt_download_aborts_resolution() {
    let (mut machine, action) =
        resolver().start_resolution(&vec!["g:a:1.0.0".to_string()]);
    assert!(matches!(action, Action::ReadArtifactCache { .. }));
    let a = machine.step(Event::FileBytes { bytes: None });
    assert!(matches!(a, Action::DownloadArtifact { .. }));
    let a = machine.step(Event::Downloaded { bytes: b"broken".to_vec() });
    assert!(matches!(
        a,
        Action::Fail { error: ResolveError::CorruptArchive { .. } }
    ));
}

#[test]
fn malformed_pom_aborts_resolution() {
    let (mut machine, action) =
        resolver().start_resolution(&vec!["g:a:1.0.0".to_string()]);
    let a = feed_artifact_via_jar_cache(&mut machine, action, jar_bytes(b"a"), "busted <<<");
    assert!(matches!(a, Action::Fail { error: ResolveError::Parse { .. } }));
}

#[test]
fn malformed_root_coordinate_fails_before_any_fetch() {
    let (_machine, action) = resolver().start_resolution(&vec!["nope".to_string()]);
    match action {
        Action::Fail { error: ResolveError::CoordinateFormat { coordinate } } => {
            assert_eq!(coordinate, "nope");
        }
        other => panic!("expected CoordinateFormat, got {:?}", action_name(&other)),
    }
}

#[test]
fn pom_missing_everywhere_is_not_found() {
    let (mut machine, action) =
        resolver().start_resolution(&vec!["g:a:1.0.0".to_string()]);
    assert!(matches!(action, Action::ReadArtifactCache { .. }));
    let a = machine.step(Event::FileBytes { bytes: None });
    assert!(matches!(a, Action::DownloadArtifact { .. }));
    let a = machine.step(Event::NotFound);
    assert!(matches!(a, Action::DownloadArtifact { .. }));
    let a = machine.step(Event::NotFound);
    assert!(matches!(a, Action::ReadArtifactCache { .. }));
    let a = machine.step(Event::FileBytes { bytes: Some(jar_bytes(b"a")) });
    assert!(matches!(a, Action::ReadPomCache { .. }));
    let a = machine.step(Event::PomCacheText { text: None });
    assert!(matches!(a, Action::DownloadPom { .. }));
    let a = machine.step(Event::NotFound);
    assert!(matches!(a, Action::DownloadPom { .. }));
    let a = machine.step(Event::NotFound);
    match a {
        Action::Fail { error: ResolveError::NotFound { what } } => {
            assert_eq!(what, "POM for g:a:1.0.0");
        }
        other => panic!("expected NotFound failure, got {:?}", action_name(&other)),
    }
}

fn lock_for(requested: &str, resolved: &str, hash: Option<String>) -> VampireLock {
    VampireLock {
        version: "1".to_string(),
        artifacts: vec![LockedArtifact {
            requested: requested.to_string(),
            resolved: resolved.to_string(),
            artifact_type: "jar".to_string(),
            blake3: hash,
            source_url: None,
            transitive: false,
            parent: None,
        }],
        metadata: LockMetadata {
            generated_at: "2024-01-01T00:00:00+00:00".to_string(),
            repositories: Vec::new(),
        },
    }
}

#[test]
fn lock_path_verifies_hashes_and_fetches_nothing_else() {
    let bytes = jar_bytes(b"locked");
    let hash = blake3::hash(bytes.as_slice()).to_hex().to_string();
    let lock = lock_for("g:a:1.0.0", "g:a:1.0.0", Some(hash));
    let (mut machine, action) = resolver().start_from_lock(lock);
    // only artifact fetch actions exist on this path: the LockAction type
    // has no POM or metadata variant at all
    assert!(matches!(action, LockAction::ReadArtifactCache { .. }));
    let a = machine.step(Event::FileBytes { bytes: None });
    assert!(matches!(a, LockAction::DownloadArtifact { .. }));
    let a = machine.step(Event::NotFound);
    assert!(matches!(a, LockAction::DownloadArtifact { .. }));
    let a = machine.step(Event::NotFound);
    assert!(matches!(a, LockAction::ReadArtifactCache { .. }));
    let a = machine.step(Event::FileBytes { bytes: Some(bytes) });
    match a {
        LockAction::Finished { artifacts } => {
            assert_eq!(artifacts.len(), 1);
            assert_eq!(artifacts[0].coordinate.to_string(), "g:a:1.0.0");
        }
        _ => panic!("expected Finished"),
    }
}

#[test]
fn lock_path_hash_mismatch_is_an_integrity_failure() {
    let bytes = jar_bytes(b"locked");
    let lock = lock_for("g:a:1.0.0", "g:a:1.0.0", Some("00".repeat(32)));
    let (mut machine, action) = resolver().start_from_lock(lock);
    assert!(matches!(action, LockAction::ReadArtifactCache { .. }));
    let a = machine.step(Event::FileBytes { bytes: Some(bytes) });
    match a {
        LockAction::Fail { error: ResolveError::Integrity { coordinate, .. } } => {
            assert_eq!(coordinate, "g:a:1.0.0");
        }
        _ => panic!("expected Integrity failure"),
    }
}

#[test]
fn plan_resolution_chooses_lock_only_on_exact_direct_match() {
    let r = resolver();
    let lock = lock_for("g:a:1.0.0", "g:a:1.1.0", None);
    // matching key set (version differences ignored): use the lock
    let plan = r
        .plan_resolution(Some(&lock), &vec!["g:a:2.0.0".to_string()], false)
        .unwrap();
    assert!(matches!(plan, ResolutionPlan::UseLock));
    // mismatched set: full resolution, which will overwrite the lock
    let plan = r
        .plan_resolution(Some(&lock), &vec!["g:other:1.0.0".to_string()], false)
        .unwrap();
    assert!(matches!(plan, ResolutionPlan::FullResolution));
    // forced update always re-resolves
    let plan = r
        .plan_resolution(Some(&lock), &vec!["g:a:1.0.0".to_string()], true)
        .unwrap();
    assert!(matches!(plan, ResolutionPlan::FullResolution));
    // no lock at all
    let plan = r.plan_resolution(None, &vec!["g:a:1.0.0".to_string()], false).unwrap();
    assert!(matches!(plan, ResolutionPlan::FullResolution));
}
