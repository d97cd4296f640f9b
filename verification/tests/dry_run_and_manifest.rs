use vampire::dryrun::DryAction;
use vampire::engine::{Event, MavenResolver};
use vampire::manifest::{generate_android_manifest, ManifestComponent};

const EMPTY_POM: &str = "<project><dependencies></dependencies></project>";

#[test]
fn dry_run_tree_keeps_duplicate_edges_but_one_node_per_key() {
    let b_pom = "<project><dependencies>\
        <dependency><groupId>g</groupId><artifactId>a</artifactId><version>2.0.0</version></dependency>\
        </dependencies></project>";
    let r = MavenResolver::new("cache".to_string());
    let (mut machine, action) =
        r.start_dry_run(&vec!["g:a:1.0.0".to_string(), "g:b:1.0.0".to_string()]);
    // node a
    match &action {
        DryAction::ReadPomCache { path } => {
            assert_eq!(path, "cache/g/a/1.0.0/a-1.0.0.pom");
        }
        _ => panic!("expected ReadPomCache"),
    }
    let a = machine.step(Event::PomCacheText { text: Some(EMPTY_POM.to_string()) });
    // node b
    assert!(matches!(a, DryAction::ReadPomCache { .. }));
    let a = machine.step(Event::PomCacheText { text: Some(b_pom.to_string()) });
    // b's child a:2.0.0 parses as semver: metadata consulted, unavailable
    assert!(matches!(a, DryAction::FetchMetadata { .. }));
    let a = machine.step(Event::MetadataFetched { text: None });
    assert!(matches!(a, DryAction::FetchMetadata { .. }));
    let a = machine.step(Event::MetadataFetched { text: None });
    match a {
        DryAction::Finished { nodes } => {
            // one node per group:artifact key, first visit wins
            assert_eq!(nodes.len(), 2);
            assert_eq!(nodes[0].coordinate.to_string(), "g:a:1.0.0");
            assert_eq!(nodes[0].depth, 0);
            assert!(!nodes[0].is_transitive);
            assert_eq!(nodes[1].coordinate.to_string(), "g:b:1.0.0");
            // ... but the duplicate request is still visible as an edge,
            // at its own (different) version
            assert_eq!(nodes[1].children.len(), 1);
            assert_eq!(nodes[1].children[0].to_string(), "g:a:2.0.0");
            // candidate URLs cover each repository with aar before jar
            assert_eq!(
                nodes[0].download_urls,
                vec![
                    "https://dl.google.com/dl/android/maven2/g/a/1.0.0/a-1.0.0.aar",
                    "https://dl.google.com/dl/android/maven2/g/a/1.0.0/a-1.0.0.jar",
                    "https://repo.maven.apache.org/maven2/g/a/1.0.0/a-1.0.0.aar",
                    "https://repo.maven.apache.org/maven2/g/a/1.0.0/a-1.0.0.jar",
                ]
            );
        }
        _ => panic!("expected Finished"),
    }
}

#[test]
fn dry_run_records_parent_and_depth_for_transitive_nodes() {
    let root_pom = "<project><dependencies>\
        <dependency><groupId>g</groupId><artifactId>child</artifactId><version>raw</version></dependency>\
        </dependencies></project>";
    let r = MavenResolver::new("cache".to_string());
    let (mut machine, action) = r.start_dry_run(&vec!["g:root:1.0.0".to_string()]);
    assert!(matches!(action, DryAction::ReadPomCache { .. }));
    let a = machine.step(Event::PomCacheText { text: Some(root_pom.to_string()) });
    // "raw" is not a semver version: no metadata fetch, child visited directly
    assert!(matches!(a, DryAction::ReadPomCache { .. }));
    let a = machine.step(Event::PomCacheText { text: Some(EMPTY_POM.to_string()) });
    match a {
        DryAction::Finished { nodes } => {
            assert_eq!(nodes.len(), 2);
            assert_eq!(nodes[1].coordinate.to_string(), "g:child:raw");
            assert_eq!(nodes[1].depth, 1);
            assert!(nodes[1].is_transitive);
            assert_eq!(
                nodes[1].parent.as_ref().map(|p| p.to_string()),
                Some("g:root:1.0.0".to_string())
            );
            assert_eq!(nodes[0].children.len(), 1);
        }
        _ => panic!("expected Finished"),
    }
}

#[test]
fn android_manifest_without_extras() {
    let text = generate_android_manifest(&[], &[], &[]);
    let mut expected = String::new();
    expected.push_str("<?xml version=\"1.0\" encoding=\"utf-8\"?>\n");
    expected.push_str("<manifest xmlns:android=\"http://schemas.android.com/apk/res/android\"\n");
    expected.push_str("    package=\"com.vampire.host\">\n\n");
    expected.push_str("    <uses-sdk android:minSdkVersion=\"24\" android:targetSdkVersion=\"30\" />\n\n");
    expected.push_str("    <application android:label=\"Vampire Host\" android:debuggable=\"true\">\n");
    expected.push_str("        <!-- Minimal instrumentation for running tests -->\n");
    expected.push_str("        <uses-library android:name=\"android.test.runner\" />\n");
    expected.push_str("    </application>\n\n");
    expected.push_str("    <instrumentation\n");
    expected.push_str("        android:name=\".VampireInstrumentation\"\n");
    expected.push_str("        android:targetPackage=\"com.vampire.host\"\n");
    expected.push_str("        android:label=\"Vampire Test Runner\" />\n\n");
    expected.push_str("</manifest>\n");
    assert_eq!(text, expected);
}

#[test]
fn android_manifest_with_permissions_and_components() {
    let permissions = vec!["android.permission.INTERNET".to_string()];
    let services = vec![ManifestComponent {
        name: ".SyncService".to_string(),
        attributes: vec![("exported".to_string(), "false".to_string())],
    }];
    let receivers = vec![ManifestComponent {
        name: ".BootReceiver".to_string(),
        attributes: Vec::new(),
    }];
    let text = generate_android_manifest(&permissions, &services, &receivers);
    assert!(text.contains(
        "    <uses-permission android:name=\"android.permission.INTERNET\" />\n"
    ));
    assert!(text.contains(
        "        <service android:name=\".SyncService\" android:exported=\"false\" />\n"
    ));
    assert!(text.contains("        <receiver android:name=\".BootReceiver\" />\n"));
}

#[test]
fn sdk_paths() {
    let sdk = vampire::sdk::AndroidSdk {
        sdk_path: "/opt/android".to_string(),
        build_tools_version: "34.0.0".to_string(),
    };
    assert_eq!(sdk.tool_path("aapt2"), "/opt/android/build-tools/34.0.0/aapt2");
    assert_eq!(
        sdk.android_jar(30),
        "/opt/android/platforms/android-30/android.jar"
    );
}

#[test]
fn builder_defaults_and_setters() {
    let b = vampire::builder::Builder::new();
    assert!(b.java_sources.is_empty());
    assert_eq!(b.java_dir.as_deref(), Some("java"));
    assert_eq!(b.target_sdk, 30);
    let b = b.java_source("src/A.java").java_dir("jvm").target_sdk(34);
    assert_eq!(b.java_sources, vec!["src/A.java"]);
    assert_eq!(b.java_dir.as_deref(), Some("jvm"));
    assert_eq!(b.target_sdk, 34);
}

#[test]
fn test_metadata_fields() {
    let m = vampire::testmeta::TestMetadata {
        name: "boot_check",
        is_async: true,
        should_panic: false,
    };
    assert_eq!(m.name, "boot_check");
    assert!(m.is_async);
    assert!(!m.should_panic);
}

#[test]
fn sort_nodes_orders_by_depth_group_artifact() {
    let r = MavenResolver::new("cache".to_string());
    let pom_b = "<project><dependencies>\
        <dependency><groupId>zz</groupId><artifactId>child</artifactId><version>raw</version></dependency>\
        </dependencies></project>";
    let (mut machine, action) = r.start_dry_run(&vec![
        "zz:beta:1.0.0".to_string(),
        "aa:omega:1.0.0".to_string(),
        "aa:alpha:1.0.0".to_string(),
    ]);
    assert!(matches!(action, DryAction::ReadPomCache { .. }));
    let a = machine.step(Event::PomCacheText { text: Some(pom_b.to_string()) });
    // zz:beta's child zz:child (non-semver version, visited directly)
    assert!(matches!(a, DryAction::ReadPomCache { .. }));
    let a = machine.step(Event::PomCacheText { text: Some(EMPTY_POM.to_string()) });
    assert!(matches!(a, DryAction::ReadPomCache { .. }));
    let a = machine.step(Event::PomCacheText { text: Some(EMPTY_POM.to_string()) });
    assert!(matches!(a, DryAction::ReadPomCache { .. }));
    let a = machine.step(Event::PomCacheText { text: Some(EMPTY_POM.to_string()) });
    let nodes = match a {
        DryAction::Finished { nodes } => nodes,
        _ => panic!("expected Finished"),
    };
    // discovery order: zz:beta, zz:child (depth 1), aa:omega, aa:alpha
    let sorted = vampire::dryrun::sort_nodes(nodes);
    let listing: Vec<(usize, String)> = sorted
        .iter()
        .map(|n| (n.depth, n.coordinate.key()))
        .collect();
    assert_eq!(
        listing,
        vec![
            (0, "aa:alpha".to_string()),
            (0, "aa:omega".to_string()),
            (0, "zz:beta".to_string()),
            (1, "zz:child".to_string()),
        ]
    );
}
