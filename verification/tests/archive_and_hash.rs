use std::io::Write;

use vampire::archive;
use vampire::hashing;

fn zip_bytes(entries: &[(&str, &[u8])]) -> Vec<u8> {
    let mut writer = zip::ZipWriter::new(std::io::Cursor::new(Vec::new()));
    let options = zip::write::SimpleFileOptions::default()
        .compression_method(zip::CompressionMethod::Stored);
    for (name, data) in entries {
        writer.start_file(*name, options).unwrap();
        writer.write_all(data).unwrap();
    }
    writer.finish().unwrap().into_inner()
}

#[test]
fn zip_validity_detection() {
    let good = zip_bytes(&[("a.txt", b"hello")]);
    assert!(archive::zip_valid(good.as_slice()));
    assert!(!archive::zip_valid(b"this is not a zip"));
    assert!(!archive::zip_valid(b""));
}

#[test]
fn zip_entry_listing_and_content() {
    let bytes = zip_bytes(&[("a.txt", b"hello"), ("dir/b.txt", b"world")]);
    let names = archive::zip_entry_names(bytes.as_slice()).unwrap();
    assert_eq!(names, vec!["a.txt", "dir/b.txt"]);
    let data = archive::zip_entry_bytes(bytes.as_slice(), "dir/b.txt").unwrap();
    assert_eq!(data, b"world");
    assert!(archive::zip_entry_bytes(bytes.as_slice(), "missing").is_none());
}

#[test]
fn aar_plan_recognizes_well_known_entries() {
    let entries: Vec<String> = [
        "classes.jar",
        "AndroidManifest.xml",
        "R.txt",
        "res/values/strings.xml",
        "res/",
        "jni/arm64-v8a/libfoo.so",
        "jni/bad.so",
        "proguard.txt",
    ]
    .iter()
    .map(|s| s.to_string())
    .collect();
    let plan = archive::plan_aar_extraction(&entries, "out");
    assert!(plan.synthesize_classes_jar.is_none());
    assert!(plan.has_manifest);
    assert!(plan.has_res);
    assert!(plan.has_r_txt);
    let copies: Vec<(String, String)> = plan.copies.clone();
    assert!(copies.contains(&("classes.jar".to_string(), "out/classes.jar".to_string())));
    assert!(copies.contains(&(
        "AndroidManifest.xml".to_string(),
        "out/AndroidManifest.xml".to_string()
    )));
    assert!(copies.contains(&("R.txt".to_string(), "out/R.txt".to_string())));
    assert!(copies.contains(&(
        "res/values/strings.xml".to_string(),
        "out/res/values/strings.xml".to_string()
    )));
    assert!(copies.contains(&(
        "jni/arm64-v8a/libfoo.so".to_string(),
        "out/jni/arm64-v8a/libfoo.so".to_string()
    )));
    assert_eq!(
        plan.native_libs,
        vec![("arm64-v8a".to_string(), "out/jni/arm64-v8a/libfoo.so".to_string())]
    );
    // directory entries, malformed jni paths and unknown entries are ignored
    assert_eq!(plan.copies.len(), 5);
}

#[test]
fn aar_plan_synthesizes_empty_jar_when_classes_jar_missing() {
    let entries: Vec<String> = vec!["AndroidManifest.xml".to_string()];
    let plan = archive::plan_aar_extraction(&entries, "out");
    let jar = plan.synthesize_classes_jar.expect("synthesized jar expected");
    assert!(archive::zip_valid(jar.as_slice()));
    let names = archive::zip_entry_names(jar.as_slice()).unwrap();
    assert_eq!(names, vec!["META-INF/MANIFEST.MF"]);
}

#[test]
fn manifest_package_name_extraction() {
    let xml = "<manifest xmlns:android=\"http://schemas.android.com/apk/res/android\" \
               package=\"com.example.lib\"><application/></manifest>";
    let pkg = archive::manifest_package_name(xml);
    assert_eq!(pkg, Some("com.example.lib".to_string()));
    assert_eq!(archive::manifest_package_name("<manifest/>"), None);
    assert_eq!(archive::manifest_package_name("broken <<"), None);
}

#[test]
fn blake3_hashing_matches_the_library() {
    let hex = hashing::blake3_hash_hex(b"abc");
    assert_eq!(hex, blake3::hash(b"abc").to_hex().to_string());
    assert_eq!(hex.len(), 64);
}

#[test]
fn integrity_check_against_optional_hash() {
    let bytes = b"artifact bytes".to_vec();
    let good = hashing::blake3_hash_hex(bytes.as_slice());
    assert!(hashing::check_integrity(&Some(good), bytes.as_slice()));
    assert!(hashing::check_integrity(&None, bytes.as_slice()));
    assert!(!hashing::check_integrity(&Some("00".repeat(32)), bytes.as_slice()));
}

#[test]
fn utf8_decoding() {
    assert_eq!(
        archive::string_from_utf8(b"hello".to_vec()),
        Some("hello".to_string())
    );
    assert_eq!(archive::string_from_utf8(vec![0xff, 0xfe]), None);
}
