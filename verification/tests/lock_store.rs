use vampire::errors::ResolveError;
use vampire::lock::{LockMetadata, LockedArtifact, VampireLock};
use vampire::locktext;

fn sample_lock() -> VampireLock {
    VampireLock {
        version: "1".to_string(),
        artifacts: vec![
            LockedArtifact {
                requested: "org.example:foo:1.0.0".to_string(),
                resolved: "org.example:foo:1.1.0".to_string(),
                artifact_type: "jar".to_string(),
                blake3: Some("ab".repeat(32)),
                source_url: Some("https://repo.maven.apache.org/maven2/x".to_string()),
                transitive: false,
                parent: None,
            },
            LockedArtifact {
                requested: "org.example:bar:2.0.0".to_string(),
                resolved: "org.example:bar:2.0.0".to_string(),
                artifact_type: "aar".to_string(),
                blake3: None,
                source_url: None,
                transitive: true,
                parent: Some("org.example:foo:1.1.0".to_string()),
            },
        ],
        metadata: LockMetadata {
            generated_at: "2024-01-01T00:00:00+00:00".to_string(),
            repositories: vec![
                "https://dl.google.com/dl/android/maven2".to_string(),
                "https://repo.maven.apache.org/maven2".to_string(),
            ],
        },
    }
}

#[test]
fn lock_text_round_trips() {
    let lock = sample_lock();
    let text = locktext::lock_to_string(&lock);
    let parsed = locktext::lock_from_string(text.as_str()).expect("round trip parse");
    assert_eq!(parsed, lock);
}

#[test]
fn lock_text_round_trips_empty_lock() {
    let lock = VampireLock {
        version: "1".to_string(),
        artifacts: Vec::new(),
        metadata: LockMetadata {
            generated_at: "2024-01-01T00:00:00+00:00".to_string(),
            repositories: Vec::new(),
        },
    };
    let text = locktext::lock_to_string(&lock);
    let parsed = locktext::lock_from_string(text.as_str()).expect("round trip parse");
    assert_eq!(parsed, lock);
}

#[test]
fn lock_text_shape_is_line_oriented() {
    let text = locktext::lock_to_string(&sample_lock());
    let lines: Vec<&str> = text.lines().collect();
    assert_eq!(lines[0], "vampire-lock 1");
    assert_eq!(lines[1], "generated-at 2024-01-01T00:00:00+00:00");
    assert_eq!(lines[2], "repositories 2");
    assert_eq!(lines[3], "repository https://dl.google.com/dl/android/maven2");
    assert_eq!(lines[5], "artifacts 2");
    assert_eq!(lines[6], "requested org.example:foo:1.0.0");
    assert_eq!(lines[11], "transitive false");
    assert_eq!(lines[12], "parent -");
    assert_eq!(lines[19], "parent +org.example:foo:1.1.0");
}

#[test]
fn lock_parse_rejects_malformed_documents() {
    assert!(locktext::lock_from_string("").is_none());
    assert!(locktext::lock_from_string("not a lock\n").is_none());
    let truncated = "vampire-lock 1\ngenerated-at t\nrepositories 1\n";
    assert!(locktext::lock_from_string(truncated).is_none());
    let trailing = format!("{}junk\n", locktext::lock_to_string(&sample_lock()));
    assert!(locktext::lock_from_string(trailing.as_str()).is_none());
}

#[test]
fn validate_lock_matches_by_key_set() {
    let lock = sample_lock();
    // direct (non-transitive) entries: only foo; version differences are ignored
    let requested = vec!["org.example:foo:9.9.9".to_string()];
    assert_eq!(lock.validate_lock(&requested), Ok(true));
    let mismatched = vec!["org.example:other:1.0.0".to_string()];
    assert_eq!(lock.validate_lock(&mismatched), Ok(false));
    let too_many = vec![
        "org.example:foo:1.0.0".to_string(),
        "org.example:extra:1.0.0".to_string(),
    ];
    assert_eq!(lock.validate_lock(&too_many), Ok(false));
}

#[test]
fn validate_lock_rejects_malformed_coordinates() {
    let lock = sample_lock();
    let bad = vec!["not-a-coordinate".to_string()];
    match lock.validate_lock(&bad) {
        Err(ResolveError::CoordinateFormat { .. }) => {}
        other => panic!("expected CoordinateFormat, got {:?}", other),
    }
}
