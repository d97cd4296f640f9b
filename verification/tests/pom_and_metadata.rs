use vampire::coordinate::MavenCoordinate;
use vampire::errors::ResolveError;
use vampire::pom;

fn coord(s: &str) -> MavenCoordinate {
    MavenCoordinate::parse(s).unwrap()
}

#[test]
fn pom_scope_filter_keeps_compile_and_runtime_only() {
    let xml = "<project>\
        <dependencies>\
            <dependency><groupId>org.example</groupId><artifactId>bar</artifactId><version>1.0.0</version></dependency>\
            <dependency><groupId>org.example</groupId><artifactId>baz</artifactId><version>9.9.9</version><scope>test</scope></dependency>\
            <dependency><groupId>org.example</groupId><artifactId>qux</artifactId><version>2.0.0</version><scope>runtime</scope></dependency>\
            <dependency><groupId>org.example</groupId><artifactId>sys</artifactId><version>1.0.0</version><scope>provided</scope></dependency>\
        </dependencies>\
    </project>";
    let deps = pom::parse_pom_dependencies(xml, &coord("org.example:foo:1.0.0")).unwrap();
    let names: Vec<String> = deps.iter().map(|d| d.to_string()).collect();
    assert_eq!(names, vec!["org.example:bar:1.0.0", "org.example:qux:2.0.0"]);
}

#[test]
fn pom_property_placeholders_use_declaring_coordinate() {
    let xml = "<project>\
        <dependencies>\
            <dependency>\
                <groupId>${project.groupId}</groupId>\
                <artifactId>helper</artifactId>\
                <version>${project.version}</version>\
            </dependency>\
        </dependencies>\
    </project>";
    let deps = pom::parse_pom_dependencies(xml, &coord("com.acme:lib:3.1.4")).unwrap();
    assert_eq!(deps.len(), 1);
    assert_eq!(deps[0].to_string(), "com.acme:helper:3.1.4");
}

#[test]
fn pom_version_ranges_are_normalized_to_first_component() {
    let xml = "<project>\
        <dependencies>\
            <dependency><groupId>g</groupId><artifactId>a</artifactId><version>[2.5.1]</version></dependency>\
            <dependency><groupId>g</groupId><artifactId>b</artifactId><version>[1.0,2.0)</version></dependency>\
        </dependencies>\
    </project>";
    let deps = pom::parse_pom_dependencies(xml, &coord("g:p:1.0.0")).unwrap();
    assert_eq!(deps[0].version, "2.5.1");
    assert_eq!(deps[1].version, "1.0");
}

#[test]
fn pom_incomplete_dependency_entries_are_dropped() {
    let xml = "<project>\
        <dependencies>\
            <dependency><groupId>g</groupId><artifactId>a</artifactId></dependency>\
            <dependency><artifactId>b</artifactId><version>1.0.0</version></dependency>\
        </dependencies>\
    </project>";
    let deps = pom::parse_pom_dependencies(xml, &coord("g:p:1.0.0")).unwrap();
    assert!(deps.is_empty());
}

#[test]
fn pom_malformed_document_is_a_parse_error() {
    match pom::parse_pom_dependencies("not xml at all <<<", &coord("g:p:1.0.0")) {
        Err(ResolveError::Parse { .. }) => {}
        other => panic!("expected Parse error, got {:?}", other),
    }
}

#[test]
fn pom_document_without_dependencies_yields_none() {
    let deps = pom::parse_pom_dependencies("<project><name>x</name></project>", &coord("g:p:1.0.0"))
        .unwrap();
    assert!(deps.is_empty());
}

#[test]
fn metadata_versions_are_extracted_in_order() {
    let xml = "<metadata>\
        <versioning>\
            <versions>\
                <version>1.0.0</version>\
                <version>1.0.1</version>\
                <version>1.1.0</version>\
                <version>2.0.0</version>\
            </versions>\
        </versioning>\
    </metadata>";
    let versions = pom::parse_versions_from_metadata(xml);
    assert_eq!(versions, vec!["1.0.0", "1.0.1", "1.1.0", "2.0.0"]);
}

#[test]
fn metadata_malformed_document_yields_no_versions() {
    assert!(pom::parse_versions_from_metadata("not xml at all <<<").is_empty());
    assert!(pom::parse_versions_from_metadata("<metadata></metadata>").is_empty());
}

#[test]
fn resolve_property_substitutes_all_placeholder_styles() {
    let c = coord("com.acme:lib:2.0.0");
    assert_eq!(pom::resolve_property("${project.groupId}", &c), "com.acme");
    assert_eq!(pom::resolve_property("${pom.artifactId}", &c), "lib");
    assert_eq!(pom::resolve_property("${project/version}", &c), "2.0.0");
    assert_eq!(pom::resolve_property("plain", &c), "plain");
}

#[test]
fn normalize_version_strips_range_syntax() {
    assert_eq!(pom::normalize_version("[2.5.1]"), "2.5.1");
    assert_eq!(pom::normalize_version("[1.0,2.0)"), "1.0");
    assert_eq!(pom::normalize_version("(1.0,2.0]"), "1.0");
    assert_eq!(pom::normalize_version("  1.2.3  "), "1.2.3");
    assert_eq!(pom::normalize_version("1.2.3"), "1.2.3");
}
