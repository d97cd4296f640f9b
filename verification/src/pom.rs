//! POM and maven-metadata document readers: dependency extraction with
//! property substitution, version-range normalization and scope filtering,
//! and the published-version listing.

use vstd::prelude::*;

use crate::coordinate::{CoordView, MavenCoordinate};
use crate::errors::ResolveError;
use crate::strutil;
use crate::xml;
use crate::xml::XmlTree;

verus! {

/// Textual substitution of the `${project.X}`, `${project/X}` and
/// `${pom.X}` placeholders with the declaring coordinate's fields, in the
/// fixed order group, version, artifact.
pub open spec fn spec_resolve_property(v: Seq<char>, cur: CoordView) -> Seq<char> {
    let s1 = strutil::spec_replace(v, "${project.groupId}"@, cur.group);
    let s2 = strutil::spec_replace(s1, "${project/groupId}"@, cur.group);
    let s3 = strutil::spec_replace(s2, "${pom.groupId}"@, cur.group);
    let s4 = strutil::spec_replace(s3, "${project.version}"@, cur.version);
    let s5 = strutil::spec_replace(s4, "${project/version}"@, cur.version);
    let s6 = strutil::spec_replace(s5, "${pom.version}"@, cur.version);
    let s7 = strutil::spec_replace(s6, "${project.artifactId}"@, cur.artifact);
    let s8 = strutil::spec_replace(s7, "${project/artifactId}"@, cur.artifact);
    strutil::spec_replace(s8, "${pom.artifactId}"@, cur.artifact)
}

/// Substitute Maven property placeholders with the current coordinate's
/// fields.
pub fn resolve_property(value: &str, current: &MavenCoordinate) -> (r: String)
    ensures
        r@ == spec_resolve_property(value@, current@),
{
    proof {
        reveal_strlit("${project.groupId}");
        reveal_strlit("${project/groupId}");
        reveal_strlit("${pom.groupId}");
        reveal_strlit("${project.version}");
        reveal_strlit("${project/version}");
        reveal_strlit("${pom.version}");
        reveal_strlit("${project.artifactId}");
        reveal_strlit("${project/artifactId}");
        reveal_strlit("${pom.artifactId}");
    }
    let s1 = strutil::replace_str(value, "${project.groupId}", current.group_id.as_str());
    let s2 = strutil::replace_str(s1.as_str(), "${project/groupId}", current.group_id.as_str());
    let s3 = strutil::replace_str(s2.as_str(), "${pom.groupId}", current.group_id.as_str());
    let s4 = strutil::replace_str(s3.as_str(), "${project.version}", current.version.as_str());
    let s5 = strutil::replace_str(s4.as_str(), "${project/version}", current.version.as_str());
    let s6 = strutil::replace_str(s5.as_str(), "${pom.version}", current.version.as_str());
    let s7 = strutil::replace_str(
        s6.as_str(),
        "${project.artifactId}",
        current.artifact_id.as_str(),
    );
    let s8 = strutil::replace_str(
        s7.as_str(),
        "${project/artifactId}",
        current.artifact_id.as_str(),
    );
    strutil::replace_str(s8.as_str(), "${pom.artifactId}", current.artifact_id.as_str())
}

/// Maven range syntax is normalized by keeping only the first component:
/// brackets and parentheses are stripped and everything after the first
/// comma is dropped. A deliberate, lossy simplification of range
/// semantics.
pub open spec fn spec_normalize_version(v: Seq<char>) -> Seq<char> {
    let t = strutil::spec_trim(v);
    if t.len() > 0 && (t[0] == '[' || t[0] == '(') {
        let inner = strutil::spec_strip_leading(strutil::spec_strip_leading(t, '['), '(');
        let first = strutil::spec_split(inner, ',')[0];
        strutil::spec_trim(
            strutil::spec_strip_trailing(strutil::spec_strip_trailing(first, ']'), ')'),
        )
    } else {
        t
    }
}

/// Normalize a possibly range-shaped version string to its first
/// component.
pub fn normalize_version(version: &str) -> (r: String)
    ensures
        r@ == spec_normalize_version(version@),
{
    let t = strutil::trim(version);
    let n = t.as_str().unicode_len();
    if n > 0 && (t.as_str().get_char(0) == '[' || t.as_str().get_char(0) == '(') {
        let inner1 = strutil::strip_leading(t.as_str(), '[');
        let inner = strutil::strip_leading(inner1.as_str(), '(');
        let parts = strutil::split_char(inner.as_str(), ',');
        proof {
            strutil::lemma_split_len(inner@, ',');
            assert(parts@[0]@ == strutil::spec_split(inner@, ',')[0]);
        }
        let first = &parts[0];
        let stripped1 = strutil::strip_trailing(first.as_str(), ']');
        let stripped = strutil::strip_trailing(stripped1.as_str(), ')');
        strutil::trim(stripped.as_str())
    } else {
        t
    }
}

/// The accumulator for one `<dependency>` entry's fields; a later
/// occurrence of a field overwrites an earlier one, and the scope defaults
/// to `compile`.
pub ghost struct DepFields {
    pub group: Option<Seq<char>>,
    pub artifact: Option<Seq<char>>,
    pub version: Option<Seq<char>>,
    pub scope: Seq<char>,
}

/// How one field element updates the accumulator.
pub open spec fn spec_apply_field(acc: DepFields, f: XmlTree, cur: CoordView) -> DepFields {
    if f.name == "groupId"@ && f.text is Some {
        DepFields {
            group: Some(spec_resolve_property(f.text->0, cur)),
            artifact: acc.artifact,
            version: acc.version,
            scope: acc.scope,
        }
    } else if f.name == "artifactId"@ && f.text is Some {
        DepFields {
            group: acc.group,
            artifact: Some(spec_resolve_property(f.text->0, cur)),
            version: acc.version,
            scope: acc.scope,
        }
    } else if f.name == "version"@ && f.text is Some {
        DepFields {
            group: acc.group,
            artifact: acc.artifact,
            version: Some(spec_normalize_version(spec_resolve_property(f.text->0, cur))),
            scope: acc.scope,
        }
    } else if f.name == "scope"@ && f.text is Some {
        DepFields {
            group: acc.group,
            artifact: acc.artifact,
            version: acc.version,
            scope: f.text->0,
        }
    } else {
        acc
    }
}

/// The fields read from a `<dependency>` element's children, in order.
pub open spec fn spec_scan_fields(fs: Seq<XmlTree>, cur: CoordView) -> DepFields
    decreases fs.len(),
{
    if fs.len() == 0 {
        DepFields { group: None, artifact: None, version: None, scope: "compile"@ }
    } else {
        spec_apply_field(spec_scan_fields(fs.drop_last(), cur), fs.last(), cur)
    }
}

/// Only `compile` and `runtime` scoped dependencies propagate.
pub open spec fn spec_scope_included(scope: Seq<char>) -> bool {
    scope == "compile"@ || scope == "runtime"@
}

/// The coordinates contributed by one `<dependency>` element: one entry
/// when all three fields are present and the scope is included, none
/// otherwise.
pub open spec fn spec_dep_entry(dep: XmlTree, cur: CoordView) -> Seq<CoordView> {
    let f = spec_scan_fields(dep.children, cur);
    if spec_scope_included(f.scope) && f.group is Some && f.artifact is Some && f.version
        is Some {
        seq![CoordView { group: f.group->0, artifact: f.artifact->0, version: f.version->0 }]
    } else {
        Seq::<CoordView>::empty()
    }
}

/// The coordinates contributed by a `<dependencies>` section's children.
pub open spec fn spec_deps_in_section(cs: Seq<XmlTree>, cur: CoordView) -> Seq<CoordView>
    decreases cs.len(),
{
    if cs.len() == 0 {
        Seq::<CoordView>::empty()
    } else {
        spec_deps_in_section(cs.drop_last(), cur) + if cs.last().name == "dependency"@ {
            spec_dep_entry(cs.last(), cur)
        } else {
            Seq::<CoordView>::empty()
        }
    }
}

/// The coordinates contributed by every `<dependencies>` section under the
/// document root.
pub open spec fn spec_pom_sections(cs: Seq<XmlTree>, cur: CoordView) -> Seq<CoordView>
    decreases cs.len(),
{
    if cs.len() == 0 {
        Seq::<CoordView>::empty()
    } else {
        spec_pom_sections(cs.drop_last(), cur) + if cs.last().name == "dependencies"@ {
            spec_deps_in_section(cs.last().children, cur)
        } else {
            Seq::<CoordView>::empty()
        }
    }
}

/// All dependency coordinates declared by a POM document.
pub open spec fn spec_pom_deps(root: XmlTree, cur: CoordView) -> Seq<CoordView> {
    spec_pom_sections(root.children, cur)
}

/// Read the fields of one `<dependency>` element.
fn scan_dep_fields(
    d: &xmlem::Document,
    dep: &xmlem::Element,
    current: &MavenCoordinate,
) -> (r: (Option<String>, Option<String>, Option<String>, String))
    requires
        xml::elem_of(*d, *dep),
    ensures
        ({
            let f = spec_scan_fields(xml::elem_tree(*d, *dep).children, current@);
            r.0.deep_view() == f.group && r.1.deep_view() == f.artifact && r.2.deep_view()
                == f.version && r.3@ == f.scope
        }),
{
    let ghost fs = xml::elem_tree(*d, *dep).children;
    let fields = xml::xml_children(d, dep);
    let mut group: Option<String> = None;
    let mut artifact: Option<String> = None;
    let mut version: Option<String> = None;
    let mut scope: String = strutil::str_to_string("compile");
    let mut i: usize = 0;
    proof {
        assert(fs.subrange(0, 0) =~= Seq::<XmlTree>::empty());
    }
    while i < fields.len()
        invariant
            i <= fields.len(),
            fields@.len() == fs.len(),
            forall|k: int|
                0 <= k < fields@.len() ==> xml::elem_tree(*d, #[trigger] fields@[k]) == fs[k],
            forall|k: int| 0 <= k < fields@.len() ==> xml::elem_of(*d, #[trigger] fields@[k]),
            ({
                let f = spec_scan_fields(fs.subrange(0, i as int), current@);
                group.deep_view() == f.group && artifact.deep_view() == f.artifact
                    && version.deep_view() == f.version && scope@ == f.scope
            }),
        decreases fields.len() - i,
    {
        let ghost pre = fs.subrange(0, i as int);
        let ghost post = fs.subrange(0, i + 1 as int);
        proof {
            assert(post.drop_last() =~= pre);
            assert(post.last() == fs[i as int]);
        }
        let field = &fields[i];
        let name = xml::xml_name(d, field);
        if strutil::str_eq(name.as_str(), "groupId") {
            if let Some(t) = xml::xml_first_text(d, field) {
                group = Some(resolve_property(t.as_str(), current));
            }
        } else if strutil::str_eq(name.as_str(), "artifactId") {
            if let Some(t) = xml::xml_first_text(d, field) {
                artifact = Some(resolve_property(t.as_str(), current));
            }
        } else if strutil::str_eq(name.as_str(), "version") {
            if let Some(t) = xml::xml_first_text(d, field) {
                let resolved = resolve_property(t.as_str(), current);
                version = Some(normalize_version(resolved.as_str()));
            }
        } else if strutil::str_eq(name.as_str(), "scope") {
            if let Some(t) = xml::xml_first_text(d, field) {
                scope = t;
            }
        }
        i += 1;
    }
    proof {
        assert(fs.subrange(0, fields@.len() as int) =~= fs);
    }
    (group, artifact, version, scope)
}

/// The dependency contributed by one `<dependency>` element, if any.
fn dependency_entry(
    d: &xmlem::Document,
    dep: &xmlem::Element,
    current: &MavenCoordinate,
) -> (r: Option<MavenCoordinate>)
    requires
        xml::elem_of(*d, *dep),
    ensures
        match r {
            Some(c) => spec_dep_entry(xml::elem_tree(*d, *dep), current@) == seq![c@],
            None => spec_dep_entry(xml::elem_tree(*d, *dep), current@)
                == Seq::<CoordView>::empty(),
        },
{
    let (group, artifact, version, scope) = scan_dep_fields(d, dep, current);
    let included = strutil::str_eq(scope.as_str(), "compile") || strutil::str_eq(
        scope.as_str(),
        "runtime",
    );
    if !included {
        return None;
    }
    match (group, artifact, version) {
        (Some(g), Some(a), Some(v)) => {
            let c = MavenCoordinate { group_id: g, artifact_id: a, version: v };
            proof {
                assert(spec_dep_entry(xml::elem_tree(*d, *dep), current@) =~= seq![c@]);
            }
            Some(c)
        },
        _ => None,
    }
}

/// Extract the dependency coordinates declared by a POM document.
/// A document that does not parse as XML is a `Parse` error; otherwise the
/// result is exactly the compile- and runtime-scoped entries of its
/// `<dependencies>` sections, with placeholders substituted and version
/// ranges normalized.
pub fn parse_pom_dependencies(pom_xml: &str, current: &MavenCoordinate) -> (r: Result<
    Vec<MavenCoordinate>,
    ResolveError,
>)
    ensures
        match xml::xml_parsed(pom_xml@) {
            Some(t) => r matches Ok(v) && v@.len() == spec_pom_deps(t, current@).len() && (forall|
                i: int,
            |
                0 <= i < v@.len() ==> (#[trigger] v@[i])@ == spec_pom_deps(t, current@)[i]),
            None => r matches Err(e) && e matches ResolveError::Parse { .. },
        },
{
    let doc = match xml::xml_parse(pom_xml) {
        Some(doc) => doc,
        None => {
            return Err(
                ResolveError::Parse { message: strutil::str_to_string("malformed POM document") },
            );
        },
    };
    let root = xml::xml_root(&doc);
    let ghost tree = xml::doc_tree(doc);
    let ghost cs = tree.children;
    let sections = xml::xml_children(&doc, &root);
    let mut out: Vec<MavenCoordinate> = Vec::new();
    let mut i: usize = 0;
    proof {
        assert(cs.subrange(0, 0) =~= Seq::<XmlTree>::empty());
    }
    while i < sections.len()
        invariant
            i <= sections.len(),
            sections@.len() == cs.len(),
            forall|k: int|
                0 <= k < sections@.len() ==> xml::elem_tree(doc, #[trigger] sections@[k]) == cs[k],
            forall|k: int| 0 <= k < sections@.len() ==> xml::elem_of(doc, #[trigger] sections@[k]),
            out@.len() == spec_pom_sections(cs.subrange(0, i as int), current@).len(),
            forall|k: int|
                0 <= k < out@.len() ==> (#[trigger] out@[k])@ == spec_pom_sections(
                    cs.subrange(0, i as int),
                    current@,
                )[k],
        decreases sections.len() - i,
    {
        let ghost pre = cs.subrange(0, i as int);
        let ghost post = cs.subrange(0, i + 1 as int);
        proof {
            assert(post.drop_last() =~= pre);
            assert(post.last() == cs[i as int]);
        }
        let section = &sections[i];
        let name = xml::xml_name(&doc, section);
        if strutil::str_eq(name.as_str(), "dependencies") {
            let ghost ds = cs[i as int].children;
            let deps = xml::xml_children(&doc, section);
            let mut j: usize = 0;
            proof {
                assert(ds.subrange(0, 0) =~= Seq::<XmlTree>::empty());
                assert(spec_deps_in_section(ds.subrange(0, 0), current@)
                    =~= Seq::<CoordView>::empty());
            }
            while j < deps.len()
                invariant
                    j <= deps.len(),
                    deps@.len() == ds.len(),
                    forall|k: int|
                        0 <= k < deps@.len() ==> xml::elem_tree(doc, #[trigger] deps@[k]) == ds[k],
                    forall|k: int| 0 <= k < deps@.len() ==> xml::elem_of(doc, #[trigger] deps@[k]),
                    out@.len() == spec_pom_sections(pre, current@).len() + spec_deps_in_section(
                        ds.subrange(0, j as int),
                        current@,
                    ).len(),
                    forall|k: int|
                        0 <= k < out@.len() ==> (#[trigger] out@[k])@ == (spec_pom_sections(
                            pre,
                            current@,
                        ) + spec_deps_in_section(ds.subrange(0, j as int), current@))[k],
                decreases deps.len() - j,
            {
                let ghost dpre = ds.subrange(0, j as int);
                let ghost dpost = ds.subrange(0, j + 1 as int);
                proof {
                    assert(dpost.drop_last() =~= dpre);
                    assert(dpost.last() == ds[j as int]);
                }
                let dep = &deps[j];
                let dep_name = xml::xml_name(&doc, dep);
                if strutil::str_eq(dep_name.as_str(), "dependency") {
                    if let Some(c) = dependency_entry(&doc, dep, current) {
                        out.push(c);
                    }
                }
                j += 1;
            }
            proof {
                assert(ds.subrange(0, deps@.len() as int) =~= ds);
                assert(spec_pom_sections(post, current@) =~= spec_pom_sections(pre, current@)
                    + spec_deps_in_section(ds, current@));
            }
        } else {
            proof {
                assert(spec_pom_sections(post, current@) =~= spec_pom_sections(pre, current@));
            }
        }
        i += 1;
    }
    proof {
        assert(cs.subrange(0, sections@.len() as int) =~= cs);
    }
    Ok(out)
}

/// The version strings listed by a metadata document's
/// `<versioning><versions><version>` entries.
pub open spec fn spec_versions_entries(cs: Seq<XmlTree>) -> Seq<Seq<char>>
    decreases cs.len(),
{
    if cs.len() == 0 {
        Seq::<Seq<char>>::empty()
    } else {
        spec_versions_entries(cs.drop_last()) + if cs.last().name == "version"@
            && cs.last().text is Some {
            seq![cs.last().text->0]
        } else {
            Seq::<Seq<char>>::empty()
        }
    }
}

/// The entries of every `<versions>` child of a `<versioning>` element.
pub open spec fn spec_versions_lists(cs: Seq<XmlTree>) -> Seq<Seq<char>>
    decreases cs.len(),
{
    if cs.len() == 0 {
        Seq::<Seq<char>>::empty()
    } else {
        spec_versions_lists(cs.drop_last()) + if cs.last().name == "versions"@ {
            spec_versions_entries(cs.last().children)
        } else {
            Seq::<Seq<char>>::empty()
        }
    }
}

/// The entries of every `<versioning>` child of the document root.
pub open spec fn spec_versioning_sections(cs: Seq<XmlTree>) -> Seq<Seq<char>>
    decreases cs.len(),
{
    if cs.len() == 0 {
        Seq::<Seq<char>>::empty()
    } else {
        spec_versioning_sections(cs.drop_last()) + if cs.last().name == "versioning"@ {
            spec_versions_lists(cs.last().children)
        } else {
            Seq::<Seq<char>>::empty()
        }
    }
}

/// The published versions listed by a maven-metadata document; a document
/// that does not parse yields no versions.
pub open spec fn spec_metadata_versions(parsed: Option<XmlTree>) -> Seq<Seq<char>> {
    match parsed {
        Some(t) => spec_versioning_sections(t.children),
        None => Seq::<Seq<char>>::empty(),
    }
}

/// Collect the `<version>` entries under one `<versions>` element.
fn versions_entries(d: &xmlem::Document, e: &xmlem::Element, out: &mut Vec<String>)
    requires
        xml::elem_of(*d, *e),
    ensures
        final(out).deep_view() == old(out).deep_view() + spec_versions_entries(
            xml::elem_tree(*d, *e).children,
        ),
{
    let ghost cs = xml::elem_tree(*d, *e).children;
    let items = xml::xml_children(d, e);
    let mut i: usize = 0;
    proof {
        assert(cs.subrange(0, 0) =~= Seq::<XmlTree>::empty());
        assert(out.deep_view() =~= old(out).deep_view() + spec_versions_entries(
            cs.subrange(0, 0),
        ));
    }
    while i < items.len()
        invariant
            i <= items.len(),
            items@.len() == cs.len(),
            forall|k: int|
                0 <= k < items@.len() ==> xml::elem_tree(*d, #[trigger] items@[k]) == cs[k],
            forall|k: int| 0 <= k < items@.len() ==> xml::elem_of(*d, #[trigger] items@[k]),
            out.deep_view() == old(out).deep_view() + spec_versions_entries(
                cs.subrange(0, i as int),
            ),
        decreases items.len() - i,
    {
        let ghost pre = cs.subrange(0, i as int);
        let ghost post = cs.subrange(0, i + 1 as int);
        proof {
            assert(post.drop_last() =~= pre);
            assert(post.last() == cs[i as int]);
        }
        let item = &items[i];
        let name = xml::xml_name(d, item);
        if strutil::str_eq(name.as_str(), "version") {
            if let Some(t) = xml::xml_first_text(d, item) {
                let ghost old_dv = out.deep_view();
                out.push(t);
                proof {
                    assert(out.deep_view() =~= old_dv.push(post.last().text->0));
                }
            }
        }
        proof {
            assert(out.deep_view() =~= old(out).deep_view() + spec_versions_entries(post));
        }
        i += 1;
    }
    proof {
        assert(cs.subrange(0, items@.len() as int) =~= cs);
    }
}

/// Collect the entries of every `<versions>` child of one `<versioning>`
/// element.
fn versions_lists(d: &xmlem::Document, e: &xmlem::Element, out: &mut Vec<String>)
    requires
        xml::elem_of(*d, *e),
    ensures
        final(out).deep_view() == old(out).deep_view() + spec_versions_lists(
            xml::elem_tree(*d, *e).children,
        ),
{
    let ghost cs = xml::elem_tree(*d, *e).children;
    let items = xml::xml_children(d, e);
    let mut i: usize = 0;
    proof {
        assert(cs.subrange(0, 0) =~= Seq::<XmlTree>::empty());
        assert(out.deep_view() =~= old(out).deep_view() + spec_versions_lists(cs.subrange(0, 0)));
    }
    while i < items.len()
        invariant
            i <= items.len(),
            items@.len() == cs.len(),
            forall|k: int|
                0 <= k < items@.len() ==> xml::elem_tree(*d, #[trigger] items@[k]) == cs[k],
            forall|k: int| 0 <= k < items@.len() ==> xml::elem_of(*d, #[trigger] items@[k]),
            out.deep_view() == old(out).deep_view() + spec_versions_lists(cs.subrange(0, i as int)),
        decreases items.len() - i,
    {
        let ghost pre = cs.subrange(0, i as int);
        let ghost post = cs.subrange(0, i + 1 as int);
        proof {
            assert(post.drop_last() =~= pre);
            assert(post.last() == cs[i as int]);
        }
        let item = &items[i];
        let name = xml::xml_name(d, item);
        if strutil::str_eq(name.as_str(), "versions") {
            versions_entries(d, item, out);
        }
        proof {
            assert(out.deep_view() =~= old(out).deep_view() + spec_versions_lists(post));
        }
        i += 1;
    }
    proof {
        assert(cs.subrange(0, items@.len() as int) =~= cs);
    }
}

/// Parse the version strings published in a maven-metadata document.
/// Exactly the text entries under `versioning/versions/version`; a
/// document that does not parse as XML yields the empty list, never an
/// error.
pub fn parse_versions_from_metadata(metadata_xml: &str) -> (r: Vec<String>)
    ensures
        r.deep_view() == spec_metadata_versions(xml::xml_parsed(metadata_xml@)),
{
    let mut out: Vec<String> = Vec::new();
    let doc = match xml::xml_parse(metadata_xml) {
        Some(doc) => doc,
        None => {
            return out;
        },
    };
    let root = xml::xml_root(&doc);
    let ghost cs = xml::doc_tree(doc).children;
    let items = xml::xml_children(&doc, &root);
    let mut i: usize = 0;
    proof {
        assert(cs.subrange(0, 0) =~= Seq::<XmlTree>::empty());
        assert(out.deep_view() =~= spec_versioning_sections(cs.subrange(0, 0)));
    }
    while i < items.len()
        invariant
            i <= items.len(),
            items@.len() == cs.len(),
            forall|k: int|
                0 <= k < items@.len() ==> xml::elem_tree(doc, #[trigger] items@[k]) == cs[k],
            forall|k: int| 0 <= k < items@.len() ==> xml::elem_of(doc, #[trigger] items@[k]),
            out.deep_view() == spec_versioning_sections(cs.subrange(0, i as int)),
        decreases items.len() - i,
    {
        let ghost pre = cs.subrange(0, i as int);
        let ghost post = cs.subrange(0, i + 1 as int);
        proof {
            assert(post.drop_last() =~= pre);
            assert(post.last() == cs[i as int]);
        }
        let item = &items[i];
        let name = xml::xml_name(&doc, item);
        if strutil::str_eq(name.as_str(), "versioning") {
            versions_lists(&doc, item, &mut out);
        }
        proof {
            assert(out.deep_view() =~= spec_versioning_sections(post));
        }
        i += 1;
    }
    proof {
        assert(cs.subrange(0, items@.len() as int) =~= cs);
    }
    out
}

} // verus!
