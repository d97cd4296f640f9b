//! Archive handling: zip-container validation, entry access and the
//! deterministic AAR extraction plan.
//!
//! Reading and writing zip bytes is the `zip` crate's work, behind trusted
//! declarations; which entry goes where — the extraction policy — is
//! verified code.

use vstd::prelude::*;

use crate::coordinate::MavenCoordinate;
use crate::strutil;

verus! {

/// The entry names of a zip archive, a function of the archive bytes
/// alone; nothing when the bytes are not a valid zip container.
pub uninterp spec fn zip_entries(b: Seq<u8>) -> Option<Seq<Seq<char>>>;

/// The content of one named entry of a zip archive, a function of the
/// archive bytes and the name alone.
pub uninterp spec fn zip_entry_data(b: Seq<u8>, name: Seq<char>) -> Option<Seq<u8>>;

/// Whether the bytes form a valid zip container.
pub open spec fn spec_zip_valid(b: Seq<u8>) -> bool {
    zip_entries(b) is Some
}

/// Relies on zip's `ZipArchive::new` and `ZipArchive::file_names`: reading
/// the central directory succeeds exactly on valid archives, and the entry
/// names are a function of the bytes.
#[verifier::external_body]
pub fn zip_entry_names(bytes: &[u8]) -> (r: Option<Vec<String>>)
    ensures
        match r {
            Some(v) => zip_entries(bytes@) == Some(v.deep_view()),
            None => zip_entries(bytes@) is None,
        },
{
    match zip::ZipArchive::new(std::io::Cursor::new(bytes)) {
        Ok(archive) => Some(archive.file_names().map(|s| s.to_string()).collect()),
        Err(_) => None,
    }
}

/// Whether the bytes parse as a zip container (JARs and AARs both are).
pub fn zip_valid(bytes: &[u8]) -> (r: bool)
    ensures
        r == spec_zip_valid(bytes@),
{
    zip_entry_names(bytes).is_some()
}

/// Relies on zip's `ZipArchive::by_name` and std's `Read::read_to_end`:
/// the decompressed content of a named entry.
#[verifier::external_body]
pub fn zip_entry_bytes(bytes: &[u8], name: &str) -> (r: Option<Vec<u8>>)
    ensures
        match r {
            Some(v) => zip_entry_data(bytes@, name@) == Some(v@),
            None => zip_entry_data(bytes@, name@) is None,
        },
{
    let mut archive = zip::ZipArchive::new(std::io::Cursor::new(bytes)).ok()?;
    let mut entry = archive.by_name(name).ok()?;
    let mut out = Vec::new();
    std::io::Read::read_to_end(&mut entry, &mut out).ok()?;
    Some(out)
}

/// Relies on zip's `ZipWriter`: an archive with one stored
/// `META-INF/MANIFEST.MF` entry, readable back with `ZipArchive` as the
/// crate's own examples do.
#[verifier::external_body]
pub fn empty_jar_bytes() -> (r: Vec<u8>)
    ensures
        spec_zip_valid(r@),
{
    let mut writer = zip::ZipWriter::new(std::io::Cursor::new(Vec::new()));
    let options = zip::write::SimpleFileOptions::default().compression_method(
        zip::CompressionMethod::Stored,
    );
    writer.start_file("META-INF/MANIFEST.MF", options).expect("in-memory zip write");
    std::io::Write::write_all(&mut writer, b"Manifest-Version: 1.0\n").expect(
        "in-memory zip write",
    );
    writer.finish().expect("in-memory zip write").into_inner()
}

/// Relies on std's `String::from_utf8`: succeeds exactly on valid UTF-8,
/// returning the decoded characters.
#[verifier::external_body]
pub fn string_from_utf8(bytes: Vec<u8>) -> (r: Option<String>)
    ensures
        match r {
            Some(s) => vstd::utf8::valid_utf8(bytes@) && vstd::utf8::encode_utf8(s@) == bytes@,
            None => !vstd::utf8::valid_utf8(bytes@),
        },
{
    String::from_utf8(bytes).ok()
}

/// One artifact as extracted under the cache directory; created once per
/// resolution pass and never mutated afterwards.
#[derive(Clone, Debug)]
pub struct ResolvedArtifact {
    pub coordinate: MavenCoordinate,
    pub jar_path: String,
    pub is_aar: bool,
    /// Native libraries extracted from the AAR: (architecture, library path).
    pub native_libs: Vec<(String, String)>,
    /// `AndroidManifest.xml` path, when the AAR carries one.
    pub manifest_path: Option<String>,
    /// Resources directory, when the AAR carries `res/` entries.
    pub res_dir: Option<String>,
    /// `R.txt` path, when the AAR carries one.
    pub r_txt_path: Option<String>,
    /// The `package` attribute of the AAR manifest, when parseable.
    pub package_name: Option<String>,
}

/// What one AAR entry means to the extractor.
pub ghost enum AarEntryKind {
    ClassesJar,
    Manifest,
    RTxt,
    Resource,
    NativeLib { arch: Seq<char>, file: Seq<char> },
    Ignored,
}

/// Whether `s` has `pat` as a suffix.
pub open spec fn spec_ends_with(s: Seq<char>, pat: Seq<char>) -> bool {
    pat.len() <= s.len() && s.skip(s.len() - pat.len()) == pat
}

/// Suffix test on string slices.
pub fn ends_with(s: &str, pat: &str) -> (r: bool)
    ensures
        r == spec_ends_with(s@, pat@),
{
    let n = s.unicode_len();
    let m = pat.unicode_len();
    if m > n {
        return false;
    }
    let mut i: usize = 0;
    while i < m
        invariant
            i <= m,
            m <= n,
            n == s@.len(),
            m == pat@.len(),
            forall|j: int| 0 <= j < i ==> s@[n - m + j] == pat@[j],
        decreases m - i,
    {
        if s.get_char(n - m + i) != pat.get_char(i) {
            assert(s@.skip(n - m as int)[i as int] != pat@[i as int]);
            return false;
        }
        i += 1;
    }
    proof {
        assert(s@.skip(n - m as int) =~= pat@);
    }
    true
}

/// Classification of one AAR entry by its name: the well-known entries,
/// resource files, native libraries of the form `jni/<arch>/<name>.so`,
/// and everything else ignored.
pub open spec fn spec_classify_entry(name: Seq<char>) -> AarEntryKind {
    if name == "classes.jar"@ {
        AarEntryKind::ClassesJar
    } else if name == "AndroidManifest.xml"@ {
        AarEntryKind::Manifest
    } else if name == "R.txt"@ {
        AarEntryKind::RTxt
    } else if strutil::spec_starts_with(name, "res/"@) && !spec_ends_with(name, "/"@) {
        AarEntryKind::Resource
    } else if strutil::spec_starts_with(name, "jni/"@) && spec_ends_with(name, ".so"@)
        && strutil::spec_split(name, '/').len() == 3 {
        AarEntryKind::NativeLib {
            arch: strutil::spec_split(name, '/')[1],
            file: strutil::spec_split(name, '/')[2],
        }
    } else {
        AarEntryKind::Ignored
    }
}

/// The abstract extraction plan: copies as (entry, output path), native
/// libraries as (architecture, output path), and which well-known parts
/// were seen.
pub ghost struct AarPlanView {
    pub copies: Seq<(Seq<char>, Seq<char>)>,
    pub native_libs: Seq<(Seq<char>, Seq<char>)>,
    pub has_classes: bool,
    pub has_manifest: bool,
    pub has_res: bool,
    pub has_r_txt: bool,
}

/// The output path for one entry under the extraction directory.
pub open spec fn spec_entry_out_path(name: Seq<char>, out_dir: Seq<char>) -> Seq<char> {
    match spec_classify_entry(name) {
        AarEntryKind::ClassesJar => out_dir + seq!['/'] + "classes.jar"@,
        AarEntryKind::Manifest => out_dir + seq!['/'] + "AndroidManifest.xml"@,
        AarEntryKind::RTxt => out_dir + seq!['/'] + "R.txt"@,
        AarEntryKind::Resource => out_dir + seq!['/'] + name,
        AarEntryKind::NativeLib { arch, file } => out_dir + "/jni/"@ + arch + seq!['/'] + file,
        AarEntryKind::Ignored => Seq::<char>::empty(),
    }
}

/// How one entry extends the plan.
pub open spec fn spec_plan_step(acc: AarPlanView, name: Seq<char>, out_dir: Seq<char>)
    -> AarPlanView {
    let out = spec_entry_out_path(name, out_dir);
    match spec_classify_entry(name) {
        AarEntryKind::ClassesJar => AarPlanView {
            copies: acc.copies.push((name, out)),
            has_classes: true,
            ..acc
        },
        AarEntryKind::Manifest => AarPlanView {
            copies: acc.copies.push((name, out)),
            has_manifest: true,
            ..acc
        },
        AarEntryKind::RTxt => AarPlanView {
            copies: acc.copies.push((name, out)),
            has_r_txt: true,
            ..acc
        },
        AarEntryKind::Resource => AarPlanView {
            copies: acc.copies.push((name, out)),
            has_res: true,
            ..acc
        },
        AarEntryKind::NativeLib { arch, file: _ } => AarPlanView {
            copies: acc.copies.push((name, out)),
            native_libs: acc.native_libs.push((arch, out)),
            ..acc
        },
        AarEntryKind::Ignored => acc,
    }
}

/// The plan for a whole entry list, in order.
pub open spec fn spec_plan(entries: Seq<Seq<char>>, out_dir: Seq<char>) -> AarPlanView
    decreases entries.len(),
{
    if entries.len() == 0 {
        AarPlanView {
            copies: Seq::empty(),
            native_libs: Seq::empty(),
            has_classes: false,
            has_manifest: false,
            has_res: false,
            has_r_txt: false,
        }
    } else {
        spec_plan_step(spec_plan(entries.drop_last(), out_dir), entries.last(), out_dir)
    }
}

/// The extraction plan handed to the driver: byte-for-byte copies of the
/// recognized entries, plus a synthesized empty jar when the archive has
/// no `classes.jar`.
pub struct AarPlan {
    /// (entry name, output path) for every recognized entry, in order.
    pub copies: Vec<(String, String)>,
    /// (architecture, output path) for every `jni/<arch>/*.so` entry.
    pub native_libs: Vec<(String, String)>,
    /// The bytes of a minimal valid jar to write at `classes.jar` when the
    /// archive carries none.
    pub synthesize_classes_jar: Option<Vec<u8>>,
    /// Whether the archive carries an `AndroidManifest.xml`.
    pub has_manifest: bool,
    /// Whether the archive carries `res/` entries.
    pub has_res: bool,
    /// Whether the archive carries an `R.txt`.
    pub has_r_txt: bool,
}

/// Classify one entry name, in executable form.
fn classify_entry(name: &str) -> (r: (u8, Option<(String, String)>))
    ensures
        ({
            let k = spec_classify_entry(name@);
            &&& (r.0 == 0) == k is ClassesJar
            &&& (r.0 == 1) == k is Manifest
            &&& (r.0 == 2) == k is RTxt
            &&& (r.0 == 3) == k is Resource
            &&& (r.0 == 4) == k is NativeLib
            &&& r.0 <= 5
            &&& r.0 == 4 ==> (r.1 matches Some(p) && k == (AarEntryKind::NativeLib {
                arch: p.0@,
                file: p.1@,
            }))
        }),
{
    if strutil::str_eq(name, "classes.jar") {
        (0, None)
    } else if strutil::str_eq(name, "AndroidManifest.xml") {
        (1, None)
    } else if strutil::str_eq(name, "R.txt") {
        (2, None)
    } else if strutil::starts_with(name, "res/") && !ends_with(name, "/") {
        (3, None)
    } else {
        let is_native = strutil::starts_with(name, "jni/") && ends_with(name, ".so");
        if is_native {
            let parts = strutil::split_char(name, '/');
            proof {
                strutil::lemma_split_len(name@, '/');
            }
            if parts.len() == 3 {
                proof {
                    assert(parts@[1]@ == strutil::spec_split(name@, '/')[1]);
                    assert(parts@[2]@ == strutil::spec_split(name@, '/')[2]);
                }
                let arch = parts[1].clone();
                let file = parts[2].clone();
                return (4, Some((arch, file)));
            }
            return (5, None);
        }
        (5, None)
    }
}

/// Build the deterministic extraction plan for an AAR's entry list.
/// The recognized entries map to fixed output paths under `out_dir`; a
/// missing `classes.jar` yields synthesized empty-jar bytes, themselves a
/// valid zip container.
pub fn plan_aar_extraction(entries: &Vec<String>, out_dir: &str) -> (r: AarPlan)
    ensures
        ({
            let p = spec_plan(entries.deep_view(), out_dir@);
            r.copies@.len() == p.copies.len() && (forall|i: int|
                0 <= i < r.copies@.len() ==> (#[trigger] r.copies@[i]).0@ == p.copies[i].0
                    && r.copies@[i].1@ == p.copies[i].1) && r.native_libs@.len()
                == p.native_libs.len() && (forall|i: int|
                0 <= i < r.native_libs@.len() ==> (#[trigger] r.native_libs@[i]).0@
                    == p.native_libs[i].0 && r.native_libs@[i].1@ == p.native_libs[i].1) && (match r
                .synthesize_classes_jar {
                Some(bytes) => !p.has_classes && spec_zip_valid(bytes@),
                None => p.has_classes,
            }) && r.has_manifest == p.has_manifest && r.has_res == p.has_res && r.has_r_txt
                == p.has_r_txt
        }),
{
    let ghost es = entries.deep_view();
    let mut copies: Vec<(String, String)> = Vec::new();
    let mut native_libs: Vec<(String, String)> = Vec::new();
    let mut has_classes = false;
    let mut has_manifest = false;
    let mut has_res = false;
    let mut has_r_txt = false;
    let mut i: usize = 0;
    proof {
        assert(es.subrange(0, 0) =~= Seq::<Seq<char>>::empty());
    }
    while i < entries.len()
        invariant
            i <= entries.len(),
            es.len() == entries.len(),
            forall|k: int| 0 <= k < es.len() ==> es[k] == (#[trigger] entries@[k])@,
            ({
                let p = spec_plan(es.subrange(0, i as int), out_dir@);
                copies@.len() == p.copies.len() && (forall|k: int|
                    0 <= k < copies@.len() ==> (#[trigger] copies@[k]).0@ == p.copies[k].0
                        && copies@[k].1@ == p.copies[k].1) && native_libs@.len()
                    == p.native_libs.len() && (forall|k: int|
                    0 <= k < native_libs@.len() ==> (#[trigger] native_libs@[k]).0@
                        == p.native_libs[k].0 && native_libs@[k].1@ == p.native_libs[k].1)
                    && has_classes == p.has_classes && has_manifest == p.has_manifest && has_res
                    == p.has_res && has_r_txt == p.has_r_txt
            }),
        decreases entries.len() - i,
    {
        let ghost pre = es.subrange(0, i as int);
        let ghost post = es.subrange(0, i + 1 as int);
        proof {
            assert(post.drop_last() =~= pre);
            assert(post.last() == es[i as int]);
        }
        let name = &entries[i];
        let (kind, native) = classify_entry(name.as_str());
        if kind == 0 {
            let out = join_path(out_dir, "classes.jar");
            copies.push((name.clone(), out));
            has_classes = true;
        } else if kind == 1 {
            let out = join_path(out_dir, "AndroidManifest.xml");
            copies.push((name.clone(), out));
            has_manifest = true;
        } else if kind == 2 {
            let out = join_path(out_dir, "R.txt");
            copies.push((name.clone(), out));
            has_r_txt = true;
        } else if kind == 3 {
            let out = join_path(out_dir, name.as_str());
            copies.push((name.clone(), out));
            has_res = true;
        } else if kind == 4 {
            let (arch, file) = match native {
                Some(p) => p,
                None => {
                    proof {
                        assert(false);
                    }
                    unreached()
                },
            };
            let mut out = strutil::str_to_string(out_dir);
            strutil::append_str(&mut out, "/jni/");
            strutil::append_str(&mut out, arch.as_str());
            strutil::push_char(&mut out, '/');
            strutil::append_str(&mut out, file.as_str());
            proof {
                assert(out@ =~= spec_entry_out_path(post.last(), out_dir@));
            }
            copies.push((name.clone(), out.clone()));
            native_libs.push((arch, out));
        }
        i += 1;
    }
    proof {
        assert(es.subrange(0, entries.len() as int) =~= es);
    }
    let synthesize_classes_jar = if has_classes {
        None
    } else {
        Some(empty_jar_bytes())
    };
    AarPlan { copies, native_libs, synthesize_classes_jar, has_manifest, has_res, has_r_txt }
}

/// `dir + "/" + name`.
pub fn join_path(dir: &str, name: &str) -> (r: String)
    ensures
        r@ == dir@ + seq!['/'] + name@,
{
    let mut out = strutil::str_to_string(dir);
    strutil::push_char(&mut out, '/');
    strutil::append_str(&mut out, name);
    proof {
        assert(out@ =~= dir@ + seq!['/'] + name@);
    }
    out
}

/// The `package` attribute of a manifest document, when the document
/// parses and carries one.
pub fn manifest_package_name(manifest_text: &str) -> (r: Option<String>)
    ensures
        match crate::xml::xml_parsed(manifest_text@) {
            Some(t) => r.deep_view() == if t.attrs.contains_key("package"@) {
                Some(t.attrs["package"@])
            } else {
                None::<Seq<char>>
            },
            None => r is None,
        },
{
    match crate::xml::xml_parse(manifest_text) {
        Some(doc) => {
            let root = crate::xml::xml_root(&doc);
            crate::xml::xml_attribute(&doc, &root, "package")
        },
        None => None,
    }
}

} // verus!
