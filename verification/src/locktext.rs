//! The lock file's text form: a line-oriented document of
//! keyword-prefixed fields that serializes and parses by verified code,
//! with exact character-level specifications on both directions.

use vstd::prelude::*;

use crate::lock::{
    LockMetadata, LockMetadataView, LockedArtifact, LockedArtifactView, VampireLock,
    VampireLockView,
};
use crate::strutil;

verus! {

/// A value that fits on one line.
pub open spec fn line_free(s: Seq<char>) -> bool {
    !s.contains('\n')
}

/// An optional value that fits on one line.
pub open spec fn opt_line_free(o: Option<Seq<char>>) -> bool {
    match o {
        Some(x) => line_free(x),
        None => true,
    }
}

/// A lock row whose fields all fit on one line.
pub open spec fn wf_locked_artifact(a: LockedArtifactView) -> bool {
    &&& line_free(a.requested)
    &&& line_free(a.resolved)
    &&& line_free(a.artifact_type)
    &&& opt_line_free(a.blake3)
    &&& opt_line_free(a.source_url)
    &&& opt_line_free(a.parent)
}

/// A lock the text form can carry: every field fits on one line, and the
/// counts fit their count lines.
pub open spec fn wf_lock(l: VampireLockView) -> bool {
    &&& line_free(l.version)
    &&& line_free(l.metadata.generated_at)
    &&& forall|i: int|
        0 <= i < l.metadata.repositories.len() ==> line_free(
            #[trigger] l.metadata.repositories[i],
        )
    &&& forall|i: int| 0 <= i < l.artifacts.len() ==> wf_locked_artifact(#[trigger] l.artifacts[i])
    &&& l.metadata.repositories.len() <= u32::MAX as int
    &&& l.artifacts.len() <= u32::MAX as int
}

/// An optional value on a line: `+value` or `-`.
pub open spec fn spec_opt_text(o: Option<Seq<char>>) -> Seq<char> {
    match o {
        Some(x) => seq!['+'] + x,
        None => "-"@,
    }
}

/// A boolean on a line.
pub open spec fn spec_bool_text(b: bool) -> Seq<char> {
    if b {
        "true"@
    } else {
        "false"@
    }
}

/// The seven lines of one lock row.
pub open spec fn spec_artifact_lines(a: LockedArtifactView) -> Seq<Seq<char>> {
    seq![
        "requested "@ + a.requested,
        "resolved "@ + a.resolved,
        "type "@ + a.artifact_type,
        "hash "@ + spec_opt_text(a.blake3),
        "source "@ + spec_opt_text(a.source_url),
        "transitive "@ + spec_bool_text(a.transitive),
        "parent "@ + spec_opt_text(a.parent),
    ]
}

/// One line per repository, in order.
pub open spec fn spec_repo_lines(rs: Seq<Seq<char>>) -> Seq<Seq<char>>
    decreases rs.len(),
{
    if rs.len() == 0 {
        Seq::<Seq<char>>::empty()
    } else {
        spec_repo_lines(rs.drop_last()).push("repository "@ + rs.last())
    }
}

/// The artifact blocks, in order.
pub open spec fn spec_artifacts_lines(arts: Seq<LockedArtifactView>) -> Seq<Seq<char>>
    decreases arts.len(),
{
    if arts.len() == 0 {
        Seq::<Seq<char>>::empty()
    } else {
        spec_artifacts_lines(arts.drop_last()) + spec_artifact_lines(arts.last())
    }
}

/// Every line of the lock document, in order, without terminators.
pub open spec fn spec_lock_lines(l: VampireLockView) -> Seq<Seq<char>> {
    seq![
        "vampire-lock "@ + l.version,
        "generated-at "@ + l.metadata.generated_at,
        "repositories "@ + strutil::spec_u32_digits(l.metadata.repositories.len() as int),
    ] + spec_repo_lines(l.metadata.repositories) + seq![
        "artifacts "@ + strutil::spec_u32_digits(l.artifacts.len() as int),
    ] + spec_artifacts_lines(l.artifacts)
}

/// Lines joined with a newline after each.
pub open spec fn spec_lines_text(ls: Seq<Seq<char>>) -> Seq<char>
    decreases ls.len(),
{
    if ls.len() == 0 {
        Seq::<char>::empty()
    } else {
        spec_lines_text(ls.drop_last()) + ls.last() + seq!['\n']
    }
}

/// The whole document.
pub open spec fn spec_lock_text(l: VampireLockView) -> Seq<char> {
    spec_lines_text(spec_lock_lines(l))
}

/// Rendering line lists distributes over concatenation.
pub proof fn lemma_lines_text_concat(a: Seq<Seq<char>>, b: Seq<Seq<char>>)
    ensures
        spec_lines_text(a + b) == spec_lines_text(a) + spec_lines_text(b),
    decreases b.len(),
{
    if b.len() == 0 {
        assert(a + b =~= a);
        assert(spec_lines_text(a) + spec_lines_text(b) =~= spec_lines_text(a));
    } else {
        lemma_lines_text_concat(a, b.drop_last());
        assert((a + b).drop_last() =~= a + b.drop_last());
        assert((a + b).last() == b.last());
        assert(spec_lines_text(a + b) =~= spec_lines_text(a) + spec_lines_text(b));
    }
}

/// Append a keyword-prefixed line plus newline to the output.
fn append_kw_line(out: &mut String, kw: &str, value: &str)
    ensures
        final(out)@ == old(out)@ + (kw@ + value@) + seq!['\n'],
{
    strutil::append_str(out, kw);
    strutil::append_str(out, value);
    strutil::push_char(out, '\n');
    proof {
        assert(out@ =~= old(out)@ + (kw@ + value@) + seq!['\n']);
    }
}

/// Append an optional value in its `+value` / `-` form.
fn append_opt_line(out: &mut String, kw: &str, value: &Option<String>)
    ensures
        final(out)@ == old(out)@ + (kw@ + spec_opt_text(value.deep_view())) + seq!['\n'],
{
    strutil::append_str(out, kw);
    match value {
        Some(v) => {
            strutil::push_char(out, '+');
            strutil::append_str(out, v.as_str());
        },
        None => {
            strutil::append_str(out, "-");
        },
    }
    strutil::push_char(out, '\n');
    proof {
        assert(out@ =~= old(out)@ + (kw@ + spec_opt_text(value.deep_view())) + seq!['\n']);
    }
}

/// Serialize a lock to its text form, exactly as `spec_lock_text`
/// describes.
#[verifier::rlimit(60)]
pub fn lock_to_string(l: &VampireLock) -> (r: String)
    ensures
        r@ == spec_lock_text(l@),
{
    let ghost lines = spec_lock_lines(l@);
    let ghost head3 = seq![
        "vampire-lock "@ + l@.version,
        "generated-at "@ + l@.metadata.generated_at,
        "repositories "@ + strutil::spec_u32_digits(l@.metadata.repositories.len() as int),
    ];
    let mut out = String::new();
    append_kw_line(&mut out, "vampire-lock ", l.version.as_str());
    append_kw_line(&mut out, "generated-at ", l.metadata.generated_at.as_str());
    let repo_count = strutil::u64_to_string(l.metadata.repositories.len() as u64);
    append_kw_line(&mut out, "repositories ", repo_count.as_str());
    proof {
        let l0 = "vampire-lock "@ + l@.version;
        let l1 = "generated-at "@ + l@.metadata.generated_at;
        assert(head3.drop_last() =~= seq![l0, l1]);
        assert(seq![l0, l1].drop_last() =~= seq![l0]);
        assert(seq![l0].drop_last() =~= Seq::<Seq<char>>::empty());
        assert(spec_lines_text(Seq::<Seq<char>>::empty()) =~= Seq::<char>::empty());
        assert(spec_lines_text(seq![l0]) =~= l0 + seq!['\n']);
        assert(spec_lines_text(seq![l0, l1]) =~= l0 + seq!['\n'] + l1 + seq!['\n']);
        assert(out@ =~= spec_lines_text(head3));
    }
    let ghost repos = l@.metadata.repositories;
    let mut i: usize = 0;
    proof {
        assert(repos.subrange(0, 0) =~= Seq::<Seq<char>>::empty());
        assert(spec_lines_text(spec_repo_lines(repos.subrange(0, 0))) =~= Seq::<char>::empty());
        assert(out@ =~= spec_lines_text(head3) + spec_lines_text(
            spec_repo_lines(repos.subrange(0, 0)),
        ));
    }
    while i < l.metadata.repositories.len()
        invariant
            i <= l.metadata.repositories@.len(),
            repos == l@.metadata.repositories,
            repos.len() == l.metadata.repositories@.len(),
            forall|k: int|
                0 <= k < repos.len() ==> repos[k] == (
                #[trigger] l.metadata.repositories@[k])@,
            out@ == spec_lines_text(head3) + spec_lines_text(
                spec_repo_lines(repos.subrange(0, i as int)),
            ),
        decreases l.metadata.repositories@.len() - i,
    {
        let ghost pre = repos.subrange(0, i as int);
        let ghost post = repos.subrange(0, i + 1 as int);
        proof {
            assert(post.drop_last() =~= pre);
            assert(post.last() == repos[i as int]);
        }
        append_kw_line(&mut out, "repository ", l.metadata.repositories[i].as_str());
        proof {
            assert(spec_repo_lines(post) == spec_repo_lines(pre).push(
                "repository "@ + post.last(),
            ));
            assert(spec_repo_lines(post).drop_last() =~= spec_repo_lines(pre));
            assert(spec_repo_lines(post).last() == "repository "@ + post.last());
            assert(spec_lines_text(spec_repo_lines(post)) == spec_lines_text(
                spec_repo_lines(pre),
            ) + ("repository "@ + post.last()) + seq!['\n']);
            assert(out@ =~= spec_lines_text(head3) + spec_lines_text(spec_repo_lines(post)));
        }
        i += 1;
    }
    proof {
        assert(repos.subrange(0, l.metadata.repositories@.len() as int) =~= repos);
    }
    let art_count = strutil::u64_to_string(l.artifacts.len() as u64);
    append_kw_line(&mut out, "artifacts ", art_count.as_str());
    let ghost head4 = head3 + spec_repo_lines(repos) + seq![
        "artifacts "@ + strutil::spec_u32_digits(l@.artifacts.len() as int),
    ];
    proof {
        let artline = "artifacts "@ + strutil::spec_u32_digits(l@.artifacts.len() as int);
        lemma_lines_text_concat(head3, spec_repo_lines(repos));
        lemma_lines_text_concat(head3 + spec_repo_lines(repos), seq![artline]);
        assert(seq![artline].drop_last() =~= Seq::<Seq<char>>::empty());
        assert(spec_lines_text(Seq::<Seq<char>>::empty()) =~= Seq::<char>::empty());
        assert(spec_lines_text(seq![artline]) =~= artline + seq!['\n']);
        assert(spec_lines_text(head3 + spec_repo_lines(repos)) == spec_lines_text(head3)
            + spec_lines_text(spec_repo_lines(repos)));
        assert(out@ =~= spec_lines_text(head4));
    }
    let ghost arts = l@.artifacts;
    let mut j: usize = 0;
    proof {
        assert(arts.subrange(0, 0) =~= Seq::<LockedArtifactView>::empty());
        assert(out@ =~= spec_lines_text(head4) + spec_lines_text(
            spec_artifacts_lines(arts.subrange(0, 0)),
        ));
    }
    while j < l.artifacts.len()
        invariant
            j <= l.artifacts@.len(),
            arts == l@.artifacts,
            arts.len() == l.artifacts@.len(),
            forall|k: int| 0 <= k < arts.len() ==> arts[k] == (#[trigger] l.artifacts@[k])@,
            out@ == spec_lines_text(head4) + spec_lines_text(
                spec_artifacts_lines(arts.subrange(0, j as int)),
            ),
        decreases l.artifacts@.len() - j,
    {
        let ghost pre = arts.subrange(0, j as int);
        let ghost post = arts.subrange(0, j + 1 as int);
        proof {
            assert(post.drop_last() =~= pre);
            assert(post.last() == arts[j as int]);
        }
        let a = &l.artifacts[j];
        let ghost before = out@;
        append_kw_line(&mut out, "requested ", a.requested.as_str());
        append_kw_line(&mut out, "resolved ", a.resolved.as_str());
        append_kw_line(&mut out, "type ", a.artifact_type.as_str());
        append_opt_line(&mut out, "hash ", &a.blake3);
        append_opt_line(&mut out, "source ", &a.source_url);
        if a.transitive {
            append_kw_line(&mut out, "transitive ", "true");
        } else {
            append_kw_line(&mut out, "transitive ", "false");
        }
        append_opt_line(&mut out, "parent ", &a.parent);
        proof {
            let al = spec_artifact_lines(post.last());
            assert(al.subrange(0, 1).drop_last() =~= Seq::<Seq<char>>::empty());
            assert(al.subrange(0, 2).drop_last() =~= al.subrange(0, 1));
            assert(al.subrange(0, 3).drop_last() =~= al.subrange(0, 2));
            assert(al.subrange(0, 4).drop_last() =~= al.subrange(0, 3));
            assert(al.subrange(0, 5).drop_last() =~= al.subrange(0, 4));
            assert(al.subrange(0, 6).drop_last() =~= al.subrange(0, 5));
            assert(al.subrange(0, 7) =~= al);
            assert(al.drop_last() =~= al.subrange(0, 6));
            assert(spec_lines_text(Seq::<Seq<char>>::empty()) =~= Seq::<char>::empty());
            assert(spec_lines_text(al.subrange(0, 1)) =~= al[0] + seq!['\n']);
            assert(spec_lines_text(al.subrange(0, 2)) =~= spec_lines_text(al.subrange(0, 1))
                + al[1] + seq!['\n']);
            assert(spec_lines_text(al.subrange(0, 3)) =~= spec_lines_text(al.subrange(0, 2))
                + al[2] + seq!['\n']);
            assert(spec_lines_text(al.subrange(0, 4)) =~= spec_lines_text(al.subrange(0, 3))
                + al[3] + seq!['\n']);
            assert(spec_lines_text(al.subrange(0, 5)) =~= spec_lines_text(al.subrange(0, 4))
                + al[4] + seq!['\n']);
            assert(spec_lines_text(al.subrange(0, 6)) =~= spec_lines_text(al.subrange(0, 5))
                + al[5] + seq!['\n']);
            assert(spec_lines_text(al) =~= spec_lines_text(al.subrange(0, 6)) + al[6]
                + seq!['\n']);
            assert(out@ =~= before + spec_lines_text(al));
            lemma_lines_text_concat(spec_artifacts_lines(pre), al);
            assert(spec_artifacts_lines(post) =~= spec_artifacts_lines(pre) + al);
            assert(out@ =~= spec_lines_text(head4) + spec_lines_text(
                spec_artifacts_lines(post),
            ));
        }
        j += 1;
    }
    proof {
        assert(arts.subrange(0, l.artifacts@.len() as int) =~= arts);
        lemma_lines_text_concat(head4, spec_artifacts_lines(arts));
        assert(head4 + spec_artifacts_lines(arts) =~= spec_lock_lines(l@));
        assert(out@ =~= spec_lock_text(l@));
    }
    out
}

/// The rest of the line after a required keyword prefix.
pub open spec fn spec_take_kw(line: Seq<char>, kw: Seq<char>) -> Option<Seq<char>> {
    if strutil::spec_starts_with(line, kw) {
        Some(line.skip(kw.len() as int))
    } else {
        None
    }
}

/// The optional value encoded on a line: `+value` or `-`.
pub open spec fn spec_parse_opt(v: Seq<char>) -> Option<Option<Seq<char>>> {
    if v.len() > 0 && v[0] == '+' {
        Some(Some(v.drop_first()))
    } else if v == "-"@ {
        Some(None)
    } else {
        None
    }
}

/// The boolean encoded on a line.
pub open spec fn spec_parse_bool(v: Seq<char>) -> Option<bool> {
    if v == "true"@ {
        Some(true)
    } else if v == "false"@ {
        Some(false)
    } else {
        None
    }
}

/// The count encoded on a count line.
pub open spec fn spec_parse_count(v: Seq<char>) -> Option<int> {
    if strutil::is_digits(v) && strutil::digits_val(v) <= u32::MAX as int {
        Some(strutil::digits_val(v))
    } else {
        None
    }
}

/// The repositories parsed from `n` lines starting at `k`.
pub open spec fn spec_parse_repos(lines: Seq<Seq<char>>, k: int, n: int) -> Option<Seq<Seq<char>>>
    decreases n,
{
    if n <= 0 {
        Some(Seq::<Seq<char>>::empty())
    } else if k < 0 || k >= lines.len() {
        None
    } else {
        match spec_take_kw(lines[k], "repository "@) {
            Some(v) => match spec_parse_repos(lines, k + 1, n - 1) {
                Some(rest) => Some(seq![v] + rest),
                None => None,
            },
            None => None,
        }
    }
}

/// The lock row parsed from the seven lines starting at `k`.
pub open spec fn spec_parse_artifact(lines: Seq<Seq<char>>, k: int) -> Option<LockedArtifactView> {
    if k < 0 || k + 7 > lines.len() {
        None
    } else {
        match (
            spec_take_kw(lines[k], "requested "@),
            spec_take_kw(lines[k + 1], "resolved "@),
            spec_take_kw(lines[k + 2], "type "@),
        ) {
            (Some(requested), Some(resolved), Some(artifact_type)) => match (
                spec_take_kw(lines[k + 3], "hash "@),
                spec_take_kw(lines[k + 4], "source "@),
                spec_take_kw(lines[k + 5], "transitive "@),
                spec_take_kw(lines[k + 6], "parent "@),
            ) {
                (Some(h), Some(s), Some(t), Some(p)) => match (
                    spec_parse_opt(h),
                    spec_parse_opt(s),
                    spec_parse_bool(t),
                    spec_parse_opt(p),
                ) {
                    (Some(blake3), Some(source_url), Some(transitive), Some(parent)) => Some(
                        LockedArtifactView {
                            requested,
                            resolved,
                            artifact_type,
                            blake3,
                            source_url,
                            transitive,
                            parent,
                        },
                    ),
                    _ => None,
                },
                _ => None,
            },
            _ => None,
        }
    }
}

/// The lock rows parsed from `7 * m` lines starting at `k`.
pub open spec fn spec_parse_artifacts(lines: Seq<Seq<char>>, k: int, m: int) -> Option<
    Seq<LockedArtifactView>,
>
    decreases m,
{
    if m <= 0 {
        Some(Seq::<LockedArtifactView>::empty())
    } else {
        match spec_parse_artifact(lines, k) {
            Some(a) => match spec_parse_artifacts(lines, k + 7, m - 1) {
                Some(rest) => Some(seq![a] + rest),
                None => None,
            },
            None => None,
        }
    }
}

/// The parse of a whole lock document: the header lines, the counted
/// repository and artifact blocks, and nothing else but the final
/// newline.
pub open spec fn spec_parse_lock(s: Seq<char>) -> Option<VampireLockView> {
    let lines = strutil::spec_split(s, '\n');
    if lines.len() < 5 {
        None
    } else {
        match (
            spec_take_kw(lines[0], "vampire-lock "@),
            spec_take_kw(lines[1], "generated-at "@),
            spec_take_kw(lines[2], "repositories "@),
        ) {
            (Some(version), Some(generated_at), Some(rc)) => match spec_parse_count(rc) {
                Some(nr) => match spec_parse_repos(lines, 3, nr) {
                    Some(repositories) => {
                        let ka = 3 + nr;
                        if ka < lines.len() {
                            match spec_take_kw(lines[ka], "artifacts "@) {
                                Some(ac) => match spec_parse_count(ac) {
                                    Some(na) => match spec_parse_artifacts(lines, ka + 1, na) {
                                        Some(artifacts) => if ka + 1 + 7 * na == lines.len() - 1
                                            && lines[lines.len() - 1] == Seq::<char>::empty() {
                                            Some(
                                                VampireLockView {
                                                    version,
                                                    artifacts,
                                                    metadata: LockMetadataView {
                                                        generated_at,
                                                        repositories,
                                                    },
                                                },
                                            )
                                        } else {
                                            None
                                        },
                                        None => None,
                                    },
                                    None => None,
                                },
                                None => None,
                            }
                        } else {
                            None
                        }
                    },
                    None => None,
                },
                None => None,
            },
            _ => None,
        }
    }
}

/// Strip a required keyword prefix from a line.
fn take_keyword(line: &str, kw: &str) -> (r: Option<String>)
    ensures
        match r {
            Some(v) => spec_take_kw(line@, kw@) == Some(v@),
            None => spec_take_kw(line@, kw@) is None,
        },
{
    if strutil::starts_with(line, kw) {
        let n = line.unicode_len();
        let m = kw.unicode_len();
        let rest = strutil::substring_copy(line, m, n);
        proof {
            assert(line@.subrange(kw@.len() as int, line@.len() as int) =~= line@.skip(
                kw@.len() as int,
            ));
        }
        Some(rest)
    } else {
        None
    }
}

/// Decode an optional value from its `+value` / `-` form.
fn parse_opt_value(v: &str) -> (r: Option<Option<String>>)
    ensures
        match r {
            Some(o) => spec_parse_opt(v@) == Some(o.deep_view()),
            None => spec_parse_opt(v@) is None,
        },
{
    let n = v.unicode_len();
    if n > 0 && v.get_char(0) == '+' {
        let rest = strutil::substring_copy(v, 1, n);
        proof {
            assert(v@.subrange(1, v@.len() as int) =~= v@.drop_first());
        }
        Some(Some(rest))
    } else if strutil::str_eq(v, "-") {
        Some(None)
    } else {
        None
    }
}

/// Decode a boolean line value.
fn parse_bool_value(v: &str) -> (r: Option<bool>)
    ensures
        match r {
            Some(b) => spec_parse_bool(v@) == Some(b),
            None => spec_parse_bool(v@) is None,
        },
{
    if strutil::str_eq(v, "true") {
        Some(true)
    } else if strutil::str_eq(v, "false") {
        Some(false)
    } else {
        None
    }
}

/// Parse one lock row from the seven lines starting at `k`.
fn parse_artifact_lines(lines: &Vec<String>, k: usize) -> (r: Option<LockedArtifact>)
    requires
        k <= lines@.len(),
    ensures
        match r {
            Some(a) => spec_parse_artifact(lines.deep_view(), k as int) == Some(a@),
            None => spec_parse_artifact(lines.deep_view(), k as int) is None,
        },
{
    proof {
        assert(forall|i: int|
            0 <= i < lines@.len() ==> lines.deep_view()[i] == (#[trigger] lines@[i])@);
    }
    if lines.len() - k < 7 {
        return None;
    }
    let requested = match take_keyword(lines[k].as_str(), "requested ") {
        Some(v) => v,
        None => {
            return None;
        },
    };
    let resolved = match take_keyword(lines[k + 1].as_str(), "resolved ") {
        Some(v) => v,
        None => {
            return None;
        },
    };
    let artifact_type = match take_keyword(lines[k + 2].as_str(), "type ") {
        Some(v) => v,
        None => {
            return None;
        },
    };
    let h = match take_keyword(lines[k + 3].as_str(), "hash ") {
        Some(v) => v,
        None => {
            return None;
        },
    };
    let s = match take_keyword(lines[k + 4].as_str(), "source ") {
        Some(v) => v,
        None => {
            return None;
        },
    };
    let t = match take_keyword(lines[k + 5].as_str(), "transitive ") {
        Some(v) => v,
        None => {
            return None;
        },
    };
    let p = match take_keyword(lines[k + 6].as_str(), "parent ") {
        Some(v) => v,
        None => {
            return None;
        },
    };
    let blake3 = match parse_opt_value(h.as_str()) {
        Some(o) => o,
        None => {
            return None;
        },
    };
    let source_url = match parse_opt_value(s.as_str()) {
        Some(o) => o,
        None => {
            return None;
        },
    };
    let transitive = match parse_bool_value(t.as_str()) {
        Some(b) => b,
        None => {
            return None;
        },
    };
    let parent = match parse_opt_value(p.as_str()) {
        Some(o) => o,
        None => {
            return None;
        },
    };
    Some(
        LockedArtifact {
            requested,
            resolved,
            artifact_type,
            blake3,
            source_url,
            transitive,
            parent,
        },
    )
}

/// Parse a lock document, exactly as `spec_parse_lock` describes: the
/// result, when there is one, is the lock the text encodes; text of any
/// other shape parses to nothing.
pub fn lock_from_string(s: &str) -> (r: Option<VampireLock>)
    ensures
        match r {
            Some(l) => spec_parse_lock(s@) == Some(l@),
            None => spec_parse_lock(s@) is None,
        },
{
    let lines = strutil::split_char(s, '\n');
    let ghost glines = lines.deep_view();
    proof {
        assert(glines == strutil::spec_split(s@, '\n'));
        assert(forall|i: int|
            0 <= i < lines@.len() ==> glines[i] == (#[trigger] lines@[i])@);
    }
    if lines.len() < 5 {
        return None;
    }
    let version = match take_keyword(lines[0].as_str(), "vampire-lock ") {
        Some(v) => v,
        None => {
            return None;
        },
    };
    let generated_at = match take_keyword(lines[1].as_str(), "generated-at ") {
        Some(v) => v,
        None => {
            return None;
        },
    };
    let rc = match take_keyword(lines[2].as_str(), "repositories ") {
        Some(v) => v,
        None => {
            return None;
        },
    };
    let nr = match strutil::parse_u32(rc.as_str()) {
        Some(v) => v,
        None => {
            return None;
        },
    };
    let mut repositories: Vec<String> = Vec::new();
    let mut k: usize = 3;
    let mut remaining: u32 = nr;
    proof {
        assert(spec_parse_repos(glines, 3, nr as int) == (match spec_parse_repos(
            glines,
            3,
            nr as int,
        ) {
            Some(rest) => Some(repositories.deep_view() + rest),
            None => None,
        })) by {
            if spec_parse_repos(glines, 3, nr as int) is Some {
                let rest = spec_parse_repos(glines, 3, nr as int)->Some_0;
                assert(repositories.deep_view() + rest =~= rest);
            }
        }
    }
    while remaining > 0
        invariant
            glines == strutil::spec_split(s@, '\n'),
            glines.len() == lines@.len(),
            glines.len() >= 5,
            forall|i: int| 0 <= i < lines@.len() ==> glines[i] == (#[trigger] lines@[i])@,
            spec_take_kw(glines[0], "vampire-lock "@) == Some(version@),
            spec_take_kw(glines[1], "generated-at "@) == Some(generated_at@),
            spec_take_kw(glines[2], "repositories "@) == Some(rc@),
            spec_parse_count(rc@) == Some(nr as int),
            k == 3 + nr - remaining,
            remaining <= nr,
            spec_parse_repos(glines, 3, nr as int) == (match spec_parse_repos(
                glines,
                k as int,
                remaining as int,
            ) {
                Some(rest) => Some(repositories.deep_view() + rest),
                None => None,
            }),
        decreases remaining,
    {
        if k >= lines.len() {
            proof {
                assert(spec_parse_repos(glines, k as int, remaining as int) is None);
                assert(spec_parse_repos(glines, 3, nr as int) is None);
                assert(spec_parse_lock(s@) is None);
            }
            return None;
        }
        let v = match take_keyword(lines[k].as_str(), "repository ") {
            Some(v) => v,
            None => {
                proof {
                    assert(spec_parse_repos(glines, k as int, remaining as int) is None);
                    assert(spec_parse_repos(glines, 3, nr as int) is None);
                    assert(spec_parse_lock(s@) is None);
                }
                return None;
            },
        };
        let ghost prev = repositories.deep_view();
        let ghost gv = v@;
        repositories.push(v);
        proof {
            assert(repositories.deep_view() =~= prev.push(gv));
            if spec_parse_repos(glines, k as int + 1, remaining as int - 1) is Some {
                let rest = spec_parse_repos(glines, k as int + 1, remaining as int - 1)->Some_0;
                assert(spec_parse_repos(glines, k as int, remaining as int) == Some(
                    seq![gv] + rest,
                ));
                assert(prev + (seq![gv] + rest) =~= prev.push(gv) + rest);
            }
        }
        k += 1;
        remaining -= 1;
    }
    proof {
        assert(spec_parse_repos(glines, k as int, 0) == Some(Seq::<Seq<char>>::empty()));
        assert(repositories.deep_view() + Seq::<Seq<char>>::empty() =~= repositories.deep_view());
    }
    if k >= lines.len() {
        return None;
    }
    let ac = match take_keyword(lines[k].as_str(), "artifacts ") {
        Some(v) => v,
        None => {
            return None;
        },
    };
    let na = match strutil::parse_u32(ac.as_str()) {
        Some(v) => v,
        None => {
            return None;
        },
    };
    let ghost ka = k as int;
    let mut artifacts: Vec<LockedArtifact> = Vec::new();
    let mut j: usize = k + 1;
    let mut arts_remaining: u32 = na;
    proof {
        assert(artifacts.deep_view() =~= Seq::<LockedArtifactView>::empty());
        assert(spec_parse_artifacts(glines, ka + 1, na as int) == (match spec_parse_artifacts(
            glines,
            ka + 1,
            na as int,
        ) {
            Some(rest) => Some(artifacts.deep_view() + rest),
            None => None,
        })) by {
            if spec_parse_artifacts(glines, ka + 1, na as int) is Some {
                let rest = spec_parse_artifacts(glines, ka + 1, na as int)->Some_0;
                assert(artifacts.deep_view() + rest =~= rest);
            }
        }
    }
    while arts_remaining > 0
        invariant
            glines == strutil::spec_split(s@, '\n'),
            glines.len() == lines@.len(),
            glines.len() >= 5,
            forall|i: int| 0 <= i < lines@.len() ==> glines[i] == (#[trigger] lines@[i])@,
            spec_take_kw(glines[0], "vampire-lock "@) == Some(version@),
            spec_take_kw(glines[1], "generated-at "@) == Some(generated_at@),
            spec_take_kw(glines[2], "repositories "@) == Some(rc@),
            spec_parse_count(rc@) == Some(nr as int),
            spec_parse_repos(glines, 3, nr as int) == Some(repositories.deep_view()),
            ka == 3 + nr,
            ka < glines.len(),
            spec_take_kw(glines[ka], "artifacts "@) == Some(ac@),
            spec_parse_count(ac@) == Some(na as int),
            j == ka + 1 + 7 * (na - arts_remaining),
            arts_remaining <= na,
            ka + 1 <= j,
            spec_parse_artifacts(glines, ka + 1, na as int) == (match spec_parse_artifacts(
                glines,
                j as int,
                arts_remaining as int,
            ) {
                Some(rest) => Some(artifacts.deep_view() + rest),
                None => None,
            }),
        decreases arts_remaining,
    {
        if lines.len() < j || lines.len() - j < 7 {
            proof {
                assert(spec_parse_artifact(glines, j as int) is None);
                assert(spec_parse_artifacts(glines, j as int, arts_remaining as int) is None);
                assert(spec_parse_artifacts(glines, ka + 1, na as int) is None);
                assert(spec_parse_lock(s@) is None);
            }
            return None;
        }
        let a = match parse_artifact_lines(&lines, j) {
            Some(a) => a,
            None => {
                proof {
                    assert(spec_parse_artifacts(glines, j as int, arts_remaining as int)
                        is None);
                    assert(spec_parse_artifacts(glines, ka + 1, na as int) is None);
                    assert(spec_parse_lock(s@) is None);
                }
                return None;
            },
        };
        let ghost prev = artifacts.deep_view();
        let ghost ga = a@;
        artifacts.push(a);
        proof {
            assert(artifacts.deep_view() =~= prev.push(ga));
            if spec_parse_artifacts(glines, j as int + 7, arts_remaining as int - 1) is Some {
                let rest = spec_parse_artifacts(
                    glines,
                    j as int + 7,
                    arts_remaining as int - 1,
                )->Some_0;
                assert(spec_parse_artifacts(glines, j as int, arts_remaining as int) == Some(
                    seq![ga] + rest,
                ));
                assert(prev + (seq![ga] + rest) =~= prev.push(ga) + rest);
            }
        }
        j += 7;
        arts_remaining -= 1;
    }
    proof {
        assert(spec_parse_artifacts(glines, j as int, 0) == Some(
            Seq::<LockedArtifactView>::empty(),
        ));
        assert(artifacts.deep_view() + Seq::<LockedArtifactView>::empty()
            =~= artifacts.deep_view());
    }
    if !(j == lines.len() - 1) {
        return None;
    }
    if lines[lines.len() - 1].as_str().unicode_len() != 0 {
        proof {
            assert(glines[glines.len() - 1].len() != 0);
            assert(glines[glines.len() - 1] != Seq::<char>::empty());
        }
        return None;
    }
    proof {
        assert(glines[glines.len() - 1] =~= Seq::<char>::empty());
    }
    Some(
        VampireLock {
            version,
            artifacts,
            metadata: LockMetadata { generated_at, repositories },
        },
    )
}

/// Newline-freeness survives concatenation.
proof fn lemma_concat_line_free(a: Seq<char>, b: Seq<char>)
    requires
        line_free(a),
        line_free(b),
    ensures
        line_free(a + b),
{
    assert forall|i: int| 0 <= i < (a + b).len() implies (a + b)[i] != '\n' by {
        if i < a.len() {
            assert((a + b)[i] == a[i]);
            assert(a.contains(a[i]));
        } else {
            assert((a + b)[i] == b[i - a.len()]);
            assert(b.contains(b[i - a.len()]));
        }
    }
    assert(!(a + b).contains('\n')) by {
        if (a + b).contains('\n') {
            let i = choose|i: int| 0 <= i < (a + b).len() && (a + b)[i] == '\n';
        }
    }
}

/// The fixed keyword prefixes and small literals contain no newline.
proof fn lemma_keywords_line_free()
    ensures
        line_free("vampire-lock "@),
        line_free("generated-at "@),
        line_free("repositories "@),
        line_free("repository "@),
        line_free("artifacts "@),
        line_free("requested "@),
        line_free("resolved "@),
        line_free("type "@),
        line_free("hash "@),
        line_free("source "@),
        line_free("transitive "@),
        line_free("parent "@),
        line_free("true"@),
        line_free("false"@),
        line_free("-"@),
{
    reveal_strlit("vampire-lock ");
    reveal_strlit("generated-at ");
    reveal_strlit("repositories ");
    reveal_strlit("repository ");
    reveal_strlit("artifacts ");
    reveal_strlit("requested ");
    reveal_strlit("resolved ");
    reveal_strlit("type ");
    reveal_strlit("hash ");
    reveal_strlit("source ");
    reveal_strlit("transitive ");
    reveal_strlit("parent ");
    reveal_strlit("true");
    reveal_strlit("false");
    reveal_strlit("-");
}

/// The decimal digits of a count contain no newline.
proof fn lemma_digits_line_free(n: int)
    requires
        n >= 0,
    ensures
        line_free(strutil::spec_u32_digits(n)),
{
    strutil::lemma_u32_digits_roundtrip(n);
    let ds = strutil::spec_u32_digits(n);
    assert(!ds.contains('\n')) by {
        if ds.contains('\n') {
            let i = choose|i: int| 0 <= i < ds.len() && ds[i] == '\n';
            assert('0' <= ds[i] <= '9');
        }
    }
}

/// An encoded optional value contains no newline when its content fits on
/// one line.
proof fn lemma_opt_text_line_free(o: Option<Seq<char>>)
    requires
        opt_line_free(o),
    ensures
        line_free(spec_opt_text(o)),
{
    lemma_keywords_line_free();
    match o {
        Some(x) => {
            let v = seq!['+'] + x;
            assert forall|i: int| 0 <= i < v.len() implies v[i] != '\n' by {
                if i == 0 {
                } else {
                    assert(v[i] == x[i - 1]);
                    assert(x.contains(x[i - 1]));
                }
            }
            assert(!v.contains('\n')) by {
                if v.contains('\n') {
                    let i = choose|i: int| 0 <= i < v.len() && v[i] == '\n';
                }
            }
        },
        None => {},
    }
}

/// Splitting rendered lines followed by a newline-free tail gives back the
/// lines plus the tail.
proof fn lemma_lines_split(ls: Seq<Seq<char>>, t: Seq<char>)
    requires
        forall|i: int| 0 <= i < ls.len() ==> line_free(#[trigger] ls[i]),
        line_free(t),
    ensures
        strutil::spec_split(spec_lines_text(ls) + t, '\n') =~= ls.push(t),
    decreases ls.len(),
{
    if ls.len() == 0 {
        assert(spec_lines_text(ls) + t =~= t);
        strutil::lemma_split_single(t, '\n');
        assert(ls.push(t) =~= seq![t]);
    } else {
        let dl = ls.drop_last();
        assert(forall|i: int| 0 <= i < dl.len() ==> line_free(#[trigger] dl[i])) by {
            assert forall|i: int| 0 <= i < dl.len() implies line_free(#[trigger] dl[i]) by {
                assert(dl[i] == ls[i]);
            }
        }
        assert(line_free(ls.last()));
        lemma_lines_split(dl, ls.last());
        strutil::lemma_split_single(t, '\n');
        strutil::lemma_split_concat(spec_lines_text(dl) + ls.last(), t, '\n');
        assert(spec_lines_text(ls) + t =~= (spec_lines_text(dl) + ls.last()) + seq!['\n'] + t);
        assert(strutil::spec_split(spec_lines_text(ls) + t, '\n') =~= strutil::spec_split(
            spec_lines_text(dl) + ls.last(),
            '\n',
        ) + strutil::spec_split(t, '\n'));
        assert(strutil::spec_split(spec_lines_text(dl) + ls.last(), '\n') =~= dl.push(ls.last()));
        assert(dl.push(ls.last()) + seq![t] =~= ls.push(t));
    }
}

/// Stripping a keyword from a line built with that keyword returns the
/// value.
proof fn lemma_take_kw(kw: Seq<char>, v: Seq<char>)
    ensures
        spec_take_kw(kw + v, kw) == Some(v),
{
    assert((kw + v).subrange(0, kw.len() as int) =~= kw);
    assert((kw + v).skip(kw.len() as int) =~= v);
}

/// The repository lines, elementwise.
proof fn lemma_repo_lines_index(rs: Seq<Seq<char>>)
    ensures
        spec_repo_lines(rs).len() == rs.len(),
        forall|i: int|
            0 <= i < rs.len() ==> #[trigger] spec_repo_lines(rs)[i] == "repository "@ + rs[i],
    decreases rs.len(),
{
    if rs.len() > 0 {
        lemma_repo_lines_index(rs.drop_last());
        assert forall|i: int| 0 <= i < rs.len() implies #[trigger] spec_repo_lines(rs)[i]
            == "repository "@ + rs[i] by {
            if i < rs.len() - 1 {
                assert(spec_repo_lines(rs)[i] == spec_repo_lines(rs.drop_last())[i]);
                assert(rs.drop_last()[i] == rs[i]);
            }
        }
    }
}

/// Parsing repository lines built from a list returns the list.
proof fn lemma_parse_repos_of(lines: Seq<Seq<char>>, k: int, rs: Seq<Seq<char>>)
    requires
        0 <= k,
        k + rs.len() <= lines.len(),
        forall|i: int| 0 <= i < rs.len() ==> #[trigger] lines[k + i] == "repository "@ + rs[i],
    ensures
        spec_parse_repos(lines, k, rs.len() as int) == Some(rs),
    decreases rs.len(),
{
    if rs.len() == 0 {
        assert(rs =~= Seq::<Seq<char>>::empty());
    } else {
        assert(lines[k] == "repository "@ + rs[0]) by {
            assert(lines[k + 0] == "repository "@ + rs[0]);
        }
        lemma_take_kw("repository "@, rs[0]);
        let tail = rs.drop_first();
        assert(forall|i: int| 0 <= i < tail.len() ==> #[trigger] lines[k + 1 + i]
            == "repository "@ + tail[i]) by {
            assert forall|i: int| 0 <= i < tail.len() implies #[trigger] lines[k + 1 + i]
                == "repository "@ + tail[i] by {
                assert(tail[i] == rs[i + 1]);
                assert(lines[k + (i + 1)] == "repository "@ + rs[i + 1]);
            }
        }
        lemma_parse_repos_of(lines, k + 1, tail);
        assert(seq![rs[0]] + tail =~= rs);
    }
}

/// Decoding an encoded optional value returns it.
proof fn lemma_parse_opt_text(o: Option<Seq<char>>)
    ensures
        spec_parse_opt(spec_opt_text(o)) == Some(o),
{
    reveal_strlit("-");
    match o {
        Some(x) => {
            let v = seq!['+'] + x;
            assert(v[0] == '+');
            assert(v.drop_first() =~= x);
        },
        None => {
            assert(spec_opt_text(o) == "-"@);
            assert(("-"@).len() == 1);
            assert(("-"@)[0] == '-');
        },
    }
}

/// Decoding an encoded boolean returns it.
proof fn lemma_parse_bool_text(b: bool)
    ensures
        spec_parse_bool(spec_bool_text(b)) == Some(b),
{
    reveal_strlit("true");
    reveal_strlit("false");
    if !b {
        assert(("false"@).len() != ("true"@).len());
        assert(spec_bool_text(b) != "true"@);
    }
}

/// An artifact block has seven lines and each is keyword plus field.
proof fn lemma_parse_artifact_of(lines: Seq<Seq<char>>, k: int, a: LockedArtifactView)
    requires
        0 <= k,
        k + 7 <= lines.len(),
        forall|o: int| 0 <= o < 7 ==> #[trigger] lines[k + o] == spec_artifact_lines(a)[o],
    ensures
        spec_parse_artifact(lines, k) == Some(a),
{
    let al = spec_artifact_lines(a);
    assert(lines[k + 0] == al[0]);
    assert(lines[k + 1] == al[1]);
    assert(lines[k + 2] == al[2]);
    assert(lines[k + 3] == al[3]);
    assert(lines[k + 4] == al[4]);
    assert(lines[k + 5] == al[5]);
    assert(lines[k + 6] == al[6]);
    lemma_take_kw("requested "@, a.requested);
    lemma_take_kw("resolved "@, a.resolved);
    lemma_take_kw("type "@, a.artifact_type);
    lemma_take_kw("hash "@, spec_opt_text(a.blake3));
    lemma_take_kw("source "@, spec_opt_text(a.source_url));
    lemma_take_kw("transitive "@, spec_bool_text(a.transitive));
    lemma_take_kw("parent "@, spec_opt_text(a.parent));
    lemma_parse_opt_text(a.blake3);
    lemma_parse_opt_text(a.source_url);
    lemma_parse_bool_text(a.transitive);
    lemma_parse_opt_text(a.parent);
}

/// The artifact block list unfolds from the front.
proof fn lemma_artifacts_lines_first(arts: Seq<LockedArtifactView>)
    requires
        arts.len() > 0,
    ensures
        spec_artifacts_lines(arts) =~= spec_artifact_lines(arts[0]) + spec_artifacts_lines(
            arts.drop_first(),
        ),
    decreases arts.len(),
{
    if arts.len() == 1 {
        assert(arts.drop_last() =~= Seq::<LockedArtifactView>::empty());
        assert(arts.drop_first() =~= Seq::<LockedArtifactView>::empty());
        assert(arts.last() == arts[0]);
        assert(spec_artifacts_lines(arts) =~= spec_artifact_lines(arts[0]));
        assert(spec_artifact_lines(arts[0]) + spec_artifacts_lines(arts.drop_first())
            =~= spec_artifact_lines(arts[0]));
    } else {
        let dl = arts.drop_last();
        lemma_artifacts_lines_first(dl);
        assert(dl[0] == arts[0]);
        assert(arts.drop_first().drop_last() =~= dl.drop_first());
        assert(arts.drop_first().last() == arts.last());
        assert(spec_artifacts_lines(arts.drop_first()) =~= spec_artifacts_lines(dl.drop_first())
            + spec_artifact_lines(arts.last()));
        assert(spec_artifacts_lines(arts) =~= spec_artifacts_lines(dl) + spec_artifact_lines(
            arts.last(),
        ));
        assert(spec_artifacts_lines(arts) =~= (spec_artifact_lines(arts[0])
            + spec_artifacts_lines(dl.drop_first())) + spec_artifact_lines(arts.last()));
        assert(spec_artifact_lines(arts[0]) + spec_artifacts_lines(arts.drop_first())
            =~= spec_artifact_lines(arts[0]) + (spec_artifacts_lines(dl.drop_first())
            + spec_artifact_lines(arts.last())));
        assert((spec_artifact_lines(arts[0]) + spec_artifacts_lines(dl.drop_first()))
            + spec_artifact_lines(arts.last()) =~= spec_artifact_lines(arts[0]) + (
        spec_artifacts_lines(dl.drop_first()) + spec_artifact_lines(arts.last())));
    }
}

/// The artifact block list has seven lines per artifact.
proof fn lemma_artifacts_lines_len(arts: Seq<LockedArtifactView>)
    ensures
        spec_artifacts_lines(arts).len() == 7 * arts.len(),
    decreases arts.len(),
{
    if arts.len() > 0 {
        lemma_artifacts_lines_len(arts.drop_last());
    }
}

/// Parsing artifact blocks built from a list returns the list.
proof fn lemma_parse_artifacts_of(lines: Seq<Seq<char>>, k: int, arts: Seq<LockedArtifactView>)
    requires
        0 <= k,
        k + 7 * arts.len() <= lines.len(),
        forall|i: int|
            0 <= i < 7 * arts.len() ==> #[trigger] lines[k + i] == spec_artifacts_lines(arts)[i],
    ensures
        spec_parse_artifacts(lines, k, arts.len() as int) == Some(arts),
    decreases arts.len(),
{
    lemma_artifacts_lines_len(arts);
    if arts.len() == 0 {
        assert(arts =~= Seq::<LockedArtifactView>::empty());
    } else {
        lemma_artifacts_lines_first(arts);
        let al = spec_artifact_lines(arts[0]);
        let tail = arts.drop_first();
        lemma_artifacts_lines_len(tail);
        assert(forall|o: int| 0 <= o < 7 ==> #[trigger] lines[k + o] == al[o]) by {
            assert forall|o: int| 0 <= o < 7 implies #[trigger] lines[k + o] == al[o] by {
                assert(lines[k + o] == spec_artifacts_lines(arts)[o]);
                assert(spec_artifacts_lines(arts)[o] == (al + spec_artifacts_lines(tail))[o]);
            }
        }
        lemma_parse_artifact_of(lines, k, arts[0]);
        assert(forall|i: int| 0 <= i < 7 * tail.len() ==> #[trigger] lines[k + 7 + i]
            == spec_artifacts_lines(tail)[i]) by {
            assert forall|i: int| 0 <= i < 7 * tail.len() implies #[trigger] lines[k + 7 + i]
                == spec_artifacts_lines(tail)[i] by {
                assert(lines[k + (7 + i)] == spec_artifacts_lines(arts)[7 + i]);
                assert(spec_artifacts_lines(arts)[7 + i] == (al + spec_artifacts_lines(
                    tail,
                ))[7 + i]);
            }
        }
        lemma_parse_artifacts_of(lines, k + 7, tail);
        assert(seq![arts[0]] + tail =~= arts);
    }
}

/// Every line of an artifact block is newline-free for a well-formed row.
proof fn lemma_artifact_lines_free(a: LockedArtifactView)
    requires
        wf_locked_artifact(a),
    ensures
        forall|o: int|
            0 <= o < 7 ==> line_free(#[trigger] spec_artifact_lines(a)[o]),
{
    lemma_keywords_line_free();
    lemma_opt_text_line_free(a.blake3);
    lemma_opt_text_line_free(a.source_url);
    lemma_opt_text_line_free(a.parent);
    lemma_concat_line_free("requested "@, a.requested);
    lemma_concat_line_free("resolved "@, a.resolved);
    lemma_concat_line_free("type "@, a.artifact_type);
    lemma_concat_line_free("hash "@, spec_opt_text(a.blake3));
    lemma_concat_line_free("source "@, spec_opt_text(a.source_url));
    lemma_concat_line_free("transitive "@, spec_bool_text(a.transitive));
    lemma_concat_line_free("parent "@, spec_opt_text(a.parent));
    assert forall|o: int| 0 <= o < 7 implies line_free(#[trigger] spec_artifact_lines(a)[o]) by {
        let al = spec_artifact_lines(a);
        if o == 0 {
            assert(al[o] == "requested "@ + a.requested);
        } else if o == 1 {
            assert(al[o] == "resolved "@ + a.resolved);
        } else if o == 2 {
            assert(al[o] == "type "@ + a.artifact_type);
        } else if o == 3 {
            assert(al[o] == "hash "@ + spec_opt_text(a.blake3));
        } else if o == 4 {
            assert(al[o] == "source "@ + spec_opt_text(a.source_url));
        } else if o == 5 {
            assert(al[o] == "transitive "@ + spec_bool_text(a.transitive));
        } else {
            assert(al[o] == "parent "@ + spec_opt_text(a.parent));
        }
    }
}

/// Every line of the whole document is newline-free for a well-formed
/// lock.
proof fn lemma_lock_lines_free(l: VampireLockView)
    requires
        wf_lock(l),
    ensures
        forall|i: int| 0 <= i < spec_lock_lines(l).len() ==> line_free(#[trigger] spec_lock_lines(l)[i]),
{
    lemma_keywords_line_free();
    lemma_digits_line_free(l.metadata.repositories.len() as int);
    lemma_digits_line_free(l.artifacts.len() as int);
    lemma_concat_line_free("vampire-lock "@, l.version);
    lemma_concat_line_free("generated-at "@, l.metadata.generated_at);
    lemma_concat_line_free(
        "repositories "@,
        strutil::spec_u32_digits(l.metadata.repositories.len() as int),
    );
    lemma_concat_line_free(
        "artifacts "@,
        strutil::spec_u32_digits(l.artifacts.len() as int),
    );
    lemma_repo_lines_index(l.metadata.repositories);
    lemma_artifacts_lines_len(l.artifacts);
    let lines = spec_lock_lines(l);
    let nr = l.metadata.repositories.len() as int;
    let na = l.artifacts.len() as int;
    assert forall|i: int| 0 <= i < lines.len() implies line_free(#[trigger] lines[i]) by {
        if i < 3 {
            if i == 0 {
                assert(lines[i] == "vampire-lock "@ + l.version);
            } else if i == 1 {
                assert(lines[i] == "generated-at "@ + l.metadata.generated_at);
            } else {
                assert(lines[i] == "repositories "@ + strutil::spec_u32_digits(nr));
            }
        } else if i < 3 + nr {
            assert(lines[i] == spec_repo_lines(l.metadata.repositories)[i - 3]);
            assert(lines[i] == "repository "@ + l.metadata.repositories[i - 3]);
            lemma_concat_line_free("repository "@, l.metadata.repositories[i - 3]);
        } else if i == 3 + nr {
            assert(lines[i] == "artifacts "@ + strutil::spec_u32_digits(na));
        } else {
            let off = i - (3 + nr + 1);
            assert(lines[i] == spec_artifacts_lines(l.artifacts)[off]);
            lemma_artifacts_block_line_free(l.artifacts, off);
        }
    }
}

/// One line of the artifact block region is newline-free.
proof fn lemma_artifacts_block_line_free(arts: Seq<LockedArtifactView>, off: int)
    requires
        forall|j: int| 0 <= j < arts.len() ==> wf_locked_artifact(#[trigger] arts[j]),
        0 <= off < 7 * arts.len(),
    ensures
        line_free(spec_artifacts_lines(arts)[off]),
    decreases arts.len(),
{
    lemma_artifacts_lines_len(arts);
    lemma_artifacts_lines_first(arts);
    let al = spec_artifact_lines(arts[0]);
    let tail = arts.drop_first();
    lemma_artifacts_lines_len(tail);
    if off < 7 {
        lemma_artifact_lines_free(arts[0]);
        assert(spec_artifacts_lines(arts)[off] == (al + spec_artifacts_lines(tail))[off]);
        assert(spec_artifacts_lines(arts)[off] == al[off]);
    } else {
        assert(forall|j: int| 0 <= j < tail.len() ==> wf_locked_artifact(#[trigger] tail[j]))
            by {
            assert forall|j: int| 0 <= j < tail.len() implies wf_locked_artifact(
                #[trigger] tail[j],
            ) by {
                assert(tail[j] == arts[j + 1]);
            }
        }
        lemma_artifacts_block_line_free(tail, off - 7);
        assert(spec_artifacts_lines(arts)[off] == (al + spec_artifacts_lines(tail))[off]);
        assert(spec_artifacts_lines(arts)[off] == spec_artifacts_lines(tail)[off - 7]);
    }
}

/// THE LOCK STORE ROUND-TRIPS: serializing any well-formed lock and
/// parsing the text back yields exactly the same lock. Well-formed means
/// every field fits on one line and the entry counts fit in the count
/// lines.
pub proof fn lemma_lock_round_trip(l: VampireLockView)
    requires
        wf_lock(l),
    ensures
        spec_parse_lock(spec_lock_text(l)) == Some(l),
{
    let lines = spec_lock_lines(l);
    let nr = l.metadata.repositories.len() as int;
    let na = l.artifacts.len() as int;
    lemma_lock_lines_free(l);
    lemma_repo_lines_index(l.metadata.repositories);
    lemma_artifacts_lines_len(l.artifacts);
    assert(lines.len() == 3 + nr + 1 + 7 * na);
    assert(line_free(Seq::<char>::empty())) by {
        if Seq::<char>::empty().contains('\n') {
            let i = choose|i: int| 0 <= i < 0 && Seq::<char>::empty()[i] == '\n';
        }
    }
    assert(spec_lock_text(l) =~= spec_lines_text(lines) + Seq::<char>::empty());
    lemma_lines_split(lines, Seq::<char>::empty());
    let glines = strutil::spec_split(spec_lock_text(l), '\n');
    assert(glines =~= lines.push(Seq::<char>::empty()));
    assert(glines.len() == lines.len() + 1);
    assert(glines.len() >= 5);
    assert(glines[0] == "vampire-lock "@ + l.version);
    assert(glines[1] == "generated-at "@ + l.metadata.generated_at);
    assert(glines[2] == "repositories "@ + strutil::spec_u32_digits(nr));
    lemma_take_kw("vampire-lock "@, l.version);
    lemma_take_kw("generated-at "@, l.metadata.generated_at);
    lemma_take_kw("repositories "@, strutil::spec_u32_digits(nr));
    strutil::lemma_u32_digits_roundtrip(nr);
    strutil::lemma_u32_digits_roundtrip(na);
    assert(spec_parse_count(strutil::spec_u32_digits(nr)) == Some(nr));
    assert(spec_parse_count(strutil::spec_u32_digits(na)) == Some(na));
    assert(forall|i: int| 0 <= i < nr ==> #[trigger] glines[3 + i] == "repository "@
        + l.metadata.repositories[i]) by {
        assert forall|i: int| 0 <= i < nr implies #[trigger] glines[3 + i] == "repository "@
            + l.metadata.repositories[i] by {
            assert(glines[3 + i] == lines[3 + i]);
            assert(lines[3 + i] == spec_repo_lines(l.metadata.repositories)[i]);
        }
    }
    lemma_parse_repos_of(glines, 3, l.metadata.repositories);
    let ka = 3 + nr;
    assert(ka < glines.len());
    assert(glines[ka] == lines[ka]);
    assert(glines[ka] == "artifacts "@ + strutil::spec_u32_digits(na));
    lemma_take_kw("artifacts "@, strutil::spec_u32_digits(na));
    assert(forall|i: int| 0 <= i < 7 * na ==> #[trigger] glines[ka + 1 + i]
        == spec_artifacts_lines(l.artifacts)[i]) by {
        assert forall|i: int| 0 <= i < 7 * na implies #[trigger] glines[ka + 1 + i]
            == spec_artifacts_lines(l.artifacts)[i] by {
            assert(glines[ka + 1 + i] == lines[ka + 1 + i]);
            assert(lines[ka + 1 + i] == spec_artifacts_lines(l.artifacts)[i]);
        }
    }
    lemma_parse_artifacts_of(glines, ka + 1, l.artifacts);
    assert(ka + 1 + 7 * na == glines.len() - 1);
    assert(glines[glines.len() - 1] == Seq::<char>::empty());
    assert(spec_parse_lock(spec_lock_text(l)) == Some(
        VampireLockView {
            version: l.version,
            artifacts: l.artifacts,
            metadata: LockMetadataView {
                generated_at: l.metadata.generated_at,
                repositories: l.metadata.repositories,
            },
        },
    ));
}

/// Whether an optional field fits on one line.
fn opt_single_line(o: &Option<String>) -> (r: bool)
    ensures
        r == opt_line_free(o.deep_view()),
{
    match o {
        Some(v) => !strutil::contains_char(v.as_str(), '\n'),
        None => true,
    }
}

/// Decide whether a lock can be carried by the text form: every field
/// fits on one line and the entry counts fit their count lines. The
/// serializer is exact on every lock, but only a lock passing this check
/// is guaranteed to parse back to itself; a driver should refuse to
/// persist one that does not.
pub fn lock_single_line(l: &VampireLock) -> (r: bool)
    ensures
        r == wf_lock(l@),
{
    if strutil::contains_char(l.version.as_str(), '\n') {
        return false;
    }
    if strutil::contains_char(l.metadata.generated_at.as_str(), '\n') {
        return false;
    }
    if l.metadata.repositories.len() > u32::MAX as usize {
        return false;
    }
    if l.artifacts.len() > u32::MAX as usize {
        return false;
    }
    let mut i: usize = 0;
    while i < l.metadata.repositories.len()
        invariant
            i <= l.metadata.repositories@.len(),
            l@.metadata.repositories.len() == l.metadata.repositories@.len(),
            forall|k: int|
                0 <= k < l.metadata.repositories@.len() ==> l@.metadata.repositories[k] == (
                #[trigger] l.metadata.repositories@[k])@,
            forall|k: int| 0 <= k < i ==> line_free(#[trigger] l@.metadata.repositories[k]),
        decreases l.metadata.repositories@.len() - i,
    {
        if strutil::contains_char(l.metadata.repositories[i].as_str(), '\n') {
            return false;
        }
        i += 1;
    }
    let mut j: usize = 0;
    while j < l.artifacts.len()
        invariant
            j <= l.artifacts@.len(),
            l@.artifacts.len() == l.artifacts@.len(),
            forall|k: int|
                0 <= k < l.artifacts@.len() ==> l@.artifacts[k] == (
                #[trigger] l.artifacts@[k])@,
            forall|k: int| 0 <= k < j ==> wf_locked_artifact(#[trigger] l@.artifacts[k]),
        decreases l.artifacts@.len() - j,
    {
        let a = &l.artifacts[j];
        if strutil::contains_char(a.requested.as_str(), '\n') {
            return false;
        }
        if strutil::contains_char(a.resolved.as_str(), '\n') {
            return false;
        }
        if strutil::contains_char(a.artifact_type.as_str(), '\n') {
            return false;
        }
        if !opt_single_line(&a.blake3) {
            return false;
        }
        if !opt_single_line(&a.source_url) {
            return false;
        }
        if !opt_single_line(&a.parent) {
            return false;
        }
        j += 1;
    }
    true
}

} // verus!
