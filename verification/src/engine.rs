//! The resolution engine: a state machine over one resolution pass.
//!
//! The engine owns every decision — cache acceptance, repository and
//! extension fallback order, the not-found versus hard-failure policy,
//! nearest-wins deduplication, version upgrade and lock recording — and
//! asks a driver to perform the raw transfers through `Action` values,
//! which the driver answers with `Event` values. The walk is depth-first:
//! each dependency completes, children included, before its next sibling.

use vstd::prelude::*;

use crate::archive;
use crate::archive::{AarPlan, ResolvedArtifact};
use crate::coordinate;
use crate::coordinate::{CoordView, MavenCoordinate};
use crate::errors::ResolveError;
use crate::hashing;
use crate::lock;
use crate::lock::{LockMetadata, LockedArtifact, VampireLock};
use crate::strutil;
use crate::version::Version;

verus! {

/// Copy a coordinate, field by field.
pub fn clone_coord(c: &MavenCoordinate) -> (r: MavenCoordinate)
    ensures
        r@ == c@,
{
    MavenCoordinate {
        group_id: c.group_id.clone(),
        artifact_id: c.artifact_id.clone(),
        version: c.version.clone(),
    }
}

/// Copy a vector of strings, keeping every element's characters.
pub fn clone_strings(v: &Vec<String>) -> (r: Vec<String>)
    ensures
        r.deep_view() == v.deep_view(),
{
    let mut out: Vec<String> = Vec::new();
    let mut i: usize = 0;
    while i < v.len()
        invariant
            i <= v.len(),
            out@.len() == i,
            forall|k: int| 0 <= k < i ==> (#[trigger] out@[k])@ == v@[k]@,
        decreases v.len() - i,
    {
        out.push(v[i].clone());
        i += 1;
    }
    proof {
        assert(out.deep_view() =~= v.deep_view());
    }
    out
}

/// The directory an artifact is cached under:
/// `{cache}/{group}/{artifact}/{version}`.
pub open spec fn spec_artifact_dir(cache: Seq<char>, c: CoordView) -> Seq<char> {
    cache + seq!['/'] + c.group + seq!['/'] + c.artifact + seq!['/'] + c.version
}

/// The cached file name for one extension:
/// `{dir}/{artifact}-{version}.{ext}`.
pub open spec fn spec_artifact_file(dir: Seq<char>, c: CoordView, ext: Seq<char>) -> Seq<char> {
    dir + seq!['/'] + c.artifact + seq!['-'] + c.version + seq!['.'] + ext
}

/// Exec form of `spec_artifact_dir`.
pub fn artifact_dir(cache_dir: &str, coord: &MavenCoordinate) -> (r: String)
    ensures
        r@ == spec_artifact_dir(cache_dir@, coord@),
{
    let mut out = strutil::str_to_string(cache_dir);
    strutil::push_char(&mut out, '/');
    strutil::append_str(&mut out, coord.group_id.as_str());
    strutil::push_char(&mut out, '/');
    strutil::append_str(&mut out, coord.artifact_id.as_str());
    strutil::push_char(&mut out, '/');
    strutil::append_str(&mut out, coord.version.as_str());
    proof {
        assert(out@ =~= spec_artifact_dir(cache_dir@, coord@));
    }
    out
}

/// Exec form of `spec_artifact_file`.
pub fn artifact_file(dir: &str, coord: &MavenCoordinate, ext: &str) -> (r: String)
    ensures
        r@ == spec_artifact_file(dir@, coord@, ext@),
{
    let mut out = strutil::str_to_string(dir);
    strutil::push_char(&mut out, '/');
    strutil::append_str(&mut out, coord.artifact_id.as_str());
    strutil::push_char(&mut out, '-');
    strutil::append_str(&mut out, coord.version.as_str());
    strutil::push_char(&mut out, '.');
    strutil::append_str(&mut out, ext);
    proof {
        assert(out@ =~= spec_artifact_file(dir@, coord@, ext@));
    }
    out
}

/// `{repo}/{path}`.
pub open spec fn spec_url(repo: Seq<char>, path: Seq<char>) -> Seq<char> {
    repo + seq!['/'] + path
}

/// Exec form of `spec_url`.
pub fn url_for(repo: &str, path: &str) -> (r: String)
    ensures
        r@ == spec_url(repo@, path@),
{
    archive::join_path(repo, path)
}

/// What the engine asks the driver to do next.
pub enum Action {
    /// Read the cached artifact file, if it exists: answer `FileBytes`.
    ReadArtifactCache { path: String },
    /// Delete a corrupt cached file: answer `Removed`.
    RemoveCorrupt { path: String },
    /// Download a URL to a file and hand back the bytes: answer
    /// `Downloaded`, `NotFound` or `TransportFailed`.
    DownloadArtifact { url: String, path: String },
    /// Read the cached POM as text, if it exists: answer `PomCacheText`.
    ReadPomCache { path: String },
    /// Download a POM to a file and hand back the text: answer
    /// `PomDownloaded`, `NotFound` or `TransportFailed`.
    DownloadPom { url: String, path: String },
    /// Fetch a maven-metadata document as text: answer `MetadataFetched`.
    FetchMetadata { url: String },
    /// Perform the extraction plan under `out_dir`: answer `Extracted`.
    ExtractAar { archive_path: String, out_dir: String, plan: AarPlan },
    /// Resolution succeeded; `lock` is the record to persist.
    Finished { artifacts: Vec<ResolvedArtifact>, lock: VampireLock },
    /// Resolution failed; the whole pass is aborted.
    Fail { error: ResolveError },
}

/// The driver's answer to the engine's last action.
pub enum Event {
    /// The cached artifact's bytes, or nothing when the file is absent or
    /// unreadable.
    FileBytes { bytes: Option<Vec<u8>> },
    /// The corrupt cached file was removed.
    Removed,
    /// The artifact downloaded successfully; these are its bytes.
    Downloaded { bytes: Vec<u8> },
    /// The cached POM's text, or nothing when the file is absent.
    PomCacheText { text: Option<String> },
    /// The POM downloaded successfully; this is its text.
    PomDownloaded { text: String },
    /// The download failed with the not-found class of error.
    NotFound,
    /// The download failed for any other reason.
    TransportFailed { message: String },
    /// The metadata fetch's text, or nothing when this repository failed.
    MetadataFetched { text: Option<String> },
    /// The extraction plan was performed.
    Extracted,
}

/// Work remaining on the depth-first stack.
pub enum Frame {
    /// A requested root coordinate, not yet parsed.
    Root { coord_str: String },
    /// A coordinate to resolve, with the string it was requested as and
    /// whether it entered through transitive resolution.
    Start { coord: MavenCoordinate, requested: String, transitive: bool },
    /// The children of a resolved coordinate, processed left to right;
    /// children are always transitive.
    Children { deps: Vec<MavenCoordinate>, idx: usize },
}

/// What the engine is waiting for.
pub enum Pending {
    /// Not waiting; the stack drives the next action.
    Idle,
    /// Awaiting the artifact cache read for one extension.
    ArtCache { coord: MavenCoordinate, requested: String, transitive: bool, is_aar: bool },
    /// Awaiting removal of a corrupt cached artifact.
    ArtRemove { coord: MavenCoordinate, requested: String, transitive: bool, is_aar: bool },
    /// Awaiting an artifact download from one repository.
    ArtDownload {
        coord: MavenCoordinate,
        requested: String,
        transitive: bool,
        is_aar: bool,
        repo_idx: usize,
    },
    /// Awaiting the driver's extraction of an AAR.
    ArtExtract { coord: MavenCoordinate, artifact: ResolvedArtifact },
    /// Awaiting the POM cache read.
    PomCache { coord: MavenCoordinate },
    /// Awaiting a POM download from one repository.
    PomDownload { coord: MavenCoordinate, repo_idx: usize },
    /// Awaiting a metadata fetch for a child dependency.
    Metadata { dep: MavenCoordinate, requested_version: Version, repo_idx: usize },
    /// The pass ended in `Finished` or `Fail`.
    Done,
}

/// Whether a key occurs among the resolved artifacts.
pub open spec fn resolved_has_key(rs: Seq<ResolvedArtifact>, k: Seq<char>) -> bool {
    exists|i: int|
        0 <= i < rs.len() && coordinate::spec_coord_key((#[trigger] rs[i]).coordinate@) == k
}

/// No two resolved artifacts share a `group:artifact` key.
pub open spec fn resolved_keys_unique(rs: Seq<ResolvedArtifact>) -> bool {
    forall|i: int, j: int|
        0 <= i < j < rs.len() ==> coordinate::spec_coord_key((#[trigger] rs[i]).coordinate@)
            != coordinate::spec_coord_key((#[trigger] rs[j]).coordinate@)
}

/// The lock row recorded for one fetched artifact: the originally
/// requested string, the resolved coordinate, the extension it was
/// fetched under, the content hash of the fetched bytes, the source URL
/// (none for a cache hit), and the transitive flag.
pub open spec fn lock_row_ok(
    row: LockedArtifact,
    requested: Seq<char>,
    c: CoordView,
    is_aar: bool,
    transitive: bool,
    bytes: Seq<u8>,
    source_url: Option<Seq<char>>,
) -> bool {
    &&& row.requested@ == requested
    &&& row.resolved@ == coordinate::spec_coord_str(c)
    &&& row.artifact_type@ == if is_aar {
        "aar"@
    } else {
        "jar"@
    }
    &&& (row.blake3 matches Some(h) && h@ == hashing::blake3_hex(bytes))
    &&& row.source_url.deep_view() == source_url
    &&& row.transitive == transitive
    &&& row.parent is None
}

/// The machine took up a coordinate whose key was never visited: its
/// cached AAR is asked for first (AAR before JAR, cache before network).
pub open spec fn begins_artifact(
    f: Resolution,
    r: Action,
    c: CoordView,
    requested: Seq<char>,
    transitive: bool,
    cache_dir: Seq<char>,
) -> bool {
    &&& (r matches Action::ReadArtifactCache { path } && path@ == spec_artifact_file(
        spec_artifact_dir(cache_dir, c),
        c,
        "aar"@,
    ))
    &&& (f.pending matches Pending::ArtCache { coord, requested: rq, transitive: t, is_aar }
        && coord@ == c && rq@ == requested && t == transitive && is_aar == true)
}

/// Valid artifact bytes were accepted: the lock gains exactly the row
/// for them, and the machine turns to extraction (AAR) or straight to
/// the POM (JAR), recording the resolved artifact.
pub open spec fn accepts_artifact(
    o: Resolution,
    f: Resolution,
    r: Action,
    c: CoordView,
    requested: Seq<char>,
    transitive: bool,
    is_aar: bool,
    bytes: Seq<u8>,
    source_url: Option<Seq<char>>,
) -> bool {
    &&& f.lock_entries@.len() == o.lock_entries@.len() + 1
    &&& (forall|i: int|
        0 <= i < o.lock_entries@.len() ==> f.lock_entries@[i] == o.lock_entries@[i])
    &&& lock_row_ok(
        f.lock_entries@.last(),
        requested,
        c,
        is_aar,
        transitive,
        bytes,
        source_url,
    )
    &&& (is_aar ==> r is ExtractAar && f.resolved@ == o.resolved@)
    &&& (!is_aar ==> (r matches Action::ReadPomCache { path } && path@ == spec_artifact_file(
        spec_artifact_dir(o.cache_dir@, c),
        c,
        "pom"@,
    )) && f.resolved@.len() == o.resolved@.len() + 1 && f.resolved@.last().coordinate@ == c)
}

/// An extracted AAR was recorded: the resolved artifacts gain exactly
/// the pending artifact, and the machine turns to its POM.
pub open spec fn extract_outcome(
    o: Resolution,
    f: Resolution,
    r: Action,
    c: CoordView,
    artifact: ResolvedArtifact,
) -> bool {
    &&& f.resolved@ == o.resolved@.push(artifact)
    &&& (r matches Action::ReadPomCache { path } && path@ == spec_artifact_file(
        spec_artifact_dir(o.cache_dir@, c),
        c,
        "pom"@,
    ))
}

/// A POM's text was taken: a document that does not parse is a `Parse`
/// failure; one that parses queues its filtered dependencies, and any
/// failure later in the same step can only be a malformed root
/// coordinate.
pub open spec fn pom_outcome(r: Action, text: Seq<char>) -> bool {
    match crate::xml::xml_parsed(text) {
        Some(t) => (r is ReadArtifactCache || r is FetchMetadata || r is Finished || r is Fail)
            && (r matches Action::Fail { error } ==> error is CoordinateFormat),
        None => r matches Action::Fail { error } && error is Parse,
    }
}

/// The full-resolution engine for one pass.
pub struct Resolution {
    /// The repository base URLs, in priority order.
    pub repositories: Vec<String>,
    /// The cache directory root.
    pub cache_dir: String,
    /// Depth-first work remaining.
    pub stack: Vec<Frame>,
    /// What the engine awaits.
    pub pending: Pending,
    /// The `group:artifact` keys already visited; first visit wins.
    pub visited: Vec<String>,
    /// The artifacts resolved so far, at most one per key.
    pub resolved: Vec<ResolvedArtifact>,
    /// The lock rows recorded so far, in resolution order.
    pub lock_entries: Vec<LockedArtifact>,
}

impl Resolution {
    /// An in-flight coordinate: already marked visited, not yet resolved.
    pub open spec fn in_flight(self, c: MavenCoordinate) -> bool {
        &&& self.visited.deep_view().contains(coordinate::spec_coord_key(c@))
        &&& !resolved_has_key(self.resolved@, coordinate::spec_coord_key(c@))
    }

    /// Every stack frame is internally consistent.
    pub open spec fn frames_ok(self) -> bool {
        forall|i: int|
            0 <= i < self.stack@.len() ==> match #[trigger] self.stack@[i] {
                Frame::Children { deps, idx, .. } => idx <= deps@.len(),
                _ => true,
            }
    }

    /// The pending state is consistent with the repositories and the
    /// resolved set.
    pub open spec fn pending_ok(self) -> bool {
        match self.pending {
            Pending::Idle => true,
            Pending::ArtCache { coord, .. } => self.in_flight(coord),
            Pending::ArtRemove { coord, .. } => self.in_flight(coord),
            Pending::ArtDownload { coord, repo_idx, .. } => self.in_flight(coord) && repo_idx
                < self.repositories@.len(),
            Pending::ArtExtract { artifact, .. } => self.in_flight(artifact.coordinate),
            Pending::PomCache { .. } => true,
            Pending::PomDownload { repo_idx, .. } => repo_idx < self.repositories@.len(),
            Pending::Metadata { repo_idx, .. } => repo_idx < self.repositories@.len(),
            Pending::Done => true,
        }
    }

    /// The engine's invariant: at least one repository, unique resolved
    /// keys all marked visited, consistent frames and pending state.
    pub open spec fn wf(self) -> bool {
        &&& self.repositories@.len() >= 1
        &&& resolved_keys_unique(self.resolved@)
        &&& forall|i: int|
            0 <= i < self.resolved@.len() ==> self.visited.deep_view().contains(
                coordinate::spec_coord_key((#[trigger] self.resolved@[i]).coordinate@),
            )
        &&& self.frames_ok()
        &&& self.pending_ok()
    }

    /// Which events the engine can take next.
    pub open spec fn accepts(self, e: Event) -> bool {
        match self.pending {
            Pending::ArtCache { .. } => e is FileBytes,
            Pending::ArtRemove { .. } => e is Removed,
            Pending::ArtDownload { .. } => e is Downloaded || e is NotFound
                || e is TransportFailed,
            Pending::ArtExtract { .. } => e is Extracted,
            Pending::PomCache { .. } => e is PomCacheText,
            Pending::PomDownload { .. } => e is PomDownloaded || e is NotFound
                || e is TransportFailed,
            Pending::Metadata { .. } => e is MetadataFetched,
            _ => false,
        }
    }

    /// The action the engine just returned matches what it now awaits.
    pub open spec fn expects(self, r: Action) -> bool {
        match r {
            Action::ReadArtifactCache { .. } => self.pending is ArtCache,
            Action::RemoveCorrupt { .. } => self.pending is ArtRemove,
            Action::DownloadArtifact { .. } => self.pending is ArtDownload,
            Action::ReadPomCache { .. } => self.pending is PomCache,
            Action::DownloadPom { .. } => self.pending is PomDownload,
            Action::FetchMetadata { .. } => self.pending is Metadata,
            Action::ExtractAar { .. } => self.pending is ArtExtract,
            Action::Finished { .. } => self.pending is Done,
            Action::Fail { .. } => self.pending is Done,
        }
    }

    /// The already-recorded results are never rewritten: the new state
    /// extends the old one. This is the first-write-wins guarantee behind
    /// the nearest-wins policy.
    pub open spec fn extends(self, o: Resolution) -> bool {
        &&& o.resolved@.len() <= self.resolved@.len()
        &&& forall|i: int| 0 <= i < o.resolved@.len() ==> self.resolved@[i] == o.resolved@[i]
        &&& o.lock_entries@.len() <= self.lock_entries@.len()
        &&& forall|i: int|
            0 <= i < o.lock_entries@.len() ==> self.lock_entries@[i] == o.lock_entries@[i]
        &&& o.visited@.len() <= self.visited@.len()
        &&& forall|i: int| 0 <= i < o.visited@.len() ==> self.visited@[i] == o.visited@[i]
        &&& self.repositories == o.repositories
        &&& self.cache_dir == o.cache_dir
    }

    /// End the pass with an error.
    fn fail(&mut self, error: ResolveError) -> (r: Action)
        requires
            old(self).wf(),
        ensures
            final(self).wf(),
            final(self).expects(r),
            r matches Action::Fail { error: e } && e == error,
            final(self).extends(*old(self)),
    {
        self.pending = Pending::Done;
        Action::Fail { error }
    }

    /// Mark a coordinate visited and ask for its cached AAR, or skip it
    /// when its key was already visited.
    fn begin_artifact(&mut self, coord: MavenCoordinate, requested: String, transitive: bool)
        -> (r: Option<Action>)
        requires
            old(self).wf(),
            old(self).pending is Idle,
        ensures
            final(self).wf(),
            final(self).extends(*old(self)),
            final(self).stack == old(self).stack,
            final(self).resolved@ == old(self).resolved@,
            final(self).lock_entries@ == old(self).lock_entries@,
            match r {
                Some(a) => final(self).expects(a) && begins_artifact(
                    *final(self),
                    a,
                    coord@,
                    requested@,
                    transitive,
                    old(self).cache_dir@,
                ) && !old(self).visited.deep_view().contains(coordinate::spec_coord_key(coord@)),
                None => final(self).pending is Idle && old(self).visited.deep_view().contains(
                    coordinate::spec_coord_key(coord@),
                ) && final(self).visited@ == old(self).visited@,
            },
    {
        let key = coord.key();
        if strutil::vec_contains_str(&self.visited, key.as_str()) {
            return None;
        }
        let ghost old_visited = self.visited.deep_view();
        self.visited.push(key);
        proof {
            assert(self.visited.deep_view() =~= old_visited.push(
                coordinate::spec_coord_key(coord@),
            ));
            assert(self.visited.deep_view()[old_visited.len() as int]
                == coordinate::spec_coord_key(coord@));
            assert(self.visited.deep_view().contains(coordinate::spec_coord_key(coord@)));
            assert forall|k: Seq<char>| old_visited.contains(k)
                implies self.visited.deep_view().contains(k) by {
                let i = choose|i: int| 0 <= i < old_visited.len() && old_visited[i] == k;
                assert(self.visited.deep_view()[i] == k);
            }
        }
        let dir = artifact_dir(self.cache_dir.as_str(), &coord);
        let path = artifact_file(dir.as_str(), &coord, "aar");
        self.pending = Pending::ArtCache { coord, requested, transitive, is_aar: true };
        Some(Action::ReadArtifactCache { path })
    }

    /// Work through the stack until an outside step is needed or the pass
    /// is complete. An exhausted stack finishes with the resolved
    /// artifacts (at most one per key) and the lock to persist; a
    /// malformed root coordinate on top fails the pass with its string;
    /// an unvisited coordinate on top begins with its cached AAR.
    fn process(&mut self) -> (r: Action)
        requires
            old(self).wf(),
            old(self).pending is Idle,
        ensures
            final(self).wf(),
            final(self).expects(r),
            r is Finished ==> (r matches Action::Finished { artifacts, lock } && artifacts@
                == old(self).resolved@ && lock.artifacts@ == old(self).lock_entries@
                && lock.metadata.repositories.deep_view() == old(self).repositories.deep_view()
                && lock.version@ == "1"@),
            !(r is Finished) ==> final(self).extends(*old(self)),
            final(self).repositories == old(self).repositories,
            final(self).cache_dir == old(self).cache_dir,
            r is ReadArtifactCache || r is FetchMetadata || r is Finished || r is Fail,
            r matches Action::Fail { error } ==> error is CoordinateFormat,
            r matches Action::Finished { artifacts, lock } ==> resolved_keys_unique(artifacts@),
            old(self).stack@.len() == 0 ==> r is Finished,
            old(self).stack@.len() > 0 ==> (match old(self).stack@.last() {
                Frame::Root { coord_str } => (match coordinate::spec_parse_coord(coord_str@) {
                    Some(cv) => !old(self).visited.deep_view().contains(
                        coordinate::spec_coord_key(cv),
                    ) ==> (begins_artifact(
                        *final(self),
                        r,
                        cv,
                        coord_str@,
                        false,
                        old(self).cache_dir@,
                    ) && final(self).stack@ == old(self).stack@.drop_last()),
                    None => (r matches Action::Fail { error } && (
                    error matches ResolveError::CoordinateFormat { coordinate } && coordinate@
                        == coord_str@)),
                }),
                Frame::Start { coord, requested, transitive } => !old(
                    self,
                ).visited.deep_view().contains(coordinate::spec_coord_key(coord@)) ==> (
                begins_artifact(
                    *final(self),
                    r,
                    coord@,
                    requested@,
                    transitive,
                    old(self).cache_dir@,
                ) && final(self).stack@ == old(self).stack@.drop_last()),
                Frame::Children { .. } => true,
            }),
    {
        let ghost mut first: bool = true;
        loop
            invariant
                self.wf(),
                self.pending is Idle,
                self.extends(*old(self)),
                self.resolved@ == old(self).resolved@,
                self.lock_entries@ == old(self).lock_entries@,
                first ==> self.stack@ == old(self).stack@ && self.visited@ == old(self).visited@,
                !first ==> old(self).stack@.len() > 0,
                !first ==> (old(self).stack@.len() > 0 ==> match old(self).stack@.last() {
                    Frame::Root { coord_str } => (match coordinate::spec_parse_coord(coord_str@) {
                        Some(cv) => old(self).visited.deep_view().contains(
                            coordinate::spec_coord_key(cv),
                        ),
                        None => false,
                    }),
                    Frame::Start { coord, .. } => old(self).visited.deep_view().contains(
                        coordinate::spec_coord_key(coord@),
                    ),
                    Frame::Children { .. } => true,
                }),
            decreases stack_weight(self.stack@),
        {
            let ghost pre_stack = self.stack@;
            if self.stack.len() == 0 {
                let mut artifacts: Vec<ResolvedArtifact> = Vec::new();
                core::mem::swap(&mut artifacts, &mut self.resolved);
                let mut lock_artifacts: Vec<LockedArtifact> = Vec::new();
                core::mem::swap(&mut lock_artifacts, &mut self.lock_entries);
                let lock = VampireLock {
                    version: strutil::str_to_string("1"),
                    artifacts: lock_artifacts,
                    metadata: LockMetadata {
                        generated_at: crate::clock::now_rfc3339(),
                        repositories: clone_strings(&self.repositories),
                    },
                };
                self.pending = Pending::Done;
                return Action::Finished { artifacts, lock };
            }
            let frame = match self.stack.pop() {
                Some(f) => f,
                None => {
                    proof {
                        assert(false);
                    }
                    unreached()
                },
            };
            proof {
                assert(self.stack@ =~= pre_stack.drop_last());
                lemma_stack_weight_drop(pre_stack);
            }
            match frame {
                Frame::Root { coord_str } => {
                    let coord = match MavenCoordinate::parse(coord_str.as_str()) {
                        Ok(c) => c,
                        Err(e) => {
                            return self.fail(e);
                        },
                    };
                    if let Some(a) = self.begin_artifact(coord, coord_str, false) {
                        return a;
                    }
                },
                Frame::Start { coord, requested, transitive } => {
                    if let Some(a) = self.begin_artifact(coord, requested, transitive) {
                        return a;
                    }
                },
                Frame::Children { deps, idx } => {
                    if idx < deps.len() {
                        let dep = clone_coord(&deps[idx]);
                        let ghost mid_stack = self.stack@;
                        self.stack.push(Frame::Children { deps, idx: idx + 1 });
                        proof {
                            lemma_stack_weight_push(mid_stack, self.stack@.last());
                        }
                        match Version::parse(dep.version.as_str()) {
                            Some(v) => {
                                let url = url_for(
                                    self.repositories[0].as_str(),
                                    dep.metadata_path().as_str(),
                                );
                                self.pending = Pending::Metadata {
                                    dep,
                                    requested_version: v,
                                    repo_idx: 0,
                                };
                                return Action::FetchMetadata { url };
                            },
                            None => {
                                let requested = dep.to_string();
                                let ghost mid2 = self.stack@;
                                self.stack.push(
                                    Frame::Start { coord: dep, requested, transitive: true },
                                );
                                proof {
                                    lemma_stack_weight_push(mid2, self.stack@.last());
                                }
                            },
                        }
                    }
                },
            }
            proof {
                first = false;
            }
        }
    }

    /// Record a fetched artifact: hash it, add its lock row, and either
    /// hand the driver its extraction plan (AAR) or move on to its POM.
    fn on_artifact(
        &mut self,
        coord: MavenCoordinate,
        requested: String,
        transitive: bool,
        is_aar: bool,
        bytes: Vec<u8>,
        source_url: Option<String>,
    ) -> (r: Action)
        requires
            old(self).wf(),
            old(self).pending is Idle,
            old(self).in_flight(coord),
            archive::spec_zip_valid(bytes@),
        ensures
            final(self).wf(),
            final(self).expects(r),
            !(r is Finished),
            accepts_artifact(
                *old(self),
                *final(self),
                r,
                coord@,
                requested@,
                transitive,
                is_aar,
                bytes@,
                source_url.deep_view(),
            ),
            forall|i: int|
                0 <= i < old(self).resolved@.len() ==> final(self).resolved@[i] == old(
                    self,
                ).resolved@[i],
            old(self).resolved@.len() <= final(self).resolved@.len(),
            final(self).visited@ == old(self).visited@,
            final(self).stack@ == old(self).stack@,
            final(self).repositories == old(self).repositories,
            final(self).cache_dir == old(self).cache_dir,
    {
        let type_str = if is_aar {
            "aar"
        } else {
            "jar"
        };
        let hash = hashing::blake3_hash_hex(bytes.as_slice());
        let entry = LockedArtifact {
            requested,
            resolved: coord.to_string(),
            artifact_type: strutil::str_to_string(type_str),
            blake3: Some(hash),
            source_url,
            transitive,
            parent: None,
        };
        self.lock_entries.push(entry);
        let dir = artifact_dir(self.cache_dir.as_str(), &coord);
        if is_aar {
            let entries = match archive::zip_entry_names(bytes.as_slice()) {
                Some(e) => e,
                None => {
                    proof {
                        assert(false);
                    }
                    unreached()
                },
            };
            let plan = archive::plan_aar_extraction(&entries, dir.as_str());
            let package_name = if plan.has_manifest {
                match archive::zip_entry_bytes(bytes.as_slice(), "AndroidManifest.xml") {
                    Some(mb) => match archive::string_from_utf8(mb) {
                        Some(text) => archive::manifest_package_name(text.as_str()),
                        None => None,
                    },
                    None => None,
                }
            } else {
                None
            };
            let native_libs = clone_string_pairs(&plan.native_libs);
            let manifest_path = if plan.has_manifest {
                Some(archive::join_path(dir.as_str(), "AndroidManifest.xml"))
            } else {
                None
            };
            let res_dir = if plan.has_res {
                Some(archive::join_path(dir.as_str(), "res"))
            } else {
                None
            };
            let r_txt_path = if plan.has_r_txt {
                Some(archive::join_path(dir.as_str(), "R.txt"))
            } else {
                None
            };
            let artifact = ResolvedArtifact {
                coordinate: clone_coord(&coord),
                jar_path: archive::join_path(dir.as_str(), "classes.jar"),
                is_aar: true,
                native_libs,
                manifest_path,
                res_dir,
                r_txt_path,
                package_name,
            };
            let archive_path = artifact_file(dir.as_str(), &coord, "aar");
            self.pending = Pending::ArtExtract { coord, artifact };
            Action::ExtractAar { archive_path, out_dir: dir, plan }
        } else {
            let artifact = ResolvedArtifact {
                coordinate: clone_coord(&coord),
                jar_path: artifact_file(dir.as_str(), &coord, "jar"),
                is_aar: false,
                native_libs: Vec::new(),
                manifest_path: None,
                res_dir: None,
                r_txt_path: None,
                package_name: None,
            };
            self.push_resolved(artifact);
            let path = artifact_file(dir.as_str(), &coord, "pom");
            self.pending = Pending::PomCache { coord };
            Action::ReadPomCache { path }
        }
    }

    /// Append a resolved artifact whose key is in flight.
    fn push_resolved(&mut self, artifact: ResolvedArtifact)
        requires
            old(self).wf(),
            old(self).pending is Idle,
            old(self).in_flight(artifact.coordinate),
        ensures
            final(self).wf(),
            final(self).pending is Idle,
            final(self).resolved@ == old(self).resolved@.push(artifact),
            final(self).visited@ == old(self).visited@,
            final(self).lock_entries@ == old(self).lock_entries@,
            final(self).stack@ == old(self).stack@,
            final(self).repositories == old(self).repositories,
            final(self).cache_dir == old(self).cache_dir,
    {
        let ghost k = coordinate::spec_coord_key(artifact.coordinate@);
        let ghost old_rs = self.resolved@;
        self.resolved.push(artifact);
        proof {
            assert forall|i: int, j: int| 0 <= i < j < self.resolved@.len()
                implies coordinate::spec_coord_key((#[trigger] self.resolved@[i]).coordinate@)
                != coordinate::spec_coord_key((#[trigger] self.resolved@[j]).coordinate@) by {
                if j < old_rs.len() {
                    assert(self.resolved@[i] == old_rs[i]);
                    assert(self.resolved@[j] == old_rs[j]);
                } else {
                    assert(self.resolved@[i] == old_rs[i]);
                    assert(coordinate::spec_coord_key(self.resolved@[j].coordinate@) == k);
                    if coordinate::spec_coord_key(old_rs[i].coordinate@) == k {
                        assert(resolved_has_key(old_rs, k));
                    }
                }
            }
        }
    }

    /// Handle the POM text of the coordinate just resolved: parse its
    /// dependencies and queue them for resolution at the next depth.
    fn on_pom(&mut self, coord: MavenCoordinate, text: String) -> (r: Action)
        requires
            old(self).wf(),
            old(self).pending is Idle,
        ensures
            final(self).wf(),
            final(self).expects(r),
            !(r is Finished) ==> final(self).extends(*old(self)),
            r is Finished ==> (r matches Action::Finished { artifacts, lock } && artifacts@
                == old(self).resolved@ && lock.artifacts@ == old(self).lock_entries@),
            pom_outcome(r, text@),
            r matches Action::Finished { artifacts, lock } ==> resolved_keys_unique(artifacts@),
            final(self).repositories == old(self).repositories,
            final(self).cache_dir == old(self).cache_dir,
    {
        let deps = match crate::pom::parse_pom_dependencies(text.as_str(), &coord) {
            Ok(d) => d,
            Err(e) => {
                return self.fail(e);
            },
        };
        let ghost mid = self.stack@;
        self.stack.push(Frame::Children { deps, idx: 0 });
        self.process()
    }

    /// Take one driver event and return the next action.
    ///
    /// The recorded results only ever grow — an artifact resolved earlier
    /// is never replaced by a later, deeper occurrence of the same
    /// `group:artifact` key — and the resolved set keeps at most one entry
    /// per key.
    pub fn step(&mut self, event: Event) -> (r: Action)
        requires
            old(self).wf(),
            old(self).accepts(event),
        ensures
            final(self).wf(),
            final(self).expects(r),
            !(r is Finished) ==> final(self).extends(*old(self)),
            r is Finished ==> (r matches Action::Finished { artifacts, lock } && (forall|i: int|
                0 <= i < old(self).resolved@.len() ==> artifacts@[i] == old(self).resolved@[i])
                && artifacts@.len() >= old(self).resolved@.len()),
            r matches Action::Finished { artifacts, lock } ==> resolved_keys_unique(artifacts@),
            (match (old(self).pending, event) {
                (
                    Pending::ArtCache { coord, requested, transitive, is_aar },
                    Event::FileBytes { bytes },
                ) => match bytes {
                    Some(b) => if b@.len() > 0 && archive::spec_zip_valid(b@) {
                        accepts_artifact(
                            *old(self),
                            *final(self),
                            r,
                            coord@,
                            requested@,
                            transitive,
                            is_aar,
                            b@,
                            None,
                        )
                    } else {
                        r is RemoveCorrupt
                    },
                    None => r matches Action::DownloadArtifact { url, .. } && url@ == spec_url(
                        old(self).repositories@[0]@,
                        coordinate::spec_coord_path(
                            coord@,
                            if is_aar {
                                "aar"@
                            } else {
                                "jar"@
                            },
                        ),
                    ),
                },
                (
                    Pending::ArtDownload { coord, requested, transitive, is_aar, repo_idx },
                    Event::Downloaded { bytes },
                ) => if !archive::spec_zip_valid(bytes@) {
                    r matches Action::Fail { error } && error is CorruptArchive
                } else {
                    accepts_artifact(
                        *old(self),
                        *final(self),
                        r,
                        coord@,
                        requested@,
                        transitive,
                        is_aar,
                        bytes@,
                        Some(
                            spec_url(
                                old(self).repositories@[repo_idx as int]@,
                                coordinate::spec_coord_path(
                                    coord@,
                                    if is_aar {
                                        "aar"@
                                    } else {
                                        "jar"@
                                    },
                                ),
                            ),
                        ),
                    )
                },
                (Pending::ArtDownload { coord, is_aar, repo_idx, .. }, Event::NotFound) => if repo_idx
                    + 1 < old(self).repositories@.len() {
                    r matches Action::DownloadArtifact { url, .. } && url@ == spec_url(
                        old(self).repositories@[repo_idx + 1]@,
                        coordinate::spec_coord_path(
                            coord@,
                            if is_aar {
                                "aar"@
                            } else {
                                "jar"@
                            },
                        ),
                    )
                } else if is_aar {
                    r matches Action::ReadArtifactCache { path } && path@ == spec_artifact_file(
                        spec_artifact_dir(old(self).cache_dir@, coord@),
                        coord@,
                        "jar"@,
                    )
                } else {
                    r matches Action::Fail { error } && (
                    error matches ResolveError::NotFound { what } && what@
                        == coordinate::spec_coord_str(coord@))
                },
                (Pending::ArtDownload { .. }, Event::TransportFailed { message }) => (
                r matches Action::Fail { error } && (error matches ResolveError::Transport {
                    message: m,
                } && m == message)),
                (Pending::PomDownload { .. }, Event::TransportFailed { message }) => (
                r matches Action::Fail { error } && (error matches ResolveError::Transport {
                    message: m,
                } && m == message)),
                (Pending::ArtExtract { coord, artifact }, Event::Extracted) => extract_outcome(
                    *old(self),
                    *final(self),
                    r,
                    coord@,
                    artifact,
                ),
                (Pending::PomCache { coord }, Event::PomCacheText { text }) => match text {
                    Some(t) => pom_outcome(r, t@),
                    None => r matches Action::DownloadPom { url, .. } && url@ == spec_url(
                        old(self).repositories@[0]@,
                        coordinate::spec_coord_path(coord@, "pom"@),
                    ),
                },
                (Pending::PomDownload { .. }, Event::PomDownloaded { text }) => pom_outcome(
                    r,
                    text@,
                ),
                (Pending::PomDownload { coord, repo_idx }, Event::NotFound) => if repo_idx + 1
                    < old(self).repositories@.len() {
                    r matches Action::DownloadPom { url, .. } && url@ == spec_url(
                        old(self).repositories@[repo_idx + 1]@,
                        coordinate::spec_coord_path(coord@, "pom"@),
                    )
                } else {
                    r matches Action::Fail { error } && (
                    error matches ResolveError::NotFound { what } && what@ == "POM for "@
                        + coordinate::spec_coord_str(coord@))
                },
                (
                    Pending::Metadata { dep, requested_version, repo_idx },
                    Event::MetadataFetched { text },
                ) => match text {
                    Some(t) => ({
                        let best = crate::version::spec_select_best(
                            requested_version,
                            dep.version@,
                            crate::pom::spec_metadata_versions(crate::xml::xml_parsed(t@)),
                        ).0;
                        let up = CoordView {
                            group: dep.group_id@,
                            artifact: dep.artifact_id@,
                            version: best,
                        };
                        !old(self).visited.deep_view().contains(coordinate::spec_coord_key(up))
                            ==> begins_artifact(
                            *final(self),
                            r,
                            up,
                            coordinate::spec_coord_str(dep@),
                            true,
                            old(self).cache_dir@,
                        )
                    }),
                    None => if repo_idx + 1 < old(self).repositories@.len() {
                        r matches Action::FetchMetadata { url } && url@ == spec_url(
                            old(self).repositories@[repo_idx + 1]@,
                            coordinate::spec_metadata_path(dep@),
                        )
                    } else {
                        !old(self).visited.deep_view().contains(
                            coordinate::spec_coord_key(dep@),
                        ) ==> begins_artifact(
                            *final(self),
                            r,
                            dep@,
                            coordinate::spec_coord_str(dep@),
                            true,
                            old(self).cache_dir@,
                        )
                    },
                },
                _ => true,
            }),
            final(self).repositories == old(self).repositories,
            final(self).cache_dir == old(self).cache_dir,
    {
        let mut pending = Pending::Idle;
        core::mem::swap(&mut pending, &mut self.pending);
        match pending {
            Pending::ArtCache { coord, requested, transitive, is_aar } => {
                let bytes = match event {
                    Event::FileBytes { bytes } => bytes,
                    _ => {
                        proof {
                            assert(false);
                        }
                        unreached()
                    },
                };
                let ext = if is_aar {
                    "aar"
                } else {
                    "jar"
                };
                match bytes {
                    Some(b) => {
                        if b.len() > 0 && archive::zip_valid(b.as_slice()) {
                            self.on_artifact(coord, requested, transitive, is_aar, b, None)
                        } else {
                            let dir = artifact_dir(self.cache_dir.as_str(), &coord);
                            let path = artifact_file(dir.as_str(), &coord, ext);
                            self.pending = Pending::ArtRemove {
                                coord,
                                requested,
                                transitive,
                                is_aar,
                            };
                            Action::RemoveCorrupt { path }
                        }
                    },
                    None => {
                        let dir = artifact_dir(self.cache_dir.as_str(), &coord);
                        let path = artifact_file(dir.as_str(), &coord, ext);
                        let url = url_for(
                            self.repositories[0].as_str(),
                            coord.to_path(ext).as_str(),
                        );
                        self.pending = Pending::ArtDownload {
                            coord,
                            requested,
                            transitive,
                            is_aar,
                            repo_idx: 0,
                        };
                        Action::DownloadArtifact { url, path }
                    },
                }
            },
            Pending::ArtRemove { coord, requested, transitive, is_aar } => {
                let ext = if is_aar {
                    "aar"
                } else {
                    "jar"
                };
                let dir = artifact_dir(self.cache_dir.as_str(), &coord);
                let path = artifact_file(dir.as_str(), &coord, ext);
                let url = url_for(self.repositories[0].as_str(), coord.to_path(ext).as_str());
                self.pending = Pending::ArtDownload {
                    coord,
                    requested,
                    transitive,
                    is_aar,
                    repo_idx: 0,
                };
                Action::DownloadArtifact { url, path }
            },
            Pending::ArtDownload { coord, requested, transitive, is_aar, repo_idx } => {
                let ext = if is_aar {
                    "aar"
                } else {
                    "jar"
                };
                match event {
                    Event::Downloaded { bytes } => {
                        if !archive::zip_valid(bytes.as_slice()) {
                            let what = coord.to_string();
                            self.fail(ResolveError::CorruptArchive { what })
                        } else {
                            let url = url_for(
                                self.repositories[repo_idx].as_str(),
                                coord.to_path(ext).as_str(),
                            );
                            self.on_artifact(coord, requested, transitive, is_aar, bytes, Some(url))
                        }
                    },
                    Event::NotFound => {
                        let n = self.repositories.len();
                        if repo_idx < n - 1 {
                            let dir = artifact_dir(self.cache_dir.as_str(), &coord);
                            let path = artifact_file(dir.as_str(), &coord, ext);
                            let url = url_for(
                                self.repositories[repo_idx + 1].as_str(),
                                coord.to_path(ext).as_str(),
                            );
                            self.pending = Pending::ArtDownload {
                                coord,
                                requested,
                                transitive,
                                is_aar,
                                repo_idx: repo_idx + 1,
                            };
                            Action::DownloadArtifact { url, path }
                        } else if is_aar {
                            let dir = artifact_dir(self.cache_dir.as_str(), &coord);
                            let path = artifact_file(dir.as_str(), &coord, "jar");
                            self.pending = Pending::ArtCache {
                                coord,
                                requested,
                                transitive,
                                is_aar: false,
                            };
                            Action::ReadArtifactCache { path }
                        } else {
                            let what = coord.to_string();
                            self.fail(ResolveError::NotFound { what })
                        }
                    },
                    Event::TransportFailed { message } => {
                        self.fail(ResolveError::Transport { message })
                    },
                    _ => {
                        proof {
                            assert(false);
                        }
                        unreached()
                    },
                }
            },
            Pending::ArtExtract { coord, artifact } => {
                self.push_resolved(artifact);
                let dir = artifact_dir(self.cache_dir.as_str(), &coord);
                let path = artifact_file(dir.as_str(), &coord, "pom");
                self.pending = Pending::PomCache { coord };
                Action::ReadPomCache { path }
            },
            Pending::PomCache { coord } => {
                let text = match event {
                    Event::PomCacheText { text } => text,
                    _ => {
                        proof {
                            assert(false);
                        }
                        unreached()
                    },
                };
                match text {
                    Some(t) => self.on_pom(coord, t),
                    None => {
                        let dir = artifact_dir(self.cache_dir.as_str(), &coord);
                        let path = artifact_file(dir.as_str(), &coord, "pom");
                        let url = url_for(
                            self.repositories[0].as_str(),
                            coord.to_path("pom").as_str(),
                        );
                        self.pending = Pending::PomDownload { coord, repo_idx: 0 };
                        Action::DownloadPom { url, path }
                    },
                }
            },
            Pending::PomDownload { coord, repo_idx } => {
                match event {
                    Event::PomDownloaded { text } => self.on_pom(coord, text),
                    Event::NotFound => {
                        let n = self.repositories.len();
                        if repo_idx < n - 1 {
                            let dir = artifact_dir(self.cache_dir.as_str(), &coord);
                            let path = artifact_file(dir.as_str(), &coord, "pom");
                            let url = url_for(
                                self.repositories[repo_idx + 1].as_str(),
                                coord.to_path("pom").as_str(),
                            );
                            self.pending = Pending::PomDownload {
                                coord,
                                repo_idx: repo_idx + 1,
                            };
                            Action::DownloadPom { url, path }
                        } else {
                            let mut what = strutil::str_to_string("POM for ");
                            let c = coord.to_string();
                            strutil::append_str(&mut what, c.as_str());
                            self.fail(ResolveError::NotFound { what })
                        }
                    },
                    Event::TransportFailed { message } => {
                        self.fail(ResolveError::Transport { message })
                    },
                    _ => {
                        proof {
                            assert(false);
                        }
                        unreached()
                    },
                }
            },
            Pending::Metadata { dep, requested_version, repo_idx } => {
                let text = match event {
                    Event::MetadataFetched { text } => text,
                    _ => {
                        proof {
                            assert(false);
                        }
                        unreached()
                    },
                };
                match text {
                    Some(t) => {
                        let versions = crate::pom::parse_versions_from_metadata(t.as_str());
                        let best = crate::version::select_best_version(
                            &requested_version,
                            dep.version.as_str(),
                            &versions,
                        );
                        let upgraded = MavenCoordinate {
                            group_id: dep.group_id.clone(),
                            artifact_id: dep.artifact_id.clone(),
                            version: best,
                        };
                        let requested = dep.to_string();
                        let ghost mid = self.stack@;
                        self.stack.push(
                            Frame::Start { coord: upgraded, requested, transitive: true },
                        );
                        self.process()
                    },
                    None => {
                        let n = self.repositories.len();
                        if repo_idx < n - 1 {
                            let url = url_for(
                                self.repositories[repo_idx + 1].as_str(),
                                dep.metadata_path().as_str(),
                            );
                            self.pending = Pending::Metadata {
                                dep,
                                requested_version,
                                repo_idx: repo_idx + 1,
                            };
                            Action::FetchMetadata { url }
                        } else {
                            let requested = dep.to_string();
                            let ghost mid = self.stack@;
                            self.stack.push(
                                Frame::Start { coord: dep, requested, transitive: true },
                            );
                            self.process()
                        }
                    },
                }
            },
            _ => {
                proof {
                    assert(false);
                }
                unreached()
            },
        }
    }
}

/// Copy a vector of string pairs, keeping every element's characters.
pub fn clone_string_pairs(v: &Vec<(String, String)>) -> (r: Vec<(String, String)>)
    ensures
        r@.len() == v@.len(),
        forall|i: int|
            0 <= i < v@.len() ==> (#[trigger] r@[i]).0@ == v@[i].0@ && r@[i].1@ == v@[i].1@,
{
    let mut out: Vec<(String, String)> = Vec::new();
    let mut i: usize = 0;
    while i < v.len()
        invariant
            i <= v.len(),
            out@.len() == i,
            forall|k: int|
                0 <= k < i ==> (#[trigger] out@[k]).0@ == v@[k].0@ && out@[k].1@ == v@[k].1@,
        decreases v.len() - i,
    {
        let a = v[i].0.clone();
        let b = v[i].1.clone();
        out.push((a, b));
        i += 1;
    }
    out
}

/// The termination measure of one frame: the work it can still spawn
/// before the next outside step.
pub open spec fn frame_weight(f: Frame) -> nat {
    match f {
        Frame::Root { .. } => 1,
        Frame::Start { .. } => 1,
        Frame::Children { deps, idx, .. } => if idx <= deps@.len() {
            (1 + 2 * (deps@.len() - idx)) as nat
        } else {
            1
        },
    }
}

/// The termination measure of the whole stack.
pub open spec fn stack_weight(s: Seq<Frame>) -> nat
    decreases s.len(),
{
    if s.len() == 0 {
        0
    } else {
        stack_weight(s.drop_last()) + frame_weight(s.last())
    }
}

/// Popping removes the last frame's weight.
pub proof fn lemma_stack_weight_drop(s: Seq<Frame>)
    requires
        s.len() > 0,
    ensures
        stack_weight(s.drop_last()) == stack_weight(s) - frame_weight(s.last()),
{
}

/// Pushing adds the new frame's weight.
pub proof fn lemma_stack_weight_push(s: Seq<Frame>, f: Frame)
    ensures
        stack_weight(s.push(f)) == stack_weight(s) + frame_weight(f),
{
    assert(s.push(f).drop_last() =~= s);
    assert(s.push(f).last() == f);
}

/// How a resolution pass should proceed, given the current lock.
pub enum ResolutionPlan {
    /// The lock matches the request set: fetch and verify its artifacts,
    /// skipping graph recursion entirely.
    UseLock,
    /// No lock, a stale lock, or a forced update: resolve from scratch and
    /// overwrite the lock.
    FullResolution,
}

/// The resolver's configuration: the fixed repository order, the cache
/// root, and where the lock file lives, when one is used.
pub struct MavenResolver {
    pub cache_dir: String,
    pub repositories: Vec<String>,
    pub lock_file_path: Option<String>,
}

impl MavenResolver {
    /// A resolver over the two default repositories, caching under
    /// `cache_dir`, with no lock file.
    pub fn new(cache_dir: String) -> (r: MavenResolver)
        ensures
            r.repositories.deep_view() == seq![
                "https://dl.google.com/dl/android/maven2"@,
                "https://repo.maven.apache.org/maven2"@,
            ],
            r.cache_dir == cache_dir,
            r.lock_file_path is None,
    {
        let mut repositories: Vec<String> = Vec::new();
        repositories.push(strutil::str_to_string("https://dl.google.com/dl/android/maven2"));
        repositories.push(strutil::str_to_string("https://repo.maven.apache.org/maven2"));
        proof {
            assert(repositories.deep_view() =~= seq![
                "https://dl.google.com/dl/android/maven2"@,
                "https://repo.maven.apache.org/maven2"@,
            ]);
        }
        MavenResolver { cache_dir, repositories, lock_file_path: None }
    }

    /// The same resolver, writing and reading its lock at the given path.
    pub fn with_lock_file(self, lock_file_path: String) -> (r: MavenResolver)
        ensures
            r.cache_dir == self.cache_dir,
            r.repositories == self.repositories,
            r.lock_file_path matches Some(p) && p == lock_file_path,
    {
        MavenResolver {
            cache_dir: self.cache_dir,
            repositories: self.repositories,
            lock_file_path: Some(lock_file_path),
        }
    }

    /// Decide between the lock path and a full resolution: the lock is
    /// used exactly when one is present, no update is forced, and its
    /// direct dependency set matches the request set by `group:artifact`
    /// key.
    pub fn plan_resolution(
        &self,
        lock: Option<&VampireLock>,
        coordinates: &Vec<String>,
        force_update: bool,
    ) -> (r: Result<ResolutionPlan, ResolveError>)
        ensures
            match lock {
                Some(l) => match (
                    lock::spec_keys_opt(coordinates.deep_view()),
                    lock::spec_keys_opt(lock::spec_direct_requested(l@.artifacts)),
                ) {
                    (Some(a), Some(b)) => r matches Ok(p) && ((p is UseLock) <==> (!force_update
                        && a == b)),
                    _ => if force_update {
                        r matches Ok(p) && p is FullResolution
                    } else {
                        r matches Err(e) && e is CoordinateFormat
                    },
                },
                None => r matches Ok(p) && p is FullResolution,
            },
    {
        if force_update {
            return Ok(ResolutionPlan::FullResolution);
        }
        match lock {
            Some(l) => {
                let valid = match l.validate_lock(coordinates) {
                    Ok(v) => v,
                    Err(e) => {
                        return Err(e);
                    },
                };
                if valid {
                    Ok(ResolutionPlan::UseLock)
                } else {
                    Ok(ResolutionPlan::FullResolution)
                }
            },
            None => Ok(ResolutionPlan::FullResolution),
        }
    }

    /// Begin a full resolution of the given coordinate strings, in order.
    /// Returns the engine and its first action: done at once for an empty
    /// request list, otherwise the first coordinate's cached AAR is asked
    /// for, or its malformed string fails the pass.
    pub fn start_resolution(&self, coordinates: &Vec<String>) -> (r: (Resolution, Action))
        requires
            self.repositories@.len() >= 1,
        ensures
            r.0.wf(),
            r.0.expects(r.1),
            r.0.repositories.deep_view() == self.repositories.deep_view(),
            r.0.cache_dir@ == self.cache_dir@,
            coordinates@.len() == 0 ==> (r.1 matches Action::Finished { artifacts, lock }
                && artifacts@.len() == 0 && lock.artifacts@.len() == 0),
            coordinates@.len() > 0 ==> (match coordinate::spec_parse_coord(coordinates@[0]@) {
                Some(cv) => begins_artifact(
                    r.0,
                    r.1,
                    cv,
                    coordinates@[0]@,
                    false,
                    self.cache_dir@,
                ) && r.0.stack@.len() == coordinates@.len() - 1,
                None => r.1 matches Action::Fail { error } && (
                error matches ResolveError::CoordinateFormat { coordinate } && coordinate@
                    == coordinates@[0]@),
            }),
    {
        let mut stack: Vec<Frame> = Vec::new();
        let mut i: usize = coordinates.len();
        while i > 0
            invariant
                i <= coordinates.len(),
                stack@.len() == coordinates@.len() - i,
                forall|k: int|
                    0 <= k < stack@.len() ==> (#[trigger] stack@[k] matches Frame::Root {
                        coord_str,
                    } && coord_str@ == coordinates@[coordinates@.len() - 1 - k]@),
            decreases i,
        {
            i -= 1;
            stack.push(Frame::Root { coord_str: coordinates[i].clone() });
        }
        let mut resolution = Resolution {
            repositories: clone_strings(&self.repositories),
            cache_dir: self.cache_dir.clone(),
            stack,
            pending: Pending::Idle,
            visited: Vec::new(),
            resolved: Vec::new(),
            lock_entries: Vec::new(),
        };
        proof {
            assert(resolution.frames_ok()) by {
                assert forall|k: int| 0 <= k < resolution.stack@.len() implies match #[trigger] resolution.stack@[k] {
                    Frame::Children { deps, idx, .. } => idx <= deps@.len(),
                    _ => true,
                } by {
                    assert(resolution.stack@[k] matches Frame::Root { .. });
                }
            }
            assert(resolution.repositories@.len() == resolution.repositories.deep_view().len());
            assert(resolution.repositories.deep_view().len() == self.repositories.deep_view().len());
            assert(self.repositories.deep_view().len() == self.repositories@.len());
        }
        let action = resolution.process();
        (resolution, action)
    }
}

/// NEAREST WINS, artifact-set form: a well-formed resolution holds at
/// most one resolved artifact per `group:artifact` key. Together with
/// `step`'s guarantee that the recorded results only ever extend, a
/// later, deeper request for an already-resolved key can never replace
/// the earlier, shallower resolution.
pub proof fn lemma_one_artifact_per_key(r: Resolution)
    requires
        r.wf(),
    ensures
        forall|i: int, j: int|
            0 <= i < j < r.resolved@.len() ==> coordinate::spec_coord_key(
                (#[trigger] r.resolved@[i]).coordinate@,
            ) != coordinate::spec_coord_key((#[trigger] r.resolved@[j]).coordinate@),
{
}

} // verus!
