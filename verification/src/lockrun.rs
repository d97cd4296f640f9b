//! The lock-file resolution path: when the lock's direct dependency set
//! matches the request, each locked artifact is fetched and verified
//! against its recorded BLAKE3 hash, and graph recursion is skipped
//! entirely — this machine has no POM or metadata action at all.

use vstd::prelude::*;

use crate::archive;
use crate::archive::{AarPlan, ResolvedArtifact};
use crate::coordinate;
use crate::coordinate::MavenCoordinate;
use crate::engine;
use crate::engine::Event;
use crate::errors::ResolveError;
use crate::hashing;
use crate::lock::{LockedArtifact, VampireLock};

verus! {

/// What the lock-path engine asks the driver to do next. There is no POM
/// or metadata fetch here: the lock path performs zero of them.
pub enum LockAction {
    /// Read the cached artifact file, if it exists: answer `FileBytes`.
    ReadArtifactCache { path: String },
    /// Delete a corrupt cached file: answer `Removed`.
    RemoveCorrupt { path: String },
    /// Download a URL to a file and hand back the bytes: answer
    /// `Downloaded`, `NotFound` or `TransportFailed`.
    DownloadArtifact { url: String, path: String },
    /// Perform the extraction plan under `out_dir`: answer `Extracted`.
    ExtractAar { archive_path: String, out_dir: String, plan: AarPlan },
    /// Every locked artifact was fetched and verified.
    Finished { artifacts: Vec<ResolvedArtifact> },
    /// The pass failed; nothing partial is returned.
    Fail { error: ResolveError },
}

/// What the lock-path engine is waiting for.
pub enum LockPending {
    /// Not waiting; the entry list drives the next action.
    Idle,
    /// Awaiting the artifact cache read for one extension.
    ArtCache { coord: MavenCoordinate, is_aar: bool },
    /// Awaiting removal of a corrupt cached artifact.
    ArtRemove { coord: MavenCoordinate, is_aar: bool },
    /// Awaiting an artifact download from one repository.
    ArtDownload { coord: MavenCoordinate, is_aar: bool, repo_idx: usize },
    /// Awaiting the driver's extraction of an AAR.
    ArtExtract { coord: MavenCoordinate, artifact: ResolvedArtifact },
    /// The pass ended in `Finished` or `Fail`.
    Done,
}

/// The lock-path engine: fetch and verify each locked artifact in order.
pub struct LockResolution {
    /// The repository base URLs, in priority order.
    pub repositories: Vec<String>,
    /// The cache directory root.
    pub cache_dir: String,
    /// The lock rows to fetch, in lock order.
    pub entries: Vec<LockedArtifact>,
    /// The next entry to work on.
    pub idx: usize,
    /// What the engine awaits.
    pub pending: LockPending,
    /// The artifacts fetched and verified so far.
    pub artifacts: Vec<ResolvedArtifact>,
}

/// One lock row was verified and recorded: the artifact list grew by
/// exactly one entry whose coordinate is the row's resolved coordinate,
/// whether the pass then continued, finished, or failed on a later row's
/// malformed coordinate.
pub open spec fn lock_advance(
    o: LockResolution,
    f: LockResolution,
    r: LockAction,
    cv: coordinate::CoordView,
) -> bool {
    match r {
        LockAction::Finished { artifacts } => artifacts@.len() == o.artifacts@.len() + 1
            && artifacts@[o.artifacts@.len() as int].coordinate@ == cv && (forall|i: int|
            0 <= i < o.artifacts@.len() ==> artifacts@[i] == o.artifacts@[i]),
        LockAction::Fail { error } => error is CoordinateFormat,
        _ => f.artifacts@.len() == o.artifacts@.len() + 1
            && f.artifacts@[o.artifacts@.len() as int].coordinate@ == cv && (forall|i: int|
            0 <= i < o.artifacts@.len() ==> f.artifacts@[i] == o.artifacts@[i]) && f.idx == o.idx
            + 1,
    }
}

impl LockResolution {
    /// The recorded hash of the entry currently being fetched.
    pub open spec fn current_hash(self) -> Option<Seq<char>> {
        if self.idx < self.entries@.len() {
            self.entries@[self.idx as int].blake3.deep_view()
        } else {
            None
        }
    }

    /// Whether the in-flight coordinate is the parse of the current lock
    /// row's resolved string.
    pub open spec fn current_coord_ok(self, coord: MavenCoordinate) -> bool {
        coordinate::spec_parse_coord(self.entries@[self.idx as int].resolved@) == Some(coord@)
    }

    /// The invariant: entry index in range while fetching, the artifact
    /// list tracks the processed rows one for one (until the pass ends and
    /// hands the list out), the in-flight coordinate is the current row's,
    /// and repository bounds are respected.
    pub open spec fn wf(self) -> bool {
        &&& self.repositories@.len() >= 1
        &&& self.idx <= self.entries@.len()
        &&& (self.pending is Done || self.artifacts@.len() == self.idx)
        &&& forall|i: int|
            0 <= i < self.artifacts@.len() ==> coordinate::spec_parse_coord(
                self.entries@[i].resolved@,
            ) == Some((#[trigger] self.artifacts@[i]).coordinate@)
        &&& match self.pending {
            LockPending::Idle => true,
            LockPending::ArtCache { coord, .. } => self.idx < self.entries@.len()
                && self.current_coord_ok(coord),
            LockPending::ArtRemove { coord, .. } => self.idx < self.entries@.len()
                && self.current_coord_ok(coord),
            LockPending::ArtDownload { coord, repo_idx, .. } => self.idx < self.entries@.len()
                && self.current_coord_ok(coord) && repo_idx < self.repositories@.len(),
            LockPending::ArtExtract { coord, artifact } => self.idx < self.entries@.len()
                && self.current_coord_ok(coord) && artifact.coordinate@ == coord@,
            LockPending::Done => true,
        }
    }

    /// Which events the engine can take next.
    pub open spec fn accepts(self, e: Event) -> bool {
        match self.pending {
            LockPending::ArtCache { .. } => e is FileBytes,
            LockPending::ArtRemove { .. } => e is Removed,
            LockPending::ArtDownload { .. } => e is Downloaded || e is NotFound
                || e is TransportFailed,
            LockPending::ArtExtract { .. } => e is Extracted,
            _ => false,
        }
    }

    /// The action the engine just returned matches what it now awaits.
    pub open spec fn expects(self, r: LockAction) -> bool {
        match r {
            LockAction::ReadArtifactCache { .. } => self.pending is ArtCache,
            LockAction::RemoveCorrupt { .. } => self.pending is ArtRemove,
            LockAction::DownloadArtifact { .. } => self.pending is ArtDownload,
            LockAction::ExtractAar { .. } => self.pending is ArtExtract,
            LockAction::Finished { .. } => self.pending is Done,
            LockAction::Fail { .. } => self.pending is Done,
        }
    }

    /// End the pass with an error.
    fn fail(&mut self, error: ResolveError) -> (r: LockAction)
        requires
            old(self).wf(),
        ensures
            final(self).wf(),
            final(self).expects(r),
            r matches LockAction::Fail { error: e } && e == error,
            final(self).artifacts@ == old(self).artifacts@,
            final(self).entries@ == old(self).entries@,
            final(self).repositories == old(self).repositories,
            final(self).cache_dir == old(self).cache_dir,
    {
        self.pending = LockPending::Done;
        LockAction::Fail { error }
    }

    /// Move to the next entry, or finish when all are done: past the last
    /// row the verified artifacts are handed out, one per row in row
    /// order; otherwise the current row's resolved coordinate is parsed
    /// and its cached AAR is asked for first, a malformed coordinate
    /// failing the pass.
    fn process(&mut self) -> (r: LockAction)
        requires
            old(self).wf(),
            old(self).pending is Idle,
        ensures
            final(self).wf(),
            final(self).expects(r),
            !(r is Finished) ==> final(self).artifacts@ == old(self).artifacts@,
            final(self).entries@ == old(self).entries@,
            final(self).repositories == old(self).repositories,
            final(self).cache_dir == old(self).cache_dir,
            r matches LockAction::Finished { artifacts } ==> (artifacts@ == old(self).artifacts@
                && artifacts@.len() == old(self).entries@.len() && (forall|i: int|
                0 <= i < artifacts@.len() ==> coordinate::spec_parse_coord(
                    old(self).entries@[i].resolved@,
                ) == Some((#[trigger] artifacts@[i]).coordinate@))),
            old(self).idx >= old(self).entries@.len() ==> r is Finished,
            old(self).idx < old(self).entries@.len() ==> (match coordinate::spec_parse_coord(
                old(self).entries@[old(self).idx as int].resolved@,
            ) {
                Some(cv) => (r matches LockAction::ReadArtifactCache { path } && path@
                    == engine::spec_artifact_file(
                    engine::spec_artifact_dir(old(self).cache_dir@, cv),
                    cv,
                    "aar"@,
                )) && (final(self).pending matches LockPending::ArtCache { coord, is_aar }
                    && coord@ == cv && is_aar == true) && final(self).idx == old(self).idx,
                None => r matches LockAction::Fail { error } && error is CoordinateFormat,
            }),
    {
        if self.idx >= self.entries.len() {
            let mut artifacts: Vec<ResolvedArtifact> = Vec::new();
            core::mem::swap(&mut artifacts, &mut self.artifacts);
            self.pending = LockPending::Done;
            return LockAction::Finished { artifacts };
        }
        let coord = match MavenCoordinate::parse(self.entries[self.idx].resolved.as_str()) {
            Ok(c) => c,
            Err(e) => {
                return self.fail(e);
            },
        };
        let dir = engine::artifact_dir(self.cache_dir.as_str(), &coord);
        let path = engine::artifact_file(dir.as_str(), &coord, "aar");
        self.pending = LockPending::ArtCache { coord, is_aar: true };
        LockAction::ReadArtifactCache { path }
    }

    /// Verify the fetched bytes against the lock record, then record the
    /// artifact (extracting first when it is an AAR): a matching or absent
    /// hash records one artifact for this row and moves on, a mismatch is
    /// a hard integrity failure.
    fn on_artifact(&mut self, coord: MavenCoordinate, is_aar: bool, bytes: Vec<u8>) -> (r:
        LockAction)
        requires
            old(self).wf(),
            old(self).pending is Idle,
            old(self).idx < old(self).entries@.len(),
            old(self).current_coord_ok(coord),
            archive::spec_zip_valid(bytes@),
        ensures
            final(self).wf(),
            final(self).expects(r),
            (old(self).current_hash() matches Some(h) && h != hashing::blake3_hex(bytes@)) ==> (
            r matches LockAction::Fail { error } && error is Integrity),
            hashing::spec_integrity_ok(old(self).current_hash(), bytes@) && is_aar ==> (
            r is ExtractAar && (final(self).pending matches LockPending::ArtExtract {
                artifact,
                ..
            } && artifact.coordinate@ == coord@) && final(self).artifacts@ == old(self).artifacts@
                && final(self).idx == old(self).idx),
            hashing::spec_integrity_ok(old(self).current_hash(), bytes@) && !is_aar
                ==> lock_advance(*old(self), *final(self), r, coord@),
            r matches LockAction::Finished { artifacts } ==> (artifacts@.len() == old(
                self,
            ).entries@.len() && (forall|i: int|
                0 <= i < artifacts@.len() ==> coordinate::spec_parse_coord(
                    old(self).entries@[i].resolved@,
                ) == Some((#[trigger] artifacts@[i]).coordinate@))),
            final(self).entries@ == old(self).entries@,
            final(self).repositories == old(self).repositories,
            final(self).cache_dir == old(self).cache_dir,
    {
        if !hashing::check_integrity(&self.entries[self.idx].blake3, bytes.as_slice()) {
            let expected = match &self.entries[self.idx].blake3 {
                Some(h) => h.clone(),
                None => {
                    proof {
                        assert(false);
                    }
                    unreached()
                },
            };
            let actual = hashing::blake3_hash_hex(bytes.as_slice());
            let coordinate = coord.to_string();
            return self.fail(ResolveError::Integrity { coordinate, expected, actual });
        }
        let dir = engine::artifact_dir(self.cache_dir.as_str(), &coord);
        if is_aar {
            let entries = match archive::zip_entry_names(bytes.as_slice()) {
                Some(e) => e,
                None => {
                    proof {
                        assert(false);
                    }
                    unreached()
                },
            };
            let plan = archive::plan_aar_extraction(&entries, dir.as_str());
            let package_name = if plan.has_manifest {
                match archive::zip_entry_bytes(bytes.as_slice(), "AndroidManifest.xml") {
                    Some(mb) => match archive::string_from_utf8(mb) {
                        Some(text) => archive::manifest_package_name(text.as_str()),
                        None => None,
                    },
                    None => None,
                }
            } else {
                None
            };
            let native_libs = engine::clone_string_pairs(&plan.native_libs);
            let manifest_path = if plan.has_manifest {
                Some(archive::join_path(dir.as_str(), "AndroidManifest.xml"))
            } else {
                None
            };
            let res_dir = if plan.has_res {
                Some(archive::join_path(dir.as_str(), "res"))
            } else {
                None
            };
            let r_txt_path = if plan.has_r_txt {
                Some(archive::join_path(dir.as_str(), "R.txt"))
            } else {
                None
            };
            let artifact = ResolvedArtifact {
                coordinate: engine::clone_coord(&coord),
                jar_path: archive::join_path(dir.as_str(), "classes.jar"),
                is_aar: true,
                native_libs,
                manifest_path,
                res_dir,
                r_txt_path,
                package_name,
            };
            let archive_path = engine::artifact_file(dir.as_str(), &coord, "aar");
            self.pending = LockPending::ArtExtract { coord, artifact };
            LockAction::ExtractAar { archive_path, out_dir: dir, plan }
        } else {
            let artifact = ResolvedArtifact {
                coordinate: engine::clone_coord(&coord),
                jar_path: engine::artifact_file(dir.as_str(), &coord, "jar"),
                is_aar: false,
                native_libs: Vec::new(),
                manifest_path: None,
                res_dir: None,
                r_txt_path: None,
                package_name: None,
            };
            self.artifacts.push(artifact);
            let n = self.entries.len();
            self.idx = self.idx + 1;
            self.pending = LockPending::Idle;
            self.process()
        }
    }

    /// Take one driver event and return the next action.
    ///
    /// A recorded hash that does not match the fetched artifact bytes is a
    /// hard `Integrity` failure, while a matching or absent hash records
    /// the row's artifact and moves on; corrupt cached files are removed
    /// and redownloaded, repositories are tried in order with the AAR
    /// extension before the JAR, and a non-not-found transport failure
    /// aborts at once. By construction this machine never asks for a POM
    /// or metadata document. A `Finished` action carries one verified
    /// artifact per lock row, in lock order.
    pub fn step(&mut self, event: Event) -> (r: LockAction)
        requires
            old(self).wf(),
            old(self).accepts(event),
        ensures
            final(self).wf(),
            final(self).expects(r),
            (match (old(self).pending, event) {
                (LockPending::ArtDownload { .. }, Event::Downloaded { bytes }) => (
                archive::spec_zip_valid(bytes@) && (old(self).current_hash() matches Some(h)
                    && h != hashing::blake3_hex(bytes@))) ==> (r matches LockAction::Fail { error }
                    && error is Integrity),
                (LockPending::ArtCache { .. }, Event::FileBytes { bytes }) => (
                bytes matches Some(b) && b@.len() > 0 && archive::spec_zip_valid(b@) && (old(
                    self,
                ).current_hash() matches Some(h) && h != hashing::blake3_hex(b@))) ==> (
                r matches LockAction::Fail { error } && error is Integrity),
                _ => true,
            }),
            (match (old(self).pending, event) {
                (LockPending::ArtCache { coord, is_aar }, Event::FileBytes { bytes }) => match bytes {
                    Some(b) => if b@.len() > 0 && archive::spec_zip_valid(b@) {
                        hashing::spec_integrity_ok(old(self).current_hash(), b@) ==> (if is_aar {
                            r is ExtractAar
                        } else {
                            lock_advance(*old(self), *final(self), r, coord@)
                        })
                    } else {
                        r is RemoveCorrupt
                    },
                    None => r matches LockAction::DownloadArtifact { url, .. } && url@
                        == engine::spec_url(
                        old(self).repositories@[0]@,
                        coordinate::spec_coord_path(
                            coord@,
                            if is_aar {
                                "aar"@
                            } else {
                                "jar"@
                            },
                        ),
                    ),
                },
                (
                    LockPending::ArtDownload { coord, is_aar, repo_idx },
                    Event::Downloaded { bytes },
                ) => if !archive::spec_zip_valid(bytes@) {
                    r matches LockAction::Fail { error } && error is CorruptArchive
                } else {
                    hashing::spec_integrity_ok(old(self).current_hash(), bytes@) ==> (if is_aar {
                        r is ExtractAar
                    } else {
                        lock_advance(*old(self), *final(self), r, coord@)
                    })
                },
                (LockPending::ArtDownload { coord, is_aar, repo_idx }, Event::NotFound) => if repo_idx
                    + 1 < old(self).repositories@.len() {
                    r matches LockAction::DownloadArtifact { url, .. } && url@ == engine::spec_url(
                        old(self).repositories@[repo_idx + 1]@,
                        coordinate::spec_coord_path(
                            coord@,
                            if is_aar {
                                "aar"@
                            } else {
                                "jar"@
                            },
                        ),
                    )
                } else if is_aar {
                    r matches LockAction::ReadArtifactCache { path } && path@
                        == engine::spec_artifact_file(
                        engine::spec_artifact_dir(old(self).cache_dir@, coord@),
                        coord@,
                        "jar"@,
                    )
                } else {
                    r matches LockAction::Fail { error } && error is NotFound
                },
                (LockPending::ArtDownload { .. }, Event::TransportFailed { message }) => (
                r matches LockAction::Fail { error } && (error matches ResolveError::Transport {
                    message: m,
                } && m == message)),
                (LockPending::ArtExtract { artifact, .. }, Event::Extracted) => lock_advance(
                    *old(self),
                    *final(self),
                    r,
                    artifact.coordinate@,
                ),
                _ => true,
            }),
            r matches LockAction::Finished { artifacts } ==> (artifacts@.len() == old(
                self,
            ).entries@.len() && (forall|i: int|
                0 <= i < artifacts@.len() ==> coordinate::spec_parse_coord(
                    old(self).entries@[i].resolved@,
                ) == Some((#[trigger] artifacts@[i]).coordinate@))),
            final(self).entries@ == old(self).entries@,
            final(self).repositories == old(self).repositories,
            final(self).cache_dir == old(self).cache_dir,
    {
        let mut pending = LockPending::Idle;
        core::mem::swap(&mut pending, &mut self.pending);
        match pending {
            LockPending::ArtCache { coord, is_aar } => {
                let bytes = match event {
                    Event::FileBytes { bytes } => bytes,
                    _ => {
                        proof {
                            assert(false);
                        }
                        unreached()
                    },
                };
                let ext = if is_aar {
                    "aar"
                } else {
                    "jar"
                };
                match bytes {
                    Some(b) => {
                        if b.len() > 0 && archive::zip_valid(b.as_slice()) {
                            self.on_artifact(coord, is_aar, b)
                        } else {
                            let dir = engine::artifact_dir(self.cache_dir.as_str(), &coord);
                            let path = engine::artifact_file(dir.as_str(), &coord, ext);
                            self.pending = LockPending::ArtRemove { coord, is_aar };
                            LockAction::RemoveCorrupt { path }
                        }
                    },
                    None => {
                        let dir = engine::artifact_dir(self.cache_dir.as_str(), &coord);
                        let path = engine::artifact_file(dir.as_str(), &coord, ext);
                        let url = engine::url_for(
                            self.repositories[0].as_str(),
                            coord.to_path(ext).as_str(),
                        );
                        self.pending = LockPending::ArtDownload { coord, is_aar, repo_idx: 0 };
                        LockAction::DownloadArtifact { url, path }
                    },
                }
            },
            LockPending::ArtRemove { coord, is_aar } => {
                let ext = if is_aar {
                    "aar"
                } else {
                    "jar"
                };
                let dir = engine::artifact_dir(self.cache_dir.as_str(), &coord);
                let path = engine::artifact_file(dir.as_str(), &coord, ext);
                let url = engine::url_for(
                    self.repositories[0].as_str(),
                    coord.to_path(ext).as_str(),
                );
                self.pending = LockPending::ArtDownload { coord, is_aar, repo_idx: 0 };
                LockAction::DownloadArtifact { url, path }
            },
            LockPending::ArtDownload { coord, is_aar, repo_idx } => {
                let ext = if is_aar {
                    "aar"
                } else {
                    "jar"
                };
                match event {
                    Event::Downloaded { bytes } => {
                        if !archive::zip_valid(bytes.as_slice()) {
                            let what = coord.to_string();
                            self.fail(ResolveError::CorruptArchive { what })
                        } else {
                            self.on_artifact(coord, is_aar, bytes)
                        }
                    },
                    Event::NotFound => {
                        let n = self.repositories.len();
                        if repo_idx < n - 1 {
                            let dir = engine::artifact_dir(self.cache_dir.as_str(), &coord);
                            let path = engine::artifact_file(dir.as_str(), &coord, ext);
                            let url = engine::url_for(
                                self.repositories[repo_idx + 1].as_str(),
                                coord.to_path(ext).as_str(),
                            );
                            self.pending = LockPending::ArtDownload {
                                coord,
                                is_aar,
                                repo_idx: repo_idx + 1,
                            };
                            LockAction::DownloadArtifact { url, path }
                        } else if is_aar {
                            let dir = engine::artifact_dir(self.cache_dir.as_str(), &coord);
                            let path = engine::artifact_file(dir.as_str(), &coord, "jar");
                            self.pending = LockPending::ArtCache { coord, is_aar: false };
                            LockAction::ReadArtifactCache { path }
                        } else {
                            let what = coord.to_string();
                            self.fail(ResolveError::NotFound { what })
                        }
                    },
                    Event::TransportFailed { message } => {
                        self.fail(ResolveError::Transport { message })
                    },
                    _ => {
                        proof {
                            assert(false);
                        }
                        unreached()
                    },
                }
            },
            LockPending::ArtExtract { coord, artifact } => {
                self.artifacts.push(artifact);
                let n = self.entries.len();
                self.idx = self.idx + 1;
                self.pending = LockPending::Idle;
                self.process()
            },
            _ => {
                proof {
                    assert(false);
                }
                unreached()
            },
        }
    }
}

impl crate::engine::MavenResolver {
    /// Begin the lock path: fetch and verify each artifact the lock
    /// records, in order, performing zero POM or metadata fetches.
    /// Returns the machine and its first action: done at once for an
    /// empty lock, otherwise the first row's cached AAR is asked for, or
    /// its malformed resolved coordinate fails the pass.
    pub fn start_from_lock(&self, lock: VampireLock) -> (r: (LockResolution, LockAction))
        requires
            self.repositories@.len() >= 1,
        ensures
            r.0.wf(),
            r.0.expects(r.1),
            r.0.entries@ == lock.artifacts@,
            lock.artifacts@.len() == 0 ==> (r.1 matches LockAction::Finished { artifacts }
                && artifacts@.len() == 0),
            lock.artifacts@.len() > 0 ==> (match coordinate::spec_parse_coord(
                lock.artifacts@[0].resolved@,
            ) {
                Some(cv) => (r.1 matches LockAction::ReadArtifactCache { path } && path@
                    == engine::spec_artifact_file(
                    engine::spec_artifact_dir(self.cache_dir@, cv),
                    cv,
                    "aar"@,
                )) && (r.0.pending matches LockPending::ArtCache { coord, is_aar } && coord@ == cv
                    && is_aar == true),
                None => r.1 matches LockAction::Fail { error } && error is CoordinateFormat,
            }),
    {
        let mut machine = LockResolution {
            repositories: engine::clone_strings(&self.repositories),
            cache_dir: self.cache_dir.clone(),
            entries: lock.artifacts,
            idx: 0,
            pending: LockPending::Idle,
            artifacts: Vec::new(),
        };
        proof {
            assert(machine.repositories@.len() == machine.repositories.deep_view().len());
            assert(machine.repositories.deep_view().len() == self.repositories.deep_view().len());
            assert(self.repositories.deep_view().len() == self.repositories@.len());
        }
        let action = machine.process();
        (machine, action)
    }
}

} // verus!
