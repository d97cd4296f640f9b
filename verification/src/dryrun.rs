//! The dry-run walk: the same recursive resolution, upgrades included,
//! but fetching only POM and metadata documents, and building the full
//! dependency tree for display — duplicate requests stay visible as
//! children edges even though only the first occurrence of a key gets a
//! node of its own.

use vstd::prelude::*;

use crate::coordinate;
use crate::coordinate::{CoordView, MavenCoordinate};
use crate::engine;
use crate::engine::Event;
use crate::errors::ResolveError;
use crate::strutil;
use crate::version::Version;

verus! {

/// One node of the dry-run dependency tree.
pub struct DependencyNode {
    pub coordinate: MavenCoordinate,
    pub depth: usize,
    pub is_transitive: bool,
    /// Candidate URLs over every repository, AAR before JAR.
    pub download_urls: Vec<String>,
    pub parent: Option<MavenCoordinate>,
    /// The children edges, including edges to coordinates that resolved
    /// elsewhere under a different version.
    pub children: Vec<MavenCoordinate>,
}

/// What the dry-run engine asks the driver to do next: only POM and
/// metadata fetches, never an artifact download.
pub enum DryAction {
    /// Read the cached POM as text, if it exists: answer `PomCacheText`.
    ReadPomCache { path: String },
    /// Download a POM to a file and hand back the text: answer
    /// `PomDownloaded`, `NotFound` or `TransportFailed`.
    DownloadPom { url: String, path: String },
    /// Fetch a maven-metadata document as text: answer `MetadataFetched`.
    FetchMetadata { url: String },
    /// The walk is complete; the nodes are in discovery order.
    Finished { nodes: Vec<DependencyNode> },
    /// The walk failed; nothing partial is returned.
    Fail { error: ResolveError },
}

/// Work remaining on the dry-run stack.
pub enum DryFrame {
    /// A requested root coordinate, not yet parsed.
    Root { coord_str: String },
    /// A coordinate to visit at a depth, with its parent node, if any.
    Start { coord: MavenCoordinate, depth: usize, parent_idx: Option<usize> },
    /// The children of a visited node, processed left to right.
    Children { parent_idx: usize, depth: usize, deps: Vec<MavenCoordinate>, idx: usize },
}

/// What the dry-run engine is waiting for.
pub enum DryPending {
    /// Not waiting; the stack drives the next action.
    Idle,
    /// Awaiting the POM cache read for a node.
    PomCache { coord: MavenCoordinate, depth: usize, node_idx: usize },
    /// Awaiting a POM download from one repository.
    PomDownload { coord: MavenCoordinate, depth: usize, node_idx: usize, repo_idx: usize },
    /// Awaiting a metadata fetch for a child dependency.
    Metadata {
        dep: MavenCoordinate,
        requested_version: Version,
        child_depth: usize,
        parent_idx: usize,
        repo_idx: usize,
    },
    /// The walk ended in `Finished` or `Fail`.
    Done,
}

/// No two nodes share a `group:artifact` key: the nearest-wins rule keeps
/// one node per key, the first visit.
pub open spec fn node_keys_unique(ns: Seq<DependencyNode>) -> bool {
    forall|i: int, j: int|
        0 <= i < j < ns.len() ==> coordinate::spec_coord_key((#[trigger] ns[i]).coordinate@)
            != coordinate::spec_coord_key((#[trigger] ns[j]).coordinate@)
}

/// A node only ever gains children edges; everything else is fixed at
/// creation.
pub open spec fn node_fixed_extends(n2: DependencyNode, n1: DependencyNode) -> bool {
    &&& n2.coordinate == n1.coordinate
    &&& n2.depth == n1.depth
    &&& n2.is_transitive == n1.is_transitive
    &&& n2.download_urls == n1.download_urls
    &&& n2.parent == n1.parent
    &&& n1.children@.len() <= n2.children@.len()
    &&& forall|k: int| 0 <= k < n1.children@.len() ==> n2.children@[k] == n1.children@[k]
}

/// The candidate URLs for a coordinate: for each repository in order, its
/// AAR location then its JAR location.
pub open spec fn spec_download_urls(repos: Seq<Seq<char>>, c: CoordView) -> Seq<Seq<char>>
    decreases repos.len(),
{
    if repos.len() == 0 {
        Seq::<Seq<char>>::empty()
    } else {
        spec_download_urls(repos.drop_last(), c) + seq![
            engine::spec_url(repos.last(), coordinate::spec_coord_path(c, "aar"@)),
            engine::spec_url(repos.last(), coordinate::spec_coord_path(c, "jar"@)),
        ]
    }
}

/// A parent node's children list holds an edge to this coordinate.
pub open spec fn has_child_edge(f: DryRun, parent_idx: int, c: CoordView) -> bool {
    exists|k: int|
        0 <= k < f.nodes@[parent_idx].children@.len() && (#[trigger] f.nodes@[
            parent_idx
        ].children@[k])@ == c
}

/// The node list an outcome carries: the `Finished` payload, or the
/// machine's own list while the walk continues.
pub open spec fn dry_result_nodes(f: DryRun, r: DryAction) -> Seq<DependencyNode> {
    match r {
        DryAction::Finished { nodes } => nodes@,
        _ => f.nodes@,
    }
}

/// The outcome's node list holds an edge from this parent to this
/// coordinate.
pub open spec fn result_has_child_edge(
    f: DryRun,
    r: DryAction,
    parent_idx: int,
    c: CoordView,
) -> bool {
    exists|k: int|
        0 <= k < dry_result_nodes(f, r)[parent_idx].children@.len() && (#[trigger] dry_result_nodes(
            f,
            r,
        )[parent_idx].children@[k])@ == c
}

/// The walk took up a coordinate whose key was never visited: a fresh
/// node was created for it (fixed fields set once, no children yet) and
/// its cached POM is asked for.
pub open spec fn dry_begins_node(
    o: DryRun,
    f: DryRun,
    r: DryAction,
    c: CoordView,
    depth: usize,
) -> bool {
    &&& f.nodes@.len() == o.nodes@.len() + 1
    &&& f.nodes@.last().coordinate@ == c
    &&& f.nodes@.last().depth == depth
    &&& f.nodes@.last().is_transitive == (depth > 0)
    &&& f.nodes@.last().download_urls.deep_view() == spec_download_urls(
        o.repositories.deep_view(),
        c,
    )
    &&& f.nodes@.last().children@.len() == 0
    &&& (r matches DryAction::ReadPomCache { path } && path@ == engine::spec_artifact_file(
        engine::spec_artifact_dir(o.cache_dir@, c),
        c,
        "pom"@,
    ))
    &&& (f.pending matches DryPending::PomCache { coord, node_idx, .. } && coord@ == c
        && node_idx == o.nodes@.len())
}

/// A POM's text was taken by the walk: a document that does not parse is
/// a `Parse` failure; one that parses queues its filtered dependencies,
/// and any failure later in the same step can only be a malformed root
/// coordinate.
pub open spec fn dry_pom_outcome(r: DryAction, text: Seq<char>) -> bool {
    match crate::xml::xml_parsed(text) {
        Some(t) => (r is ReadPomCache || r is FetchMetadata || r is Finished || r is Fail) && (
        r matches DryAction::Fail { error } ==> error is CoordinateFormat),
        None => r matches DryAction::Fail { error } && error is Parse,
    }
}

/// The dry-run engine.
pub struct DryRun {
    /// The repository base URLs, in priority order.
    pub repositories: Vec<String>,
    /// The cache directory root.
    pub cache_dir: String,
    /// Depth-first work remaining.
    pub stack: Vec<DryFrame>,
    /// What the engine awaits.
    pub pending: DryPending,
    /// The `group:artifact` keys already visited; first visit wins.
    pub visited: Vec<String>,
    /// The tree nodes, in discovery order, at most one per key.
    pub nodes: Vec<DependencyNode>,
}

impl DryRun {
    /// Every stack frame is internally consistent and points at a live
    /// node.
    pub open spec fn frames_ok(self) -> bool {
        forall|i: int|
            0 <= i < self.stack@.len() ==> match #[trigger] self.stack@[i] {
                DryFrame::Children { parent_idx, deps, idx, .. } => idx <= deps@.len()
                    && parent_idx < self.nodes@.len(),
                DryFrame::Start { parent_idx, .. } => match parent_idx {
                    Some(p) => p < self.nodes@.len(),
                    None => true,
                },
                _ => true,
            }
    }

    /// The pending state is consistent.
    pub open spec fn pending_ok(self) -> bool {
        match self.pending {
            DryPending::Idle => true,
            DryPending::PomCache { node_idx, .. } => node_idx < self.nodes@.len(),
            DryPending::PomDownload { node_idx, repo_idx, .. } => node_idx < self.nodes@.len()
                && repo_idx < self.repositories@.len(),
            DryPending::Metadata { parent_idx, repo_idx, .. } => parent_idx < self.nodes@.len()
                && repo_idx < self.repositories@.len(),
            DryPending::Done => true,
        }
    }

    /// The engine's invariant.
    pub open spec fn wf(self) -> bool {
        &&& self.repositories@.len() >= 1
        &&& node_keys_unique(self.nodes@)
        &&& forall|i: int|
            0 <= i < self.nodes@.len() ==> self.visited.deep_view().contains(
                coordinate::spec_coord_key((#[trigger] self.nodes@[i]).coordinate@),
            )
        &&& self.frames_ok()
        &&& self.pending_ok()
    }

    /// Which events the engine can take next.
    pub open spec fn accepts(self, e: Event) -> bool {
        match self.pending {
            DryPending::PomCache { .. } => e is PomCacheText,
            DryPending::PomDownload { .. } => e is PomDownloaded || e is NotFound
                || e is TransportFailed,
            DryPending::Metadata { .. } => e is MetadataFetched,
            _ => false,
        }
    }

    /// The action the engine just returned matches what it now awaits.
    pub open spec fn expects(self, r: DryAction) -> bool {
        match r {
            DryAction::ReadPomCache { .. } => self.pending is PomCache,
            DryAction::DownloadPom { .. } => self.pending is PomDownload,
            DryAction::FetchMetadata { .. } => self.pending is Metadata,
            DryAction::Finished { .. } => self.pending is Done,
            DryAction::Fail { .. } => self.pending is Done,
        }
    }

    /// Nodes and edges only grow: no node is removed or rewritten, only
    /// its children list is appended to. The tree keeps every discovered
    /// edge, including edges to already-visited keys.
    pub open spec fn extends(self, o: DryRun) -> bool {
        &&& o.nodes@.len() <= self.nodes@.len()
        &&& forall|i: int|
            0 <= i < o.nodes@.len() ==> node_fixed_extends(
                #[trigger] self.nodes@[i],
                o.nodes@[i],
            )
        &&& o.visited@.len() <= self.visited@.len()
        &&& forall|i: int| 0 <= i < o.visited@.len() ==> self.visited@[i] == o.visited@[i]
        &&& self.repositories == o.repositories
        &&& self.cache_dir == o.cache_dir
    }

    /// End the walk with an error.
    fn fail(&mut self, error: ResolveError) -> (r: DryAction)
        requires
            old(self).wf(),
        ensures
            final(self).wf(),
            final(self).expects(r),
            r matches DryAction::Fail { error: e } && e == error,
            final(self).extends(*old(self)),
            final(self).nodes@ == old(self).nodes@,
    {
        self.pending = DryPending::Done;
        DryAction::Fail { error }
    }

    /// The candidate URLs for a coordinate over every repository.
    fn build_download_urls(&self, coord: &MavenCoordinate) -> (r: Vec<String>)
        ensures
            r.deep_view() == spec_download_urls(self.repositories.deep_view(), coord@),
    {
        let ghost repos = self.repositories.deep_view();
        let mut out: Vec<String> = Vec::new();
        let mut i: usize = 0;
        proof {
            assert(repos.subrange(0, 0) =~= Seq::<Seq<char>>::empty());
            assert(out.deep_view() =~= spec_download_urls(repos.subrange(0, 0), coord@));
        }
        while i < self.repositories.len()
            invariant
                i <= self.repositories.len(),
                repos == self.repositories.deep_view(),
                repos.len() == self.repositories@.len(),
                forall|k: int|
                    0 <= k < self.repositories@.len() ==> repos[k] == (
                    #[trigger] self.repositories@[k])@,
                out.deep_view() == spec_download_urls(repos.subrange(0, i as int), coord@),
            decreases self.repositories.len() - i,
        {
            let ghost pre = repos.subrange(0, i as int);
            let ghost post = repos.subrange(0, i + 1 as int);
            proof {
                assert(post.drop_last() =~= pre);
                assert(post.last() == repos[i as int]);
            }
            let ghost before = out.deep_view();
            let aar_url = engine::url_for(
                self.repositories[i].as_str(),
                coord.to_path("aar").as_str(),
            );
            out.push(aar_url);
            proof {
                assert(out.deep_view() =~= before.push(
                    engine::spec_url(post.last(), coordinate::spec_coord_path(coord@, "aar"@)),
                ));
            }
            let ghost mid = out.deep_view();
            let jar_url = engine::url_for(
                self.repositories[i].as_str(),
                coord.to_path("jar").as_str(),
            );
            out.push(jar_url);
            proof {
                assert(out.deep_view() =~= mid.push(
                    engine::spec_url(post.last(), coordinate::spec_coord_path(coord@, "jar"@)),
                ));
                assert(out.deep_view() =~= spec_download_urls(post, coord@));
            }
            i += 1;
        }
        proof {
            assert(repos.subrange(0, self.repositories@.len() as int) =~= repos);
        }
        out
    }

    /// Append an edge from a parent node to a child coordinate, unless the
    /// edge is already present.
    fn add_child_edge(&mut self, parent_idx: usize, child: &MavenCoordinate)
        requires
            old(self).wf(),
            parent_idx < old(self).nodes@.len(),
        ensures
            final(self).wf(),
            final(self).extends(*old(self)),
            final(self).nodes@.len() == old(self).nodes@.len(),
            final(self).visited@ == old(self).visited@,
            final(self).stack@ == old(self).stack@,
            final(self).pending == old(self).pending,
            has_child_edge(*final(self), parent_idx as int, child@),
            forall|i: int|
                0 <= i < final(self).nodes@.len() && i != parent_idx ==> final(self).nodes@[i]
                    == old(self).nodes@[i],
    {
        let ghost old_nodes = self.nodes@;
        let node = &self.nodes[parent_idx];
        let mut present = false;
        let mut i: usize = 0;
        while i < node.children.len()
            invariant
                i <= node.children.len(),
                node == &self.nodes[parent_idx as int],
                parent_idx < self.nodes@.len(),
                present ==> exists|k: int|
                    0 <= k < node.children@.len() && (#[trigger] node.children@[k])@ == child@,
            decreases node.children.len() - i,
        {
            if coords_equal(&node.children[i], child) {
                proof {
                    assert(node.children@[i as int]@ == child@);
                }
                present = true;
            }
            i += 1;
        }
        if !present {
            let c = engine::clone_coord(child);
            self.nodes[parent_idx].children.push(c);
            proof {
                assert(self.nodes@[parent_idx as int].coordinate == old_nodes[parent_idx
                    as int].coordinate);
                assert forall|a: int, b: int| 0 <= a < b < self.nodes@.len()
                    implies coordinate::spec_coord_key(
                    (#[trigger] self.nodes@[a]).coordinate@,
                ) != coordinate::spec_coord_key((#[trigger] self.nodes@[b]).coordinate@) by {
                    assert(self.nodes@[a].coordinate == old_nodes[a].coordinate);
                    assert(self.nodes@[b].coordinate == old_nodes[b].coordinate);
                }
                assert forall|a: int| 0 <= a < self.nodes@.len()
                    implies self.visited.deep_view().contains(
                    coordinate::spec_coord_key((#[trigger] self.nodes@[a]).coordinate@),
                ) by {
                    assert(self.nodes@[a].coordinate == old_nodes[a].coordinate);
                }
                assert(self.nodes@[parent_idx as int].children@.last()@ == child@);
                assert(has_child_edge(*self, parent_idx as int, child@));
            }
        } else {
            proof {
                assert(has_child_edge(*self, parent_idx as int, child@));
            }
        }
    }

    /// Visit a coordinate: record the edge from its parent, and when its
    /// key is new, create its node and move on to its POM.
    fn begin_node(&mut self, coord: MavenCoordinate, depth: usize, parent_idx: Option<usize>)
        -> (r: Option<DryAction>)
        requires
            old(self).wf(),
            old(self).pending is Idle,
            match parent_idx {
                Some(p) => p < old(self).nodes@.len(),
                None => true,
            },
        ensures
            final(self).wf(),
            final(self).extends(*old(self)),
            final(self).stack@ == old(self).stack@,
            match r {
                Some(a) => final(self).expects(a) && dry_begins_node(
                    *old(self),
                    *final(self),
                    a,
                    coord@,
                    depth,
                ) && !old(self).visited.deep_view().contains(coordinate::spec_coord_key(coord@)),
                None => final(self).pending is Idle && old(self).visited.deep_view().contains(
                    coordinate::spec_coord_key(coord@),
                ) && final(self).nodes@.len() == old(self).nodes@.len() && (match parent_idx {
                    Some(p) => has_child_edge(*final(self), p as int, coord@),
                    None => true,
                }),
            },
    {
        let key = coord.key();
        if strutil::vec_contains_str(&self.visited, key.as_str()) {
            if let Some(p) = parent_idx {
                self.add_child_edge(p, &coord);
            }
            return None;
        }
        let ghost old_visited = self.visited.deep_view();
        self.visited.push(key);
        proof {
            assert(self.visited.deep_view() =~= old_visited.push(
                coordinate::spec_coord_key(coord@),
            ));
            assert(self.visited.deep_view()[old_visited.len() as int]
                == coordinate::spec_coord_key(coord@));
            assert(self.visited.deep_view().contains(coordinate::spec_coord_key(coord@)));
            assert forall|k: Seq<char>| old_visited.contains(k)
                implies self.visited.deep_view().contains(k) by {
                let i = choose|i: int| 0 <= i < old_visited.len() && old_visited[i] == k;
                assert(self.visited.deep_view()[i] == k);
            }
        }
        let download_urls = self.build_download_urls(&coord);
        let parent = match parent_idx {
            Some(p) => Some(engine::clone_coord(&self.nodes[p].coordinate)),
            None => None,
        };
        let node = DependencyNode {
            coordinate: engine::clone_coord(&coord),
            depth,
            is_transitive: depth > 0,
            download_urls,
            parent,
            children: Vec::new(),
        };
        let node_idx = self.nodes.len();
        let ghost old_nodes = self.nodes@;
        let ghost k = coordinate::spec_coord_key(coord@);
        self.nodes.push(node);
        proof {
            assert forall|a: int, b: int| 0 <= a < b < self.nodes@.len()
                implies coordinate::spec_coord_key((#[trigger] self.nodes@[a]).coordinate@)
                != coordinate::spec_coord_key((#[trigger] self.nodes@[b]).coordinate@) by {
                if b < old_nodes.len() {
                    assert(self.nodes@[a] == old_nodes[a]);
                    assert(self.nodes@[b] == old_nodes[b]);
                } else {
                    assert(self.nodes@[a] == old_nodes[a]);
                    assert(coordinate::spec_coord_key(self.nodes@[b].coordinate@) == k);
                    if coordinate::spec_coord_key(old_nodes[a].coordinate@) == k {
                        assert(old_visited.contains(
                            coordinate::spec_coord_key(old_nodes[a].coordinate@),
                        ));
                    }
                }
            }
        }
        if let Some(p) = parent_idx {
            self.add_child_edge(p, &coord);
        }
        let dir = engine::artifact_dir(self.cache_dir.as_str(), &coord);
        let path = engine::artifact_file(dir.as_str(), &coord, "pom");
        self.pending = DryPending::PomCache { coord, depth, node_idx };
        Some(DryAction::ReadPomCache { path })
    }

    /// Work through the stack until an outside fetch is needed or the walk
    /// is complete.
    fn process(&mut self) -> (r: DryAction)
        requires
            old(self).wf(),
            old(self).pending is Idle,
        ensures
            final(self).wf(),
            final(self).expects(r),
            r is Finished ==> (r matches DryAction::Finished { nodes } && nodes@.len() >= old(
                self,
            ).nodes@.len() && (forall|i: int|
                0 <= i < old(self).nodes@.len() ==> node_fixed_extends(
                    nodes@[i],
                    old(self).nodes@[i],
                ))),
            !(r is Finished) ==> final(self).extends(*old(self)),
            final(self).repositories == old(self).repositories,
            final(self).cache_dir == old(self).cache_dir,
            r is ReadPomCache || r is FetchMetadata || r is Finished || r is Fail,
            r matches DryAction::Fail { error } ==> error is CoordinateFormat,
            r matches DryAction::Finished { nodes } ==> node_keys_unique(nodes@),
            old(self).stack@.len() == 0 ==> (r matches DryAction::Finished { nodes } && nodes@
                == old(self).nodes@),
            old(self).stack@.len() > 0 ==> (match old(self).stack@.last() {
                DryFrame::Root { coord_str } => (match coordinate::spec_parse_coord(coord_str@) {
                    Some(cv) => !old(self).visited.deep_view().contains(
                        coordinate::spec_coord_key(cv),
                    ) ==> dry_begins_node(*old(self), *final(self), r, cv, 0),
                    None => (r matches DryAction::Fail { error } && (
                    error matches ResolveError::CoordinateFormat { coordinate } && coordinate@
                        == coord_str@)),
                }),
                DryFrame::Start { coord, depth, parent_idx } => if !old(
                    self,
                ).visited.deep_view().contains(coordinate::spec_coord_key(coord@)) {
                    dry_begins_node(*old(self), *final(self), r, coord@, depth)
                } else {
                    match parent_idx {
                        Some(p) => p < old(self).nodes@.len() ==> result_has_child_edge(
                            *final(self),
                            r,
                            p as int,
                            coord@,
                        ),
                        None => true,
                    }
                },
                DryFrame::Children { .. } => true,
            }),
    {
        let ghost mut first: bool = true;
        loop
            invariant
                self.wf(),
                self.pending is Idle,
                self.extends(*old(self)),
                first ==> self.stack@ == old(self).stack@ && self.visited@ == old(self).visited@
                    && self.nodes@ == old(self).nodes@,
                !first ==> old(self).stack@.len() > 0,
                !first ==> (match old(self).stack@.last() {
                    DryFrame::Root { coord_str } => (match coordinate::spec_parse_coord(
                        coord_str@,
                    ) {
                        Some(cv) => old(self).visited.deep_view().contains(
                            coordinate::spec_coord_key(cv),
                        ),
                        None => false,
                    }),
                    DryFrame::Start { coord, parent_idx, .. } => old(
                        self,
                    ).visited.deep_view().contains(coordinate::spec_coord_key(coord@)) && (
                    match parent_idx {
                        Some(p) => p < old(self).nodes@.len() ==> has_child_edge(
                            *self,
                            p as int,
                            coord@,
                        ),
                        None => true,
                    }),
                    DryFrame::Children { .. } => true,
                }),
            decreases dry_stack_weight(self.stack@),
        {
            let ghost pre_stack = self.stack@;
            if self.stack.len() == 0 {
                let mut nodes: Vec<DependencyNode> = Vec::new();
                core::mem::swap(&mut nodes, &mut self.nodes);
                self.pending = DryPending::Done;
                return DryAction::Finished { nodes };
            }
            let frame = match self.stack.pop() {
                Some(f) => f,
                None => {
                    proof {
                        assert(false);
                    }
                    unreached()
                },
            };
            proof {
                assert(self.stack@ =~= pre_stack.drop_last());
                lemma_dry_stack_weight_drop(pre_stack);
            }
            match frame {
                DryFrame::Root { coord_str } => {
                    let coord = match MavenCoordinate::parse(coord_str.as_str()) {
                        Ok(c) => c,
                        Err(e) => {
                            return self.fail(e);
                        },
                    };
                    if let Some(a) = self.begin_node(coord, 0, None) {
                        return a;
                    }
                },
                DryFrame::Start { coord, depth, parent_idx } => {
                    if let Some(a) = self.begin_node(coord, depth, parent_idx) {
                        return a;
                    }
                },
                DryFrame::Children { parent_idx, depth, deps, idx } => {
                    if idx < deps.len() {
                        let dep = engine::clone_coord(&deps[idx]);
                        let ghost mid_stack = self.stack@;
                        self.stack.push(
                            DryFrame::Children { parent_idx, depth, deps, idx: idx + 1 },
                        );
                        proof {
                            lemma_dry_stack_weight_push(mid_stack, self.stack@.last());
                        }
                        let child_depth = depth.saturating_add(1);
                        match Version::parse(dep.version.as_str()) {
                            Some(v) => {
                                let url = engine::url_for(
                                    self.repositories[0].as_str(),
                                    dep.metadata_path().as_str(),
                                );
                                self.pending = DryPending::Metadata {
                                    dep,
                                    requested_version: v,
                                    child_depth,
                                    parent_idx,
                                    repo_idx: 0,
                                };
                                return DryAction::FetchMetadata { url };
                            },
                            None => {
                                let ghost mid2 = self.stack@;
                                self.stack.push(
                                    DryFrame::Start {
                                        coord: dep,
                                        depth: child_depth,
                                        parent_idx: Some(parent_idx),
                                    },
                                );
                                proof {
                                    lemma_dry_stack_weight_push(mid2, self.stack@.last());
                                }
                            },
                        }
                    }
                },
            }
            proof {
                first = false;
            }
        }
    }

    /// Handle a node's POM text: parse its dependencies and queue them.
    fn on_pom(&mut self, coord: MavenCoordinate, depth: usize, node_idx: usize, text: String)
        -> (r: DryAction)
        requires
            old(self).wf(),
            old(self).pending is Idle,
            node_idx < old(self).nodes@.len(),
        ensures
            final(self).wf(),
            final(self).expects(r),
            !(r is Finished) ==> final(self).extends(*old(self)),
            r is Finished ==> (r matches DryAction::Finished { nodes } && nodes@.len() >= old(
                self,
            ).nodes@.len() && (forall|i: int|
                0 <= i < old(self).nodes@.len() ==> node_fixed_extends(
                    nodes@[i],
                    old(self).nodes@[i],
                ))),
            dry_pom_outcome(r, text@),
            r matches DryAction::Finished { nodes } ==> node_keys_unique(nodes@),
            final(self).repositories == old(self).repositories,
            final(self).cache_dir == old(self).cache_dir,
    {
        let deps = match crate::pom::parse_pom_dependencies(text.as_str(), &coord) {
            Ok(d) => d,
            Err(e) => {
                return self.fail(e);
            },
        };
        self.stack.push(DryFrame::Children { parent_idx: node_idx, depth, deps, idx: 0 });
        self.process()
    }

    /// Take one driver event and return the next action.
    ///
    /// Nodes are never removed or rewritten: a later, deeper request for
    /// an already-visited key leaves its node in place and at most adds a
    /// children edge — the tree keeps both occurrences visible.
    pub fn step(&mut self, event: Event) -> (r: DryAction)
        requires
            old(self).wf(),
            old(self).accepts(event),
        ensures
            final(self).wf(),
            final(self).expects(r),
            !(r is Finished) ==> final(self).extends(*old(self)),
            r is Finished ==> (r matches DryAction::Finished { nodes } && nodes@.len() >= old(
                self,
            ).nodes@.len() && (forall|i: int|
                0 <= i < old(self).nodes@.len() ==> node_fixed_extends(
                    nodes@[i],
                    old(self).nodes@[i],
                ))),
            r matches DryAction::Finished { nodes } ==> node_keys_unique(nodes@),
            (match (old(self).pending, event) {
                (DryPending::PomCache { coord, .. }, Event::PomCacheText { text }) => match text {
                    Some(t) => dry_pom_outcome(r, t@),
                    None => r matches DryAction::DownloadPom { url, .. } && url@
                        == engine::spec_url(
                        old(self).repositories@[0]@,
                        coordinate::spec_coord_path(coord@, "pom"@),
                    ),
                },
                (DryPending::PomDownload { .. }, Event::PomDownloaded { text }) => dry_pom_outcome(
                    r,
                    text@,
                ),
                (DryPending::PomDownload { coord, repo_idx, .. }, Event::NotFound) => if repo_idx
                    + 1 < old(self).repositories@.len() {
                    r matches DryAction::DownloadPom { url, .. } && url@ == engine::spec_url(
                        old(self).repositories@[repo_idx + 1]@,
                        coordinate::spec_coord_path(coord@, "pom"@),
                    )
                } else {
                    r matches DryAction::Fail { error } && (
                    error matches ResolveError::NotFound { what } && what@ == "POM for "@
                        + coordinate::spec_coord_str(coord@))
                },
                (DryPending::PomDownload { .. }, Event::TransportFailed { message }) => (
                r matches DryAction::Fail { error } && (error matches ResolveError::Transport {
                    message: m,
                } && m == message)),
                (
                    DryPending::Metadata { dep, requested_version, child_depth, parent_idx, repo_idx },
                    Event::MetadataFetched { text },
                ) => match text {
                    Some(t) => ({
                        let best = crate::version::spec_select_best(
                            requested_version,
                            dep.version@,
                            crate::pom::spec_metadata_versions(crate::xml::xml_parsed(t@)),
                        ).0;
                        let up = CoordView {
                            group: dep.group_id@,
                            artifact: dep.artifact_id@,
                            version: best,
                        };
                        if !old(self).visited.deep_view().contains(
                            coordinate::spec_coord_key(up),
                        ) {
                            dry_begins_node(*old(self), *final(self), r, up, child_depth)
                        } else {
                            parent_idx < old(self).nodes@.len() ==> result_has_child_edge(
                                *final(self),
                                r,
                                parent_idx as int,
                                up,
                            )
                        }
                    }),
                    None => if repo_idx + 1 < old(self).repositories@.len() {
                        r matches DryAction::FetchMetadata { url } && url@ == engine::spec_url(
                            old(self).repositories@[repo_idx + 1]@,
                            coordinate::spec_metadata_path(dep@),
                        )
                    } else {
                        if !old(self).visited.deep_view().contains(
                            coordinate::spec_coord_key(dep@),
                        ) {
                            dry_begins_node(*old(self), *final(self), r, dep@, child_depth)
                        } else {
                            parent_idx < old(self).nodes@.len() ==> result_has_child_edge(
                                *final(self),
                                r,
                                parent_idx as int,
                                dep@,
                            )
                        }
                    },
                },
                _ => true,
            }),
            final(self).repositories == old(self).repositories,
            final(self).cache_dir == old(self).cache_dir,
    {
        let mut pending = DryPending::Idle;
        core::mem::swap(&mut pending, &mut self.pending);
        match pending {
            DryPending::PomCache { coord, depth, node_idx } => {
                let text = match event {
                    Event::PomCacheText { text } => text,
                    _ => {
                        proof {
                            assert(false);
                        }
                        unreached()
                    },
                };
                match text {
                    Some(t) => self.on_pom(coord, depth, node_idx, t),
                    None => {
                        let dir = engine::artifact_dir(self.cache_dir.as_str(), &coord);
                        let path = engine::artifact_file(dir.as_str(), &coord, "pom");
                        let url = engine::url_for(
                            self.repositories[0].as_str(),
                            coord.to_path("pom").as_str(),
                        );
                        self.pending = DryPending::PomDownload {
                            coord,
                            depth,
                            node_idx,
                            repo_idx: 0,
                        };
                        DryAction::DownloadPom { url, path }
                    },
                }
            },
            DryPending::PomDownload { coord, depth, node_idx, repo_idx } => {
                match event {
                    Event::PomDownloaded { text } => self.on_pom(coord, depth, node_idx, text),
                    Event::NotFound => {
                        let n = self.repositories.len();
                        if repo_idx < n - 1 {
                            let dir = engine::artifact_dir(self.cache_dir.as_str(), &coord);
                            let path = engine::artifact_file(dir.as_str(), &coord, "pom");
                            let url = engine::url_for(
                                self.repositories[repo_idx + 1].as_str(),
                                coord.to_path("pom").as_str(),
                            );
                            self.pending = DryPending::PomDownload {
                                coord,
                                depth,
                                node_idx,
                                repo_idx: repo_idx + 1,
                            };
                            DryAction::DownloadPom { url, path }
                        } else {
                            let mut what = strutil::str_to_string("POM for ");
                            let c = coord.to_string();
                            strutil::append_str(&mut what, c.as_str());
                            self.fail(ResolveError::NotFound { what })
                        }
                    },
                    Event::TransportFailed { message } => {
                        self.fail(ResolveError::Transport { message })
                    },
                    _ => {
                        proof {
                            assert(false);
                        }
                        unreached()
                    },
                }
            },
            DryPending::Metadata { dep, requested_version, child_depth, parent_idx, repo_idx } => {
                let text = match event {
                    Event::MetadataFetched { text } => text,
                    _ => {
                        proof {
                            assert(false);
                        }
                        unreached()
                    },
                };
                match text {
                    Some(t) => {
                        let versions = crate::pom::parse_versions_from_metadata(t.as_str());
                        let best = crate::version::select_best_version(
                            &requested_version,
                            dep.version.as_str(),
                            &versions,
                        );
                        let upgraded = MavenCoordinate {
                            group_id: dep.group_id.clone(),
                            artifact_id: dep.artifact_id.clone(),
                            version: best,
                        };
                        self.stack.push(
                            DryFrame::Start {
                                coord: upgraded,
                                depth: child_depth,
                                parent_idx: Some(parent_idx),
                            },
                        );
                        self.process()
                    },
                    None => {
                        let n = self.repositories.len();
                        if repo_idx < n - 1 {
                            let url = engine::url_for(
                                self.repositories[repo_idx + 1].as_str(),
                                dep.metadata_path().as_str(),
                            );
                            self.pending = DryPending::Metadata {
                                dep,
                                requested_version,
                                child_depth,
                                parent_idx,
                                repo_idx: repo_idx + 1,
                            };
                            DryAction::FetchMetadata { url }
                        } else {
                            self.stack.push(
                                DryFrame::Start {
                                    coord: dep,
                                    depth: child_depth,
                                    parent_idx: Some(parent_idx),
                                },
                            );
                            self.process()
                        }
                    },
                }
            },
            _ => {
                proof {
                    assert(false);
                }
                unreached()
            },
        }
    }
}

/// Field-wise equality of two coordinates.
pub fn coords_equal(a: &MavenCoordinate, b: &MavenCoordinate) -> (r: bool)
    ensures
        r == (a@ == b@),
{
    let eq = strutil::str_eq(a.group_id.as_str(), b.group_id.as_str()) && strutil::str_eq(
        a.artifact_id.as_str(),
        b.artifact_id.as_str(),
    ) && strutil::str_eq(a.version.as_str(), b.version.as_str());
    proof {
        if eq {
            assert(a@ == b@);
        } else {
            assert(a@ != b@);
        }
    }
    eq
}

/// The termination measure of one dry-run frame.
pub open spec fn dry_frame_weight(f: DryFrame) -> nat {
    match f {
        DryFrame::Root { .. } => 1,
        DryFrame::Start { .. } => 1,
        DryFrame::Children { deps, idx, .. } => if idx <= deps@.len() {
            (1 + 2 * (deps@.len() - idx)) as nat
        } else {
            1
        },
    }
}

/// The termination measure of the whole dry-run stack.
pub open spec fn dry_stack_weight(s: Seq<DryFrame>) -> nat
    decreases s.len(),
{
    if s.len() == 0 {
        0
    } else {
        dry_stack_weight(s.drop_last()) + dry_frame_weight(s.last())
    }
}

/// Popping removes the last frame's weight.
pub proof fn lemma_dry_stack_weight_drop(s: Seq<DryFrame>)
    requires
        s.len() > 0,
    ensures
        dry_stack_weight(s.drop_last()) == dry_stack_weight(s) - dry_frame_weight(s.last()),
{
}

/// Pushing adds the new frame's weight.
pub proof fn lemma_dry_stack_weight_push(s: Seq<DryFrame>, f: DryFrame)
    ensures
        dry_stack_weight(s.push(f)) == dry_stack_weight(s) + dry_frame_weight(f),
{
    assert(s.push(f).drop_last() =~= s);
    assert(s.push(f).last() == f);
}

impl crate::engine::MavenResolver {
    /// Begin a dry-run walk of the given coordinate strings, in order:
    /// the full recursion with upgrades, fetching only POM and metadata
    /// documents, building the display tree. Returns the machine and its
    /// first action: done at once for an empty request list, otherwise
    /// the first coordinate gets its node and its cached POM is asked
    /// for, or its malformed string fails the walk.
    pub fn start_dry_run(&self, coordinates: &Vec<String>) -> (r: (DryRun, DryAction))
        requires
            self.repositories@.len() >= 1,
        ensures
            r.0.wf(),
            r.0.expects(r.1),
            coordinates@.len() == 0 ==> (r.1 matches DryAction::Finished { nodes }
                && nodes@.len() == 0),
            coordinates@.len() > 0 ==> (match coordinate::spec_parse_coord(coordinates@[0]@) {
                Some(cv) => r.0.nodes@.len() == 1 && r.0.nodes@[0].coordinate@ == cv
                    && r.0.nodes@[0].depth == 0 && !r.0.nodes@[0].is_transitive
                    && r.0.nodes@[0].download_urls.deep_view() == spec_download_urls(
                    self.repositories.deep_view(),
                    cv,
                ) && (r.1 matches DryAction::ReadPomCache { path } && path@
                    == engine::spec_artifact_file(
                    engine::spec_artifact_dir(self.cache_dir@, cv),
                    cv,
                    "pom"@,
                )),
                None => r.1 matches DryAction::Fail { error } && (
                error matches ResolveError::CoordinateFormat { coordinate } && coordinate@
                    == coordinates@[0]@),
            }),
    {
        let mut stack: Vec<DryFrame> = Vec::new();
        let mut i: usize = coordinates.len();
        while i > 0
            invariant
                i <= coordinates.len(),
                stack@.len() == coordinates@.len() - i,
                forall|k: int|
                    0 <= k < stack@.len() ==> (#[trigger] stack@[k] matches DryFrame::Root {
                        coord_str,
                    } && coord_str@ == coordinates@[coordinates@.len() - 1 - k]@),
            decreases i,
        {
            i -= 1;
            stack.push(DryFrame::Root { coord_str: coordinates[i].clone() });
        }
        let mut machine = DryRun {
            repositories: engine::clone_strings(&self.repositories),
            cache_dir: self.cache_dir.clone(),
            stack,
            pending: DryPending::Idle,
            visited: Vec::new(),
            nodes: Vec::new(),
        };
        proof {
            assert(machine.frames_ok()) by {
                assert forall|k: int| 0 <= k < machine.stack@.len() implies match #[trigger] machine.stack@[k] {
                    DryFrame::Children { parent_idx, deps, idx, .. } => idx <= deps@.len()
                        && parent_idx < machine.nodes@.len(),
                    DryFrame::Start { parent_idx, .. } => match parent_idx {
                        Some(p) => p < machine.nodes@.len(),
                        None => true,
                    },
                    _ => true,
                } by {
                    assert(machine.stack@[k] matches DryFrame::Root { .. });
                }
            }
            assert(machine.repositories@.len() == machine.repositories.deep_view().len());
            assert(machine.repositories.deep_view().len() == self.repositories.deep_view().len());
            assert(self.repositories.deep_view().len() == self.repositories@.len());
        }
        let action = machine.process();
        (machine, action)
    }
}

/// NEAREST WINS, tree form: a well-formed dry run holds at most one node
/// per `group:artifact` key — the first visit — while `step` guarantees
/// that nodes are never rewritten and children edges only accumulate, so
/// every duplicate request stays visible as an edge without displacing
/// the node that won.
pub proof fn lemma_one_node_per_key(d: DryRun)
    requires
        d.wf(),
    ensures
        node_keys_unique(d.nodes@),
{
}

/// The dry-run listing order: depth first, then group, then artifact,
/// lexicographically.
pub open spec fn spec_node_le(a: DependencyNode, b: DependencyNode) -> bool {
    ||| a.depth < b.depth
    ||| (a.depth == b.depth && a.coordinate.group_id@ != b.coordinate.group_id@
        && strutil::spec_str_le(a.coordinate.group_id@, b.coordinate.group_id@))
    ||| (a.depth == b.depth && a.coordinate.group_id@ == b.coordinate.group_id@
        && strutil::spec_str_le(a.coordinate.artifact_id@, b.coordinate.artifact_id@))
}

/// The listing order is total.
proof fn lemma_node_le_total(a: DependencyNode, b: DependencyNode)
    ensures
        spec_node_le(a, b) || spec_node_le(b, a),
{
    if a.depth == b.depth {
        if a.coordinate.group_id@ != b.coordinate.group_id@ {
            strutil::lemma_str_le_total(a.coordinate.group_id@, b.coordinate.group_id@);
        } else {
            strutil::lemma_str_le_total(a.coordinate.artifact_id@, b.coordinate.artifact_id@);
        }
    }
}

/// Exec form of the listing order.
fn node_le(a: &DependencyNode, b: &DependencyNode) -> (r: bool)
    ensures
        r == spec_node_le(*a, *b),
{
    if a.depth < b.depth {
        true
    } else if a.depth > b.depth {
        false
    } else if !strutil::str_eq(a.coordinate.group_id.as_str(), b.coordinate.group_id.as_str()) {
        strutil::str_le(a.coordinate.group_id.as_str(), b.coordinate.group_id.as_str())
    } else {
        strutil::str_le(a.coordinate.artifact_id.as_str(), b.coordinate.artifact_id.as_str())
    }
}

/// Sort the dry-run nodes into the listing order — depth, then group,
/// then artifact — keeping exactly the same nodes.
pub fn sort_nodes(nodes: Vec<DependencyNode>) -> (r: Vec<DependencyNode>)
    ensures
        r@.len() == nodes@.len(),
        r@.to_multiset() == nodes@.to_multiset(),
        forall|i: int| 0 <= i < r@.len() - 1 ==> spec_node_le(#[trigger] r@[i], r@[i + 1]),
{
    broadcast use vstd::seq_lib::group_to_multiset_ensures;

    let mut rest = nodes;
    let mut out: Vec<DependencyNode> = Vec::new();
    proof {
        assert(out@.to_multiset().add(rest@.to_multiset()) =~= nodes@.to_multiset());
    }
    while rest.len() > 0
        invariant
            out@.len() + rest@.len() == nodes@.len(),
            out@.to_multiset().add(rest@.to_multiset()) == nodes@.to_multiset(),
            forall|i: int| 0 <= i < out@.len() - 1 ==> spec_node_le(#[trigger] out@[i], out@[i + 1]),
        decreases rest@.len(),
    {
        let ghost rest_pre = rest@;
        let x = match rest.pop() {
            Some(x) => x,
            None => {
                proof {
                    assert(false);
                }
                unreached()
            },
        };
        proof {
            assert(rest_pre =~= rest@.push(x));
            vstd::seq_lib::to_multiset_build(rest@, x);
            assert(rest_pre.to_multiset() =~= rest@.to_multiset().insert(x));
        }
        let mut pos: usize = 0;
        while pos < out.len() && node_le(&out[pos], &x)
            invariant
                pos <= out@.len(),
                forall|j: int| 0 <= j < pos ==> spec_node_le(#[trigger] out@[j], x),
            decreases out@.len() - pos,
        {
            pos += 1;
        }
        let ghost out_pre = out@;
        proof {
            if pos < out_pre.len() {
                lemma_node_le_total(out_pre[pos as int], x);
            }
        }
        out.insert(pos, x);
        proof {
            assert(out@ == out_pre.insert(pos as int, x));
            vstd::seq_lib::to_multiset_insert(out_pre, pos as int, x);
            assert(out@.to_multiset().add(rest@.to_multiset()) =~= nodes@.to_multiset());
            assert forall|i: int| 0 <= i < out@.len() - 1 implies spec_node_le(
                #[trigger] out@[i],
                out@[i + 1],
            ) by {
                assert(out@ =~= out_pre.subrange(0, pos as int) + seq![x] + out_pre.subrange(
                    pos as int,
                    out_pre.len() as int,
                ));
                if i + 1 < pos {
                    assert(out@[i] == out_pre[i]);
                    assert(out@[i + 1] == out_pre[i + 1]);
                } else if i + 1 == pos {
                    assert(out@[i] == out_pre[i]);
                    assert(out@[i + 1] == x);
                } else if i == pos {
                    assert(out@[i] == x);
                    assert(out@[i + 1] == out_pre[i]);
                } else {
                    assert(out@[i] == out_pre[i - 1]);
                    assert(out@[i + 1] == out_pre[i]);
                }
            }
        }
    }
    proof {
        assert(rest@.to_multiset() =~= vstd::multiset::Multiset::<DependencyNode>::empty());
        assert(out@.to_multiset() =~= nodes@.to_multiset());
    }
    out
}

} // verus!
