//! The lock store's data model: one row per resolved coordinate plus
//! generation metadata, and the staleness check against a new request set.

use vstd::prelude::*;

use crate::coordinate;
use crate::coordinate::MavenCoordinate;
use crate::errors::ResolveError;
use crate::strutil;

verus! {

/// One resolved artifact as recorded for reproducibility.
#[derive(Clone, Debug, PartialEq, Eq)]
pub struct LockedArtifact {
    /// The coordinate as originally requested (before any upgrade).
    pub requested: String,
    /// The coordinate actually resolved.
    pub resolved: String,
    /// `"jar"` or `"aar"`.
    pub artifact_type: String,
    /// Hex BLAKE3 digest of the artifact bytes, when known.
    pub blake3: Option<String>,
    /// The URL the artifact was fetched from, when it was not a cache hit.
    pub source_url: Option<String>,
    /// Whether the artifact entered through transitive resolution.
    pub transitive: bool,
    /// The requesting coordinate, when recorded.
    pub parent: Option<String>,
}

/// The mathematical value of a lock row.
pub ghost struct LockedArtifactView {
    pub requested: Seq<char>,
    pub resolved: Seq<char>,
    pub artifact_type: Seq<char>,
    pub blake3: Option<Seq<char>>,
    pub source_url: Option<Seq<char>>,
    pub transitive: bool,
    pub parent: Option<Seq<char>>,
}

impl View for LockedArtifact {
    type V = LockedArtifactView;

    open spec fn view(&self) -> LockedArtifactView {
        LockedArtifactView {
            requested: self.requested@,
            resolved: self.resolved@,
            artifact_type: self.artifact_type@,
            blake3: self.blake3.deep_view(),
            source_url: self.source_url.deep_view(),
            transitive: self.transitive,
            parent: self.parent.deep_view(),
        }
    }
}

impl DeepView for LockedArtifact {
    type V = LockedArtifactView;

    open spec fn deep_view(&self) -> LockedArtifactView {
        self.view()
    }
}

/// When and against which repositories the lock was generated.
#[derive(Clone, Debug, PartialEq, Eq)]
pub struct LockMetadata {
    pub generated_at: String,
    pub repositories: Vec<String>,
}

/// The mathematical value of the metadata block.
pub ghost struct LockMetadataView {
    pub generated_at: Seq<char>,
    pub repositories: Seq<Seq<char>>,
}

impl View for LockMetadata {
    type V = LockMetadataView;

    open spec fn view(&self) -> LockMetadataView {
        LockMetadataView {
            generated_at: self.generated_at@,
            repositories: self.repositories.deep_view(),
        }
    }
}

/// The persisted reproducibility record: schema version, one row per
/// artifact, and generation metadata.
#[derive(Clone, Debug, PartialEq, Eq)]
pub struct VampireLock {
    pub version: String,
    pub artifacts: Vec<LockedArtifact>,
    pub metadata: LockMetadata,
}

/// The mathematical value of a whole lock.
pub ghost struct VampireLockView {
    pub version: Seq<char>,
    pub artifacts: Seq<LockedArtifactView>,
    pub metadata: LockMetadataView,
}

impl View for VampireLock {
    type V = VampireLockView;

    open spec fn view(&self) -> VampireLockView {
        VampireLockView {
            version: self.version@,
            artifacts: self.artifacts.deep_view(),
            metadata: self.metadata@,
        }
    }
}

/// The `group:artifact` keys of a list of coordinate strings; nothing when
/// any string is malformed.
pub open spec fn spec_keys_opt(coords: Seq<Seq<char>>) -> Option<Set<Seq<char>>>
    decreases coords.len(),
{
    if coords.len() == 0 {
        Some(Set::<Seq<char>>::empty())
    } else {
        match spec_keys_opt(coords.drop_last()) {
            Some(s) => match coordinate::spec_parse_coord(coords.last()) {
                Some(c) => Some(s.insert(coordinate::spec_coord_key(c))),
                None => None,
            },
            None => None,
        }
    }
}

/// The `requested` strings of the direct (non-transitive) rows, in order.
pub open spec fn spec_direct_requested(arts: Seq<LockedArtifactView>) -> Seq<Seq<char>>
    decreases arts.len(),
{
    if arts.len() == 0 {
        Seq::<Seq<char>>::empty()
    } else {
        spec_direct_requested(arts.drop_last()) + if !arts.last().transitive {
            seq![arts.last().requested]
        } else {
            Seq::<Seq<char>>::empty()
        }
    }
}

/// A malformed coordinate in any prefix poisons the whole key set.
proof fn lemma_keys_opt_none(coords: Seq<Seq<char>>, i: int)
    requires
        0 <= i <= coords.len(),
        spec_keys_opt(coords.subrange(0, i)) is None,
    ensures
        spec_keys_opt(coords) is None,
    decreases coords.len() - i,
{
    if i < coords.len() {
        assert(coords.subrange(0, i + 1).drop_last() =~= coords.subrange(0, i));
        lemma_keys_opt_none(coords, i + 1);
    } else {
        assert(coords.subrange(0, i) =~= coords);
    }
}

/// Pushing onto a sequence inserts into its set.
proof fn lemma_push_to_set<A>(s: Seq<A>, x: A)
    ensures
        s.push(x).to_set() == s.to_set().insert(x),
{
    assert forall|y: A| s.push(x).to_set().contains(y) implies s.to_set().insert(x).contains(
        y,
    ) by {
        let i = choose|i: int| 0 <= i < s.push(x).len() && s.push(x)[i] == y;
        if i < s.len() {
            assert(s[i] == y);
        }
    }
    assert forall|y: A| s.to_set().insert(x).contains(y) implies s.push(x).to_set().contains(
        y,
    ) by {
        if s.to_set().contains(y) {
            let i = choose|i: int| 0 <= i < s.len() && s[i] == y;
            assert(s.push(x)[i] == y);
        } else {
            assert(s.push(x)[s.len() as int] == x);
        }
    }
    assert(s.push(x).to_set() =~= s.to_set().insert(x));
}

/// Decide equality of the key sets carried by two string vectors.
fn key_sets_equal(a: &Vec<String>, b: &Vec<String>) -> (r: bool)
    ensures
        r == (a.deep_view().to_set() == b.deep_view().to_set()),
{
    let mut i: usize = 0;
    while i < a.len()
        invariant
            i <= a.len(),
            a.deep_view().len() == a@.len(),
            forall|k: int| 0 <= k < a@.len() ==> a.deep_view()[k] == (#[trigger] a@[k])@,
            forall|k: int| 0 <= k < i ==> b.deep_view().contains(#[trigger] a.deep_view()[k]),
        decreases a.len() - i,
    {
        if !strutil::vec_contains_str(b, a[i].as_str()) {
            assert(a.deep_view().contains(a.deep_view()[i as int]));
            assert(a.deep_view().to_set().contains(a.deep_view()[i as int]));
            assert(!b.deep_view().to_set().contains(a.deep_view()[i as int]));
            return false;
        }
        i += 1;
    }
    let mut j: usize = 0;
    while j < b.len()
        invariant
            j <= b.len(),
            a.deep_view().len() == a@.len(),
            b.deep_view().len() == b@.len(),
            forall|k: int| 0 <= k < b@.len() ==> b.deep_view()[k] == (#[trigger] b@[k])@,
            forall|k: int|
                0 <= k < a.deep_view().len() ==> b.deep_view().contains(
                    #[trigger] a.deep_view()[k],
                ),
            forall|k: int| 0 <= k < j ==> a.deep_view().contains(#[trigger] b.deep_view()[k]),
        decreases b.len() - j,
    {
        if !strutil::vec_contains_str(a, b[j].as_str()) {
            assert(b.deep_view().contains(b.deep_view()[j as int]));
            assert(b.deep_view().to_set().contains(b.deep_view()[j as int]));
            assert(!a.deep_view().to_set().contains(b.deep_view()[j as int]));
            return false;
        }
        j += 1;
    }
    proof {
        assert forall|y: Seq<char>| a.deep_view().to_set().contains(y)
            implies b.deep_view().to_set().contains(y) by {
            let k = choose|k: int| 0 <= k < a.deep_view().len() && a.deep_view()[k] == y;
            assert(b.deep_view().contains(a.deep_view()[k]));
        }
        assert forall|y: Seq<char>| b.deep_view().to_set().contains(y)
            implies a.deep_view().to_set().contains(y) by {
            let k = choose|k: int| 0 <= k < b.deep_view().len() && b.deep_view()[k] == y;
            assert(a.deep_view().contains(b.deep_view()[k]));
        }
        assert(a.deep_view().to_set() =~= b.deep_view().to_set());
    }
    true
}

/// The `group:artifact` keys of a list of coordinate strings, or the first
/// format error.
fn keys_of(coords: &Vec<String>) -> (r: Result<Vec<String>, ResolveError>)
    ensures
        match spec_keys_opt(coords.deep_view()) {
            Some(s) => r matches Ok(keys) && keys.deep_view().to_set() == s,
            None => r matches Err(e) && e is CoordinateFormat,
        },
{
    let mut keys: Vec<String> = Vec::new();
    let mut i: usize = 0;
    proof {
        assert(coords.deep_view().subrange(0, 0) =~= Seq::<Seq<char>>::empty());
        assert(keys.deep_view().to_set() =~= Set::<Seq<char>>::empty());
    }
    while i < coords.len()
        invariant
            i <= coords.len(),
            coords.deep_view().len() == coords@.len(),
            forall|k: int|
                0 <= k < coords@.len() ==> coords.deep_view()[k] == (#[trigger] coords@[k])@,
            spec_keys_opt(coords.deep_view().subrange(0, i as int)) == Some(
                keys.deep_view().to_set(),
            ),
        decreases coords.len() - i,
    {
        let ghost pre = coords.deep_view().subrange(0, i as int);
        let ghost post = coords.deep_view().subrange(0, i + 1 as int);
        proof {
            assert(post.drop_last() =~= pre);
            assert(post.last() == coords.deep_view()[i as int]);
        }
        let c = match MavenCoordinate::parse(coords[i].as_str()) {
            Ok(c) => c,
            Err(e) => {
                proof {
                    assert(spec_keys_opt(post) is None);
                    lemma_keys_opt_none(coords.deep_view(), i + 1);
                }
                return Err(e);
            },
        };
        let ghost old_keys = keys.deep_view();
        let key = c.key();
        keys.push(key);
        proof {
            assert(keys.deep_view() =~= old_keys.push(
                coordinate::spec_coord_key(coordinate::spec_parse_coord(post.last())->Some_0),
            ));
            lemma_push_to_set(
                old_keys,
                coordinate::spec_coord_key(coordinate::spec_parse_coord(post.last())->Some_0),
            );
        }
        i += 1;
    }
    proof {
        assert(coords.deep_view().subrange(0, coords@.len() as int) =~= coords.deep_view());
    }
    Ok(keys)
}

impl VampireLock {
    /// Whether the lock's direct (non-transitive) request set matches the
    /// current request set, compared by `group:artifact` key. A mismatch is
    /// the stale-lock signal that triggers re-resolution, not a hard
    /// failure; a malformed coordinate on either side is an error.
    pub fn validate_lock(&self, requested_coords: &Vec<String>) -> (r: Result<bool, ResolveError>)
        ensures
            match (
                spec_keys_opt(requested_coords.deep_view()),
                spec_keys_opt(spec_direct_requested(self@.artifacts)),
            ) {
                (Some(a), Some(b)) => r matches Ok(v) && v == (a == b),
                _ => r matches Err(e) && e is CoordinateFormat,
            },
    {
        let requested_keys = match keys_of(requested_coords) {
            Ok(k) => k,
            Err(e) => {
                return Err(e);
            },
        };
        let mut direct: Vec<String> = Vec::new();
        let mut i: usize = 0;
        proof {
            assert(self@.artifacts.subrange(0, 0) =~= Seq::<LockedArtifactView>::empty());
            assert(direct.deep_view() =~= spec_direct_requested(self@.artifacts.subrange(0, 0)));
        }
        while i < self.artifacts.len()
            invariant
                i <= self.artifacts.len(),
                self@.artifacts.len() == self.artifacts@.len(),
                forall|k: int|
                    0 <= k < self.artifacts@.len() ==> self@.artifacts[k] == (
                    #[trigger] self.artifacts@[k])@,
                direct.deep_view() == spec_direct_requested(self@.artifacts.subrange(0, i as int)),
            decreases self.artifacts.len() - i,
        {
            let ghost pre = self@.artifacts.subrange(0, i as int);
            let ghost post = self@.artifacts.subrange(0, i + 1 as int);
            proof {
                assert(post.drop_last() =~= pre);
                assert(post.last() == self@.artifacts[i as int]);
            }
            if !self.artifacts[i].transitive {
                let ghost old_direct = direct.deep_view();
                direct.push(self.artifacts[i].requested.clone());
                proof {
                    assert(direct.deep_view() =~= old_direct.push(post.last().requested));
                }
            }
            proof {
                assert(direct.deep_view() =~= spec_direct_requested(post));
            }
            i += 1;
        }
        proof {
            assert(self@.artifacts.subrange(0, self.artifacts@.len() as int) =~= self@.artifacts);
        }
        let direct_keys = match keys_of(&direct) {
            Ok(k) => k,
            Err(e) => {
                return Err(e);
            },
        };
        Ok(key_sets_equal(&requested_keys, &direct_keys))
    }
}

} // verus!
