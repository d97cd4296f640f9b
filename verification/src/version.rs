//! Semantic versions: the strict `major.minor.patch` parse, the
//! compatibility predicate and the latest-compatible-version selection.

use vstd::prelude::*;

use crate::strutil;

verus! {

/// A strict three-component numeric version.
#[derive(Clone, Copy, Debug, PartialEq, Eq, Structural)]
pub struct Version {
    pub major: u32,
    pub minor: u32,
    pub patch: u32,
}

/// The parse of a version string: exactly three dot-separated runs of
/// decimal digits, each fitting in a `u32`; anything else (ranges,
/// qualifiers, two-part versions) is nothing.
pub open spec fn spec_parse_version(s: Seq<char>) -> Option<Version> {
    let parts = strutil::spec_split(s, '.');
    if parts.len() == 3 && strutil::is_digits(parts[0]) && strutil::is_digits(parts[1])
        && strutil::is_digits(parts[2]) && strutil::digits_val(parts[0]) <= u32::MAX as int
        && strutil::digits_val(parts[1]) <= u32::MAX as int && strutil::digits_val(parts[2])
        <= u32::MAX as int {
        Some(
            Version {
                major: strutil::digits_val(parts[0]) as u32,
                minor: strutil::digits_val(parts[1]) as u32,
                patch: strutil::digits_val(parts[2]) as u32,
            },
        )
    } else {
        None
    }
}

/// The compatibility rule: same major, and at least the requested
/// minor/patch.
pub open spec fn spec_compatible(candidate: Version, requested: Version) -> bool {
    candidate.major == requested.major && (candidate.minor > requested.minor
        || (candidate.minor == requested.minor && candidate.patch >= requested.patch))
}

/// Lexicographic strict order on versions.
pub open spec fn spec_version_gt(a: Version, b: Version) -> bool {
    a.major > b.major || (a.major == b.major && (a.minor > b.minor || (a.minor == b.minor
        && a.patch > b.patch)))
}

impl Version {
    /// Strict three-numeric-segment parse; every other shape yields `None`.
    pub fn parse(version_str: &str) -> (r: Option<Version>)
        ensures
            r == spec_parse_version(version_str@),
    {
        let parts = strutil::split_char(version_str, '.');
        proof {
            strutil::lemma_split_len(version_str@, '.');
        }
        if parts.len() != 3 {
            return None;
        }
        proof {
            assert(parts@[0]@ == strutil::spec_split(version_str@, '.')[0]);
            assert(parts@[1]@ == strutil::spec_split(version_str@, '.')[1]);
            assert(parts@[2]@ == strutil::spec_split(version_str@, '.')[2]);
        }
        let major = match strutil::parse_u32(parts[0].as_str()) {
            Some(v) => v,
            None => {
                return None;
            },
        };
        let minor = match strutil::parse_u32(parts[1].as_str()) {
            Some(v) => v,
            None => {
                return None;
            },
        };
        let patch = match strutil::parse_u32(parts[2].as_str()) {
            Some(v) => v,
            None => {
                return None;
            },
        };
        Some(Version { major, minor, patch })
    }

    /// Whether this candidate may replace the requested version: same
    /// major, and no lower minor/patch.
    pub fn is_compatible_with(&self, requested: &Version) -> (r: bool)
        ensures
            r == spec_compatible(*self, *requested),
    {
        self.major == requested.major && (self.minor > requested.minor || (self.minor
            == requested.minor && self.patch >= requested.patch))
    }

    /// Strict lexicographic comparison on (major, minor, patch).
    pub fn gt(&self, other: &Version) -> (r: bool)
        ensures
            r == spec_version_gt(*self, *other),
    {
        self.major > other.major || (self.major == other.major && (self.minor > other.minor
            || (self.minor == other.minor && self.patch > other.patch)))
    }
}

/// The version string selected from a candidate list: starting from the
/// requested version, each candidate in order replaces the current best
/// when it parses strictly, is compatible with the requested version, and
/// is strictly greater than the current best.
pub open spec fn spec_select_best(
    requested: Version,
    requested_str: Seq<char>,
    candidates: Seq<Seq<char>>,
) -> (Seq<char>, Version)
    decreases candidates.len(),
{
    if candidates.len() == 0 {
        (requested_str, requested)
    } else {
        let prev = spec_select_best(requested, requested_str, candidates.drop_last());
        match spec_parse_version(candidates.last()) {
            Some(v) => if spec_compatible(v, requested) && spec_version_gt(v, prev.1) {
                (candidates.last(), v)
            } else {
                prev
            },
            None => prev,
        }
    }
}

/// Pick the highest published version compatible with the requested one;
/// candidates that are not strict three-part versions are ignored, and the
/// requested string itself is returned when nothing better is offered.
pub fn select_best_version(
    requested: &Version,
    requested_str: &str,
    candidates: &Vec<String>,
) -> (r: String)
    ensures
        r@ == spec_select_best(*requested, requested_str@, candidates.deep_view()).0,
{
    let mut best = strutil::str_to_string(requested_str);
    let mut best_version = *requested;
    let mut i: usize = 0;
    proof {
        assert(candidates.deep_view().subrange(0, 0) =~= Seq::<Seq<char>>::empty());
    }
    while i < candidates.len()
        invariant
            i <= candidates.len(),
            candidates.deep_view().len() == candidates.len(),
            (best@, best_version) == spec_select_best(
                *requested,
                requested_str@,
                candidates.deep_view().subrange(0, i as int),
            ),
        decreases candidates.len() - i,
    {
        let ghost pre = candidates.deep_view().subrange(0, i as int);
        let ghost post = candidates.deep_view().subrange(0, i + 1 as int);
        proof {
            assert(post.drop_last() =~= pre);
            assert(post.last() == candidates.deep_view()[i as int]);
            assert(candidates.deep_view()[i as int] == candidates@[i as int]@);
        }
        if let Some(v) = Version::parse(candidates[i].as_str()) {
            if v.is_compatible_with(requested) && v.gt(&best_version) {
                best = candidates[i].clone();
                best_version = v;
            }
        }
        i += 1;
    }
    proof {
        assert(candidates.deep_view().subrange(0, candidates.len() as int)
            =~= candidates.deep_view());
    }
    best
}

/// The strict version order is total and transitive enough for selection:
/// a version no greater than the current best stays no greater than any
/// strictly higher best.
proof fn lemma_order_step(a: Version, b: Version, c: Version)
    requires
        !spec_version_gt(a, b),
        spec_version_gt(c, b),
    ensures
        !spec_version_gt(a, c),
{
}

/// THE UPGRADE RULE IS SOUND AND MAXIMAL: the selected version is the
/// requested one or one of the candidates, any selected candidate parses
/// strictly and is compatible with the requested version, and no
/// compatible strict-semver candidate is higher than the selection.
pub proof fn lemma_select_best_sound(
    requested: Version,
    requested_str: Seq<char>,
    candidates: Seq<Seq<char>>,
)
    ensures
        ({
            let sel = spec_select_best(requested, requested_str, candidates);
            &&& (sel.0 == requested_str && sel.1 == requested) || (exists|i: int|
                0 <= i < candidates.len() && #[trigger] candidates[i] == sel.0
                    && spec_parse_version(sel.0) == Some(sel.1) && spec_compatible(
                    sel.1,
                    requested,
                ))
            &&& forall|i: int|
                0 <= i < candidates.len() ==> match spec_parse_version(#[trigger] candidates[i]) {
                    Some(cv) => spec_compatible(cv, requested) ==> !spec_version_gt(cv, sel.1),
                    None => true,
                }
        }),
    decreases candidates.len(),
{
    if candidates.len() > 0 {
        let dl = candidates.drop_last();
        lemma_select_best_sound(requested, requested_str, dl);
        let prev = spec_select_best(requested, requested_str, dl);
        let sel = spec_select_best(requested, requested_str, candidates);
        if prev.0 != requested_str || prev.1 != requested {
            let i = choose|i: int|
                0 <= i < dl.len() && #[trigger] dl[i] == prev.0 && spec_parse_version(prev.0)
                    == Some(prev.1) && spec_compatible(prev.1, requested);
            assert(candidates[i] == prev.0);
        }
        match spec_parse_version(candidates.last()) {
            Some(v) => {
                if spec_compatible(v, requested) && spec_version_gt(v, prev.1) {
                    assert(candidates[candidates.len() - 1] == sel.0);
                    assert forall|i: int| 0 <= i < candidates.len() implies match spec_parse_version(
                        #[trigger] candidates[i],
                    ) {
                        Some(cv) => spec_compatible(cv, requested) ==> !spec_version_gt(
                            cv,
                            sel.1,
                        ),
                        None => true,
                    } by {
                        if i < dl.len() {
                            assert(candidates[i] == dl[i]);
                            if spec_parse_version(dl[i]) matches Some(cv) {
                                let cv = spec_parse_version(dl[i])->Some_0;
                                if spec_compatible(cv, requested) {
                                    lemma_order_step(cv, prev.1, v);
                                }
                            }
                        }
                    }
                } else {
                    assert(sel == prev);
                    assert forall|i: int| 0 <= i < candidates.len() implies match spec_parse_version(
                        #[trigger] candidates[i],
                    ) {
                        Some(cv) => spec_compatible(cv, requested) ==> !spec_version_gt(
                            cv,
                            sel.1,
                        ),
                        None => true,
                    } by {
                        if i < dl.len() {
                            assert(candidates[i] == dl[i]);
                        } else {
                            assert(candidates[i] == candidates.last());
                        }
                    }
                }
            },
            None => {
                assert(sel == prev);
                assert forall|i: int| 0 <= i < candidates.len() implies match spec_parse_version(
                    #[trigger] candidates[i],
                ) {
                    Some(cv) => spec_compatible(cv, requested) ==> !spec_version_gt(cv, sel.1),
                    None => true,
                } by {
                    if i < dl.len() {
                        assert(candidates[i] == dl[i]);
                    } else {
                        assert(candidates[i] == candidates.last());
                    }
                }
            },
        }
    }
}

} // verus!
