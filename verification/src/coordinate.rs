//! Maven coordinates: the `group:artifact:version` identity of a dependency,
//! its conflict key and the repository paths derived from it.

use vstd::prelude::*;

use crate::errors::ResolveError;
use crate::strutil;

verus! {

/// The mathematical value of a coordinate: its three segments.
pub ghost struct CoordView {
    pub group: Seq<char>,
    pub artifact: Seq<char>,
    pub version: Seq<char>,
}

/// A `group:artifact:version` identity. Immutable once parsed.
#[derive(Clone, Debug, PartialEq, Eq, PartialOrd, Ord, Hash)]
pub struct MavenCoordinate {
    pub group_id: String,
    pub artifact_id: String,
    pub version: String,
}

impl View for MavenCoordinate {
    type V = CoordView;

    open spec fn view(&self) -> CoordView {
        CoordView { group: self.group_id@, artifact: self.artifact_id@, version: self.version@ }
    }
}

/// `group:artifact:version` as text.
pub open spec fn spec_coord_str(c: CoordView) -> Seq<char> {
    c.group + seq![':'] + c.artifact + seq![':'] + c.version
}

/// `group:artifact`, the version-independent conflict key.
pub open spec fn spec_coord_key(c: CoordView) -> Seq<char> {
    c.group + seq![':'] + c.artifact
}

/// The parse of a coordinate string: three non-empty colon-separated
/// segments, or nothing.
pub open spec fn spec_parse_coord(s: Seq<char>) -> Option<CoordView> {
    let parts = strutil::spec_split(s, ':');
    if parts.len() == 3 && parts[0].len() > 0 && parts[1].len() > 0 && parts[2].len() > 0 {
        Some(CoordView { group: parts[0], artifact: parts[1], version: parts[2] })
    } else {
        None
    }
}

/// The canonical repository-layout path
/// `group/with/slashes/artifact/version/artifact-version.ext`.
pub open spec fn spec_coord_path(c: CoordView, ext: Seq<char>) -> Seq<char> {
    strutil::spec_replace(c.group, seq!['.'], seq!['/']) + seq!['/'] + c.artifact + seq!['/']
        + c.version + seq!['/'] + c.artifact + seq!['-'] + c.version + seq!['.'] + ext
}

/// The metadata document path `group/with/slashes/artifact/maven-metadata.xml`.
pub open spec fn spec_metadata_path(c: CoordView) -> Seq<char> {
    strutil::spec_replace(c.group, seq!['.'], seq!['/']) + seq!['/'] + c.artifact
        + seq!['/'] + "maven-metadata.xml"@
}

impl MavenCoordinate {
    /// Parse `group:artifact:version`. Exactly three non-empty
    /// colon-separated segments succeed; everything else is a
    /// `CoordinateFormat` error carrying the offending string.
    pub fn parse(coord: &str) -> (r: Result<MavenCoordinate, ResolveError>)
        ensures
            match spec_parse_coord(coord@) {
                Some(cv) => r matches Ok(c) && c@ == cv,
                None => r matches Err(e) && e matches ResolveError::CoordinateFormat {
                    coordinate,
                } && coordinate@ == coord@,
            },
    {
        let parts = strutil::split_char(coord, ':');
        proof {
            strutil::lemma_split_len(coord@, ':');
        }
        if parts.len() != 3 {
            return Err(
                ResolveError::CoordinateFormat { coordinate: strutil::str_to_string(coord) },
            );
        }
        let group_id = parts[0].clone();
        let artifact_id = parts[1].clone();
        let version = parts[2].clone();
        proof {
            assert(group_id@ == strutil::spec_split(coord@, ':')[0]);
            assert(artifact_id@ == strutil::spec_split(coord@, ':')[1]);
            assert(version@ == strutil::spec_split(coord@, ':')[2]);
        }
        if group_id.as_str().is_empty() || artifact_id.as_str().is_empty()
            || version.as_str().is_empty() {
            return Err(
                ResolveError::CoordinateFormat { coordinate: strutil::str_to_string(coord) },
            );
        }
        Ok(MavenCoordinate { group_id, artifact_id, version })
    }

    /// `group:artifact:version` as text; the inverse of `parse`.
    pub fn to_string(&self) -> (r: String)
        ensures
            r@ == spec_coord_str(self@),
    {
        let mut out = self.group_id.clone();
        strutil::push_char(&mut out, ':');
        strutil::append_str(&mut out, self.artifact_id.as_str());
        strutil::push_char(&mut out, ':');
        strutil::append_str(&mut out, self.version.as_str());
        proof {
            assert(out@ =~= spec_coord_str(self@));
        }
        out
    }

    /// `group:artifact`, the version-independent conflict key.
    pub fn key(&self) -> (r: String)
        ensures
            r@ == spec_coord_key(self@),
    {
        let mut out = self.group_id.clone();
        strutil::push_char(&mut out, ':');
        strutil::append_str(&mut out, self.artifact_id.as_str());
        proof {
            assert(out@ =~= spec_coord_key(self@));
        }
        out
    }

    /// The repository-layout path for this coordinate with the given
    /// file extension.
    pub fn to_path(&self, extension: &str) -> (r: String)
        ensures
            r@ == spec_coord_path(self@, extension@),
    {
        proof {
            reveal_strlit(".");
            reveal_strlit("/");
        }
        let mut out = strutil::replace_str(self.group_id.as_str(), ".", "/");
        strutil::push_char(&mut out, '/');
        strutil::append_str(&mut out, self.artifact_id.as_str());
        strutil::push_char(&mut out, '/');
        strutil::append_str(&mut out, self.version.as_str());
        strutil::push_char(&mut out, '/');
        strutil::append_str(&mut out, self.artifact_id.as_str());
        strutil::push_char(&mut out, '-');
        strutil::append_str(&mut out, self.version.as_str());
        strutil::push_char(&mut out, '.');
        strutil::append_str(&mut out, extension);
        proof {
            assert("."@ =~= seq!['.']);
            assert("/"@ =~= seq!['/']);
            assert(out@ =~= spec_coord_path(self@, extension@));
        }
        out
    }

    /// The `maven-metadata.xml` path for this coordinate's artifact.
    pub fn metadata_path(&self) -> (r: String)
        ensures
            r@ == spec_metadata_path(self@),
    {
        proof {
            reveal_strlit(".");
            reveal_strlit("/");
        }
        let mut out = strutil::replace_str(self.group_id.as_str(), ".", "/");
        strutil::push_char(&mut out, '/');
        strutil::append_str(&mut out, self.artifact_id.as_str());
        strutil::push_char(&mut out, '/');
        strutil::append_str(&mut out, "maven-metadata.xml");
        proof {
            assert("."@ =~= seq!['.']);
            assert("/"@ =~= seq!['/']);
            assert(out@ =~= spec_metadata_path(self@));
        }
        out
    }
}

/// Parsing a well-formed coordinate string and serializing the result
/// returns the original string: `to_string` is a left inverse of `parse`
/// on every string that `parse` accepts.
pub proof fn lemma_parse_round_trip(s: Seq<char>)
    requires
        spec_parse_coord(s) is Some,
    ensures
        spec_coord_str(spec_parse_coord(s)->Some_0) == s,
{
    let parts = strutil::spec_split(s, ':');
    strutil::lemma_join_split(s, ':');
    assert(parts.len() == 3);
    let c = spec_parse_coord(s)->Some_0;
    assert(strutil::spec_join(parts, ':') == strutil::spec_join(parts.drop_last(), ':')
        + seq![':'] + parts.last());
    assert(parts.drop_last().len() == 2);
    assert(strutil::spec_join(parts.drop_last(), ':') == strutil::spec_join(
        parts.drop_last().drop_last(),
        ':',
    ) + seq![':'] + parts.drop_last().last());
    assert(parts.drop_last().drop_last().len() == 1);
    assert(strutil::spec_join(parts.drop_last().drop_last(), ':')
        == parts.drop_last().drop_last()[0]);
    assert(parts.drop_last().drop_last()[0] == parts[0]);
    assert(parts.drop_last().last() == parts[1]);
    assert(parts.last() == parts[2]);
    assert(spec_coord_str(c) =~= parts[0] + seq![':'] + parts[1] + seq![':'] + parts[2]);
    assert(spec_coord_str(c) =~= strutil::spec_join(parts, ':'));
}

/// Serializing any coordinate whose segments are non-empty and colon-free
/// and parsing the result returns the same coordinate: the round trip in
/// the other direction.
pub proof fn lemma_to_string_parse_round_trip(c: CoordView)
    requires
        c.group.len() > 0,
        c.artifact.len() > 0,
        c.version.len() > 0,
        !c.group.contains(':'),
        !c.artifact.contains(':'),
        !c.version.contains(':'),
    ensures
        spec_parse_coord(spec_coord_str(c)) == Some(c),
{
    let s = spec_coord_str(c);
    let parts = seq![c.group, c.artifact, c.version];
    assert forall|i: int| 0 <= i < parts.len() implies !(#[trigger] parts[i]).contains(':') by {
        if i == 0 {
            assert(parts[i] == c.group);
        } else if i == 1 {
            assert(parts[i] == c.artifact);
        } else {
            assert(parts[i] == c.version);
        }
    }
    strutil::lemma_split_join(parts, ':');
    assert(parts.drop_last() =~= seq![c.group, c.artifact]);
    assert(parts.drop_last().drop_last() =~= seq![c.group]);
    assert(strutil::spec_join(parts.drop_last().drop_last(), ':') == c.group);
    assert(strutil::spec_join(parts.drop_last(), ':') == c.group + seq![':'] + c.artifact);
    assert(strutil::spec_join(parts, ':') == c.group + seq![':'] + c.artifact + seq![':']
        + c.version);
    assert(strutil::spec_split(s, ':') =~= parts);
    assert(spec_parse_coord(s) == Some(c));
}

} // verus!
