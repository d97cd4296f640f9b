//! Verified character-level string utilities: splitting, joining, searching,
//! trimming and decimal formatting/parsing, with exact sequence-level
//! specifications.

use vstd::prelude::*;

verus! {

/// Relies on std's `String::push`: appends exactly one character.
#[verifier::external_body]
pub fn push_char(s: &mut String, c: char)
    ensures
        final(s)@ == old(s)@.push(c),
{
    s.push(c);
}

/// Append every character of `t` to `s`.
pub fn append_str(s: &mut String, t: &str)
    ensures
        final(s)@ == old(s)@ + t@,
{
    s.append(t);
}

/// Compare two string slices character by character.
pub fn str_eq(a: &str, b: &str) -> (r: bool)
    ensures
        r == (a@ == b@),
{
    let an = a.unicode_len();
    let bn = b.unicode_len();
    if an != bn {
        assert(a@ != b@) by {
            assert(a@.len() != b@.len());
        }
        return false;
    }
    let mut i: usize = 0;
    while i < an
        invariant
            i <= an,
            an == a@.len(),
            an == b@.len(),
            forall|j: int| 0 <= j < i ==> a@[j] == b@[j],
        decreases an - i,
    {
        if a.get_char(i) != b.get_char(i) {
            return false;
        }
        i += 1;
    }
    proof {
        assert(a@ =~= b@);
    }
    true
}

/// Copy a string slice into an owned `String`.
pub fn str_to_string(s: &str) -> (r: String)
    ensures
        r@ == s@,
{
    s.to_owned()
}

/// Splitting a character sequence at every occurrence of `sep`,
/// defined by folding over the characters from the left.
pub open spec fn spec_split(s: Seq<char>, sep: char) -> Seq<Seq<char>>
    decreases s.len(),
{
    if s.len() == 0 {
        seq![Seq::<char>::empty()]
    } else {
        let rest = spec_split(s.drop_last(), sep);
        if s.last() == sep {
            rest.push(Seq::<char>::empty())
        } else {
            rest.drop_last().push(rest.last().push(s.last()))
        }
    }
}

/// Joining a sequence of parts with `sep` between them.
pub open spec fn spec_join(parts: Seq<Seq<char>>, sep: char) -> Seq<char>
    decreases parts.len(),
{
    if parts.len() == 0 {
        Seq::<char>::empty()
    } else if parts.len() == 1 {
        parts[0]
    } else {
        spec_join(parts.drop_last(), sep) + seq![sep] + parts.last()
    }
}

/// A split always produces at least one part.
pub proof fn lemma_split_len(s: Seq<char>, sep: char)
    ensures
        spec_split(s, sep).len() >= 1,
    decreases s.len(),
{
    if s.len() > 0 {
        lemma_split_len(s.drop_last(), sep);
    }
}

/// Joining the parts of a split restores the original sequence.
pub proof fn lemma_join_split(s: Seq<char>, sep: char)
    ensures
        spec_join(spec_split(s, sep), sep) == s,
    decreases s.len(),
{
    lemma_split_len(s, sep);
    if s.len() == 0 {
        assert(spec_join(spec_split(s, sep), sep) =~= s);
    } else {
        let t = s.drop_last();
        lemma_join_split(t, sep);
        lemma_split_len(t, sep);
        let rest = spec_split(t, sep);
        if s.last() == sep {
            let parts = rest.push(Seq::<char>::empty());
            assert(parts.drop_last() =~= rest);
            if parts.len() == 1 {
                assert(rest.len() == 0);
            } else {
                assert(spec_join(parts, sep) =~= spec_join(rest, sep) + seq![sep]);
                assert(spec_join(parts, sep) =~= s);
            }
        } else {
            let parts = rest.drop_last().push(rest.last().push(s.last()));
            if rest.len() == 1 {
                assert(parts.len() == 1);
                assert(spec_join(rest, sep) == rest[0]);
                assert(rest[0] == t);
                assert(parts[0] =~= t.push(s.last()));
                assert(s =~= t.push(s.last()));
                assert(spec_join(parts, sep) =~= s);
            } else {
                assert(parts.last() =~= rest.last().push(s.last()));
                assert(parts.drop_last() =~= rest.drop_last());
                assert(spec_join(rest, sep) =~= spec_join(rest.drop_last(), sep) + seq![sep]
                    + rest.last());
                assert(spec_join(parts, sep) =~= spec_join(rest.drop_last(), sep) + seq![sep]
                    + rest.last().push(s.last()));
                assert(spec_join(parts, sep) =~= (spec_join(rest.drop_last(), sep) + seq![sep]
                    + rest.last()).push(s.last()));
                assert(spec_join(parts, sep) =~= t.push(s.last()));
                assert(s =~= t.push(s.last()));
                assert(spec_join(parts, sep) =~= s);
            }
        }
    }
}

/// A separator-free sequence splits into itself alone.
pub proof fn lemma_split_single(s: Seq<char>, sep: char)
    requires
        !s.contains(sep),
    ensures
        spec_split(s, sep) =~= seq![s],
    decreases s.len(),
{
    if s.len() == 0 {
        assert(s =~= Seq::<char>::empty());
        assert(spec_split(s, sep) =~= seq![s]);
    } else {
        let t = s.drop_last();
        assert(s.contains(s.last())) by {
            assert(s[s.len() - 1] == s.last());
        }
        assert(s.last() != sep);
        assert forall|i: int| 0 <= i < t.len() implies t[i] != sep by {
            assert(s[i] == t[i]);
            assert(s.contains(s[i]));
        }
        assert(!t.contains(sep));
        lemma_split_single(t, sep);
        let rest = spec_split(t, sep);
        assert(rest =~= seq![t]);
        assert(spec_split(s, sep) =~= rest.drop_last().push(rest.last().push(s.last())));
        assert(rest.last().push(s.last()) =~= s);
        assert(spec_split(s, sep) =~= seq![s]);
    }
}

/// Splitting around an explicit separator splits each side independently.
pub proof fn lemma_split_concat(x: Seq<char>, y: Seq<char>, sep: char)
    ensures
        spec_split(x + seq![sep] + y, sep) =~= spec_split(x, sep) + spec_split(y, sep),
    decreases y.len(),
{
    lemma_split_len(x, sep);
    lemma_split_len(y, sep);
    let s = x + seq![sep] + y;
    if y.len() == 0 {
        assert(s.len() == x.len() + 1);
        assert(s.last() == sep);
        assert(s.drop_last() =~= x);
        assert(spec_split(s, sep) =~= spec_split(x, sep).push(Seq::<char>::empty()));
        assert(spec_split(y, sep) =~= seq![Seq::<char>::empty()]);
        assert(spec_split(x, sep) + spec_split(y, sep) =~= spec_split(x, sep).push(
            Seq::<char>::empty(),
        ));
    } else {
        let y1 = y.drop_last();
        lemma_split_concat(x, y1, sep);
        lemma_split_len(y1, sep);
        assert(s.len() > 0);
        assert(s.last() == y.last());
        assert(s.drop_last() =~= x + seq![sep] + y1);
        let r = spec_split(x, sep) + spec_split(y1, sep);
        assert(spec_split(s.drop_last(), sep) =~= r);
        if y.last() == sep {
            assert(spec_split(s, sep) =~= r.push(Seq::<char>::empty()));
            assert(spec_split(y, sep) =~= spec_split(y1, sep).push(Seq::<char>::empty()));
            assert(spec_split(x, sep) + spec_split(y, sep) =~= r.push(Seq::<char>::empty()));
        } else {
            assert(spec_split(s, sep) =~= r.drop_last().push(r.last().push(s.last())));
            assert(r.last() == spec_split(y1, sep).last());
            assert(r.drop_last() =~= spec_split(x, sep) + spec_split(y1, sep).drop_last());
            assert(spec_split(y, sep) =~= spec_split(y1, sep).drop_last().push(
                spec_split(y1, sep).last().push(y.last()),
            ));
            assert(spec_split(x, sep) + spec_split(y, sep) =~= r.drop_last().push(
                r.last().push(s.last()),
            ));
        }
    }
}

/// Splitting the join of separator-free parts gives back the parts.
pub proof fn lemma_split_join(parts: Seq<Seq<char>>, sep: char)
    requires
        parts.len() >= 1,
        forall|i: int| 0 <= i < parts.len() ==> !(#[trigger] parts[i]).contains(sep),
    ensures
        spec_split(spec_join(parts, sep), sep) =~= parts,
    decreases parts.len(),
{
    if parts.len() == 1 {
        assert(spec_join(parts, sep) == parts[0]);
        lemma_split_single(parts[0], sep);
        assert(spec_split(spec_join(parts, sep), sep) =~= seq![parts[0]]);
        assert(seq![parts[0]] =~= parts);
    } else {
        let front = parts.drop_last();
        assert(forall|i: int| 0 <= i < front.len() ==> !(#[trigger] front[i]).contains(sep))
            by {
            assert forall|i: int| 0 <= i < front.len() implies !(#[trigger] front[i]).contains(
                sep,
            ) by {
                assert(front[i] == parts[i]);
            }
        }
        lemma_split_join(front, sep);
        lemma_split_single(parts.last(), sep);
        lemma_split_concat(spec_join(front, sep), parts.last(), sep);
        assert(spec_join(parts, sep) == spec_join(front, sep) + seq![sep] + parts.last());
        assert(spec_split(spec_join(parts, sep), sep) =~= spec_split(spec_join(front, sep), sep)
            + spec_split(parts.last(), sep));
        assert(spec_split(spec_join(parts, sep), sep) =~= front + seq![parts.last()]);
        assert(front + seq![parts.last()] =~= parts);
    }
}

/// Split an owned string at every occurrence of `sep`.
pub fn split_char(s: &str, sep: char) -> (r: Vec<String>)
    ensures
        r.deep_view() == spec_split(s@, sep),
{
    let n = s.unicode_len();
    let mut parts: Vec<String> = Vec::new();
    let mut cur = String::new();
    let mut i: usize = 0;
    proof {
        assert(parts.deep_view().push(cur@) =~= spec_split(s@.subrange(0, 0), sep));
    }
    while i < n
        invariant
            i <= n,
            n == s@.len(),
            parts.deep_view().push(cur@) == spec_split(s@.subrange(0, i as int), sep),
        decreases n - i,
    {
        let c = s.get_char(i);
        let ghost pre = s@.subrange(0, i as int);
        let ghost post = s@.subrange(0, i + 1 as int);
        proof {
            assert(post.drop_last() =~= pre);
            assert(post.last() == s@[i as int]);
        }
        if c == sep {
            let ghost old_parts = parts.deep_view();
            parts.push(cur);
            cur = String::new();
            proof {
                assert(parts.deep_view() =~= old_parts.push(spec_split(pre, sep).last()));
                assert(parts.deep_view() =~= spec_split(pre, sep));
                assert(parts.deep_view().push(cur@) =~= spec_split(post, sep));
            }
        } else {
            let ghost old_cur = cur@;
            push_char(&mut cur, c);
            proof {
                let rest = spec_split(pre, sep);
                lemma_split_len(pre, sep);
                assert(parts.deep_view() =~= rest.drop_last());
                assert(cur@ =~= rest.last().push(s@[i as int]));
                assert(parts.deep_view().push(cur@) =~= spec_split(post, sep));
            }
        }
        i += 1;
    }
    proof {
        assert(s@.subrange(0, n as int) =~= s@);
    }
    let ghost old_parts = parts.deep_view();
    let ghost last_cur = cur@;
    parts.push(cur);
    proof {
        assert(parts.deep_view() =~= old_parts.push(last_cur));
    }
    parts
}

/// Lexicographic order on character sequences: the order Rust's own
/// string ordering gives, since Unicode scalar values compare like their
/// UTF-8 bytes.
pub open spec fn spec_str_le(a: Seq<char>, b: Seq<char>) -> bool
    decreases a.len(),
{
    if a.len() == 0 {
        true
    } else if b.len() == 0 {
        false
    } else if a[0] != b[0] {
        a[0] < b[0]
    } else {
        spec_str_le(a.drop_first(), b.drop_first())
    }
}

/// The lexicographic order is total.
pub proof fn lemma_str_le_total(a: Seq<char>, b: Seq<char>)
    ensures
        spec_str_le(a, b) || spec_str_le(b, a),
    decreases a.len(),
{
    if a.len() > 0 && b.len() > 0 && a[0] == b[0] {
        lemma_str_le_total(a.drop_first(), b.drop_first());
    }
}

/// Lexicographic comparison of two string slices.
pub fn str_le(a: &str, b: &str) -> (r: bool)
    ensures
        r == spec_str_le(a@, b@),
{
    let an = a.unicode_len();
    let bn = b.unicode_len();
    let mut i: usize = 0;
    proof {
        assert(a@.skip(0) =~= a@);
        assert(b@.skip(0) =~= b@);
    }
    while i < an && i < bn
        invariant
            i <= an,
            i <= bn,
            an == a@.len(),
            bn == b@.len(),
            spec_str_le(a@, b@) == spec_str_le(a@.skip(i as int), b@.skip(i as int)),
        decreases an - i,
    {
        let ca = a.get_char(i);
        let cb = b.get_char(i);
        proof {
            assert(a@.skip(i as int)[0] == a@[i as int]);
            assert(b@.skip(i as int)[0] == b@[i as int]);
            assert(a@.skip(i as int).drop_first() =~= a@.skip(i + 1));
            assert(b@.skip(i as int).drop_first() =~= b@.skip(i + 1));
        }
        if ca != cb {
            return ca < cb;
        }
        i += 1;
    }
    proof {
        if i == an {
            assert(a@.skip(i as int) =~= Seq::<char>::empty());
        } else {
            assert(b@.skip(i as int) =~= Seq::<char>::empty());
            assert(a@.skip(i as int).len() > 0);
        }
    }
    an <= bn
}

/// Whether a string slice contains a given character.
pub fn contains_char(s: &str, c: char) -> (r: bool)
    ensures
        r == s@.contains(c),
{
    let n = s.unicode_len();
    let mut i: usize = 0;
    while i < n
        invariant
            i <= n,
            n == s@.len(),
            forall|j: int| 0 <= j < i ==> s@[j] != c,
        decreases n - i,
    {
        if s.get_char(i) == c {
            assert(s@.contains(c)) by {
                assert(s@[i as int] == c);
            }
            return true;
        }
        i += 1;
    }
    proof {
        assert(!s@.contains(c)) by {
            if s@.contains(c) {
                let j = choose|j: int| 0 <= j < s@.len() && s@[j] == c;
            }
        }
    }
    false
}

/// Whether a vector of strings contains one with this view.
pub fn vec_contains_str(v: &Vec<String>, x: &str) -> (r: bool)
    ensures
        r == v.deep_view().contains(x@),
{
    let mut i: usize = 0;
    while i < v.len()
        invariant
            i <= v.len(),
            v.deep_view().len() == v@.len(),
            forall|k: int| 0 <= k < v@.len() ==> v.deep_view()[k] == (#[trigger] v@[k])@,
            forall|k: int| 0 <= k < i ==> v.deep_view()[k] != x@,
        decreases v.len() - i,
    {
        if str_eq(v[i].as_str(), x) {
            assert(v.deep_view()[i as int] == x@);
            return true;
        }
        i += 1;
    }
    false
}

/// Whether `s` has `pat` as a prefix.
pub open spec fn spec_starts_with(s: Seq<char>, pat: Seq<char>) -> bool {
    pat.len() <= s.len() && s.subrange(0, pat.len() as int) == pat
}

/// Whether `pat` occurs anywhere in `s`.
pub open spec fn spec_contains_sub(s: Seq<char>, pat: Seq<char>) -> bool {
    exists|i: int|
        0 <= i && i + pat.len() <= s.len() && #[trigger] s.subrange(i, i + pat.len() as int)
            == pat
}

/// Prefix test on string slices.
pub fn starts_with(s: &str, pat: &str) -> (r: bool)
    ensures
        r == spec_starts_with(s@, pat@),
{
    let n = s.unicode_len();
    let m = pat.unicode_len();
    if m > n {
        return false;
    }
    let mut i: usize = 0;
    while i < m
        invariant
            i <= m,
            m <= n,
            n == s@.len(),
            m == pat@.len(),
            forall|j: int| 0 <= j < i ==> s@[j] == pat@[j],
        decreases m - i,
    {
        if s.get_char(i) != pat.get_char(i) {
            assert(s@.subrange(0, m as int)[i as int] != pat@[i as int]);
            return false;
        }
        i += 1;
    }
    proof {
        assert(s@.subrange(0, m as int) =~= pat@);
    }
    true
}

/// Whether `pat` occurs at position `i` of `s`.
fn matches_at(s: &str, pat: &str, i: usize) -> (r: bool)
    requires
        i + pat@.len() <= s@.len(),
    ensures
        r == (s@.subrange(i as int, i + pat@.len() as int) == pat@),
{
    let n = s.unicode_len();
    let m = pat.unicode_len();
    let mut j: usize = 0;
    while j < m
        invariant
            j <= m,
            m == pat@.len(),
            n == s@.len(),
            i + m <= s@.len(),
            forall|k: int| 0 <= k < j ==> s@[i + k] == pat@[k],
        decreases m - j,
    {
        if s.get_char(i + j) != pat.get_char(j) {
            assert(s@.subrange(i as int, i + m as int)[j as int] != pat@[j as int]);
            return false;
        }
        j += 1;
    }
    proof {
        assert(s@.subrange(i as int, i + m as int) =~= pat@);
    }
    true
}

/// Substring search.
pub fn contains_sub(s: &str, pat: &str) -> (r: bool)
    ensures
        r == spec_contains_sub(s@, pat@),
{
    let n = s.unicode_len();
    let m = pat.unicode_len();
    if m > n {
        return false;
    }
    if m == 0 {
        proof {
            assert(s@.subrange(0, 0 + pat@.len() as int) =~= pat@);
            assert(spec_contains_sub(s@, pat@));
        }
        return true;
    }
    let mut i: usize = 0;
    while i <= n - m
        invariant
            m <= n,
            m >= 1,
            n == s@.len(),
            m == pat@.len(),
            i <= n - m + 1,
            forall|k: int| 0 <= k < i ==> #[trigger] s@.subrange(k, k + m as int) != pat@,
        decreases n - i,
    {
        if matches_at(s, pat, i) {
            return true;
        }
        i += 1;
    }
    false
}

/// Replacing every occurrence of a non-empty pattern, scanning from the left.
pub open spec fn spec_replace(s: Seq<char>, pat: Seq<char>, rep: Seq<char>) -> Seq<char>
    decreases s.len(),
{
    if pat.len() == 0 || s.len() < pat.len() {
        s
    } else if s.subrange(0, pat.len() as int) == pat {
        rep + spec_replace(s.skip(pat.len() as int), pat, rep)
    } else {
        seq![s[0]] + spec_replace(s.drop_first(), pat, rep)
    }
}

/// Replace every occurrence of `pat` in `s` with `rep`.
pub fn replace_str(s: &str, pat: &str, rep: &str) -> (r: String)
    requires
        pat@.len() > 0,
    ensures
        r@ == spec_replace(s@, pat@, rep@),
{
    let n = s.unicode_len();
    let m = pat.unicode_len();
    let mut out = String::new();
    let mut i: usize = 0;
    proof {
        assert(s@.skip(0) =~= s@);
        assert(out@ + spec_replace(s@, pat@, rep@) =~= spec_replace(s@, pat@, rep@));
    }
    while i < n
        invariant
            i <= n,
            n == s@.len(),
            m == pat@.len(),
            m > 0,
            out@ + spec_replace(s@.skip(i as int), pat@, rep@) == spec_replace(s@, pat@, rep@),
        decreases n - i,
    {
        let ghost tail = s@.skip(i as int);
        let ghost prev = out@;
        if m <= n - i && matches_at(s, pat, i) {
            proof {
                assert(tail.subrange(0, m as int) =~= s@.subrange(i as int, i + m as int));
                assert(tail.skip(m as int) =~= s@.skip(i + m as int));
                assert(spec_replace(tail, pat@, rep@) == rep@ + spec_replace(
                    s@.skip(i + m as int),
                    pat@,
                    rep@,
                ));
            }
            append_str(&mut out, rep);
            proof {
                assert(out@ + spec_replace(s@.skip(i + m as int), pat@, rep@) =~= prev
                    + spec_replace(tail, pat@, rep@));
            }
            i += m;
        } else {
            proof {
                if i + m <= n {
                    assert(tail.subrange(0, m as int) =~= s@.subrange(i as int, i + m as int));
                } else {
                    assert(tail.len() < m);
                }
                assert(tail.drop_first() =~= s@.skip(i + 1));
                assert(tail[0] == s@[i as int]);
                assert(spec_replace(tail, pat@, rep@) == seq![s@[i as int]] + spec_replace(
                    s@.skip(i + 1),
                    pat@,
                    rep@,
                ));
            }
            let c = s.get_char(i);
            push_char(&mut out, c);
            proof {
                assert(out@ + spec_replace(s@.skip(i + 1), pat@, rep@) =~= prev + spec_replace(
                    tail,
                    pat@,
                    rep@,
                ));
            }
            i += 1;
        }
    }
    proof {
        assert(s@.skip(n as int) =~= Seq::<char>::empty());
        assert(out@ =~= out@ + spec_replace(s@.skip(n as int), pat@, rep@));
    }
    out
}

/// ASCII whitespace, the characters the trimming functions remove.
pub open spec fn is_space(c: char) -> bool {
    c == ' ' || c == '\t' || c == '\n' || c == '\r'
}

/// Longest suffix of `s` that does not start with whitespace.
pub open spec fn spec_trim_start(s: Seq<char>) -> Seq<char>
    decreases s.len(),
{
    if s.len() > 0 && is_space(s[0]) {
        spec_trim_start(s.drop_first())
    } else {
        s
    }
}

/// Longest prefix of `s` that does not end with whitespace.
pub open spec fn spec_trim_end(s: Seq<char>) -> Seq<char>
    decreases s.len(),
{
    if s.len() > 0 && is_space(s.last()) {
        spec_trim_end(s.drop_last())
    } else {
        s
    }
}

/// Both-sided whitespace trim.
pub open spec fn spec_trim(s: Seq<char>) -> Seq<char> {
    spec_trim_end(spec_trim_start(s))
}

/// Exec test for the whitespace class.
fn is_space_exec(c: char) -> (r: bool)
    ensures
        r == is_space(c),
{
    c == ' ' || c == '\t' || c == '\n' || c == '\r'
}

/// Copy the characters `s[from..to]` into a fresh string.
pub fn substring_copy(s: &str, from: usize, to: usize) -> (r: String)
    requires
        from <= to,
        to <= s@.len(),
    ensures
        r@ == s@.subrange(from as int, to as int),
{
    let mut out = String::new();
    let mut i: usize = from;
    proof {
        assert(out@ =~= s@.subrange(from as int, from as int));
    }
    while i < to
        invariant
            from <= i <= to,
            to <= s@.len(),
            out@ == s@.subrange(from as int, i as int),
        decreases to - i,
    {
        let c = s.get_char(i);
        push_char(&mut out, c);
        proof {
            assert(out@ =~= s@.subrange(from as int, i + 1 as int));
        }
        i += 1;
    }
    out
}

/// Trim ASCII whitespace from both ends.
pub fn trim(s: &str) -> (r: String)
    ensures
        r@ == spec_trim(s@),
{
    let n = s.unicode_len();
    let mut start: usize = 0;
    proof {
        assert(s@.skip(0) =~= s@);
    }
    while start < n && is_space_exec(s.get_char(start))
        invariant
            start <= n,
            n == s@.len(),
            spec_trim_start(s@) == spec_trim_start(s@.skip(start as int)),
        decreases n - start,
    {
        proof {
            assert(s@.skip(start as int).drop_first() =~= s@.skip(start + 1));
            assert(s@.skip(start as int)[0] == s@[start as int]);
        }
        start += 1;
    }
    proof {
        if start < n {
            assert(s@.skip(start as int)[0] == s@[start as int]);
            assert(spec_trim_start(s@.skip(start as int)) == s@.skip(start as int));
        } else {
            assert(s@.skip(start as int) =~= Seq::<char>::empty());
        }
        assert(spec_trim_start(s@) == s@.skip(start as int));
        assert(s@.skip(start as int) =~= s@.subrange(start as int, n as int));
    }
    let mut end: usize = n;
    while end > start && is_space_exec(s.get_char(end - 1))
        invariant
            start <= end <= n,
            n == s@.len(),
            spec_trim_start(s@) == s@.skip(start as int),
            spec_trim_end(s@.subrange(start as int, end as int)) == spec_trim_end(
                s@.subrange(start as int, n as int),
            ),
        decreases end,
    {
        proof {
            assert(s@.subrange(start as int, end as int).drop_last() =~= s@.subrange(
                start as int,
                end - 1 as int,
            ));
            assert(s@.subrange(start as int, end as int).last() == s@[end - 1]);
        }
        end -= 1;
    }
    proof {
        let mid = s@.subrange(start as int, end as int);
        if end > start {
            assert(mid.last() == s@[end - 1]);
            assert(spec_trim_end(mid) == mid);
        } else {
            assert(mid =~= Seq::<char>::empty());
        }
        assert(s@.skip(start as int) =~= s@.subrange(start as int, n as int));
    }
    substring_copy(s, start, end)
}

/// Longest suffix of `s` that does not start with `c`.
pub open spec fn spec_strip_leading(s: Seq<char>, c: char) -> Seq<char>
    decreases s.len(),
{
    if s.len() > 0 && s[0] == c {
        spec_strip_leading(s.drop_first(), c)
    } else {
        s
    }
}

/// Longest prefix of `s` that does not end with `c`.
pub open spec fn spec_strip_trailing(s: Seq<char>, c: char) -> Seq<char>
    decreases s.len(),
{
    if s.len() > 0 && s.last() == c {
        spec_strip_trailing(s.drop_last(), c)
    } else {
        s
    }
}

/// Remove every copy of `c` at the start of `s`.
pub fn strip_leading(s: &str, c: char) -> (r: String)
    ensures
        r@ == spec_strip_leading(s@, c),
{
    let n = s.unicode_len();
    let mut start: usize = 0;
    proof {
        assert(s@.skip(0) =~= s@);
    }
    while start < n && s.get_char(start) == c
        invariant
            start <= n,
            n == s@.len(),
            spec_strip_leading(s@, c) == spec_strip_leading(s@.skip(start as int), c),
        decreases n - start,
    {
        proof {
            assert(s@.skip(start as int).drop_first() =~= s@.skip(start + 1));
            assert(s@.skip(start as int)[0] == s@[start as int]);
        }
        start += 1;
    }
    proof {
        if start < n {
            assert(s@.skip(start as int)[0] == s@[start as int]);
            assert(spec_strip_leading(s@.skip(start as int), c) == s@.skip(start as int));
        } else {
            assert(s@.skip(start as int) =~= Seq::<char>::empty());
        }
        assert(s@.skip(start as int) =~= s@.subrange(start as int, n as int));
    }
    substring_copy(s, start, n)
}

/// Remove every copy of `c` at the end of `s`.
pub fn strip_trailing(s: &str, c: char) -> (r: String)
    ensures
        r@ == spec_strip_trailing(s@, c),
{
    let n = s.unicode_len();
    let mut end: usize = n;
    proof {
        assert(s@.subrange(0, n as int) =~= s@);
    }
    while end > 0 && s.get_char(end - 1) == c
        invariant
            end <= n,
            n == s@.len(),
            spec_strip_trailing(s@, c) == spec_strip_trailing(s@.subrange(0, end as int), c),
        decreases end,
    {
        proof {
            assert(s@.subrange(0, end as int).drop_last() =~= s@.subrange(0, end - 1 as int));
            assert(s@.subrange(0, end as int).last() == s@[end - 1]);
        }
        end -= 1;
    }
    proof {
        let mid = s@.subrange(0, end as int);
        if end > 0 {
            assert(mid.last() == s@[end - 1]);
            assert(spec_strip_trailing(mid, c) == mid);
        } else {
            assert(mid =~= Seq::<char>::empty());
        }
    }
    substring_copy(s, 0, end)
}

/// The numeric value of a sequence of decimal digits.
pub open spec fn digits_val(s: Seq<char>) -> int
    decreases s.len(),
{
    if s.len() == 0 {
        0
    } else {
        digits_val(s.drop_last()) * 10 + (s.last() as int - '0' as int)
    }
}

/// Whether `s` is a non-empty run of ASCII decimal digits.
pub open spec fn is_digits(s: Seq<char>) -> bool {
    s.len() > 0 && forall|i: int| 0 <= i < s.len() ==> '0' <= #[trigger] s[i] <= '9'
}

/// Once a digit prefix exceeds a bound, every all-digit extension does too.
proof fn lemma_digits_val_grows(s: Seq<char>, i: int, bound: int)
    requires
        0 <= i <= s.len(),
        bound >= 0,
        digits_val(s.subrange(0, i)) > bound,
        forall|j: int| 0 <= j < s.len() ==> '0' <= #[trigger] s[j] <= '9',
    ensures
        digits_val(s) > bound,
    decreases s.len() - i,
{
    if i < s.len() {
        let t = s.subrange(0, i + 1);
        let v = digits_val(s.subrange(0, i));
        assert(t.drop_last() =~= s.subrange(0, i));
        assert(t.last() == s[i]);
        assert(digits_val(t) == v * 10 + (s[i] as int - '0' as int));
        assert(v * 10 == v + v * 9);
        assert(v * 9 >= 9) by {
            assert(v >= 1);
            assert(v * 9 >= 1 * 9) by (nonlinear_arith)
                requires
                    v >= 1,
            ;
        }
        lemma_digits_val_grows(s, i + 1, bound);
    } else {
        assert(s.subrange(0, i) =~= s);
    }
}

/// Parse a run of decimal digits as a `u32`; `None` when the text is not
/// all digits, is empty, or the value does not fit.
pub fn parse_u32(s: &str) -> (r: Option<u32>)
    ensures
        match r {
            Some(v) => is_digits(s@) && digits_val(s@) == v as int,
            None => !is_digits(s@) || digits_val(s@) > u32::MAX as int,
        },
{
    let n = s.unicode_len();
    if n == 0 {
        return None;
    }
    let mut acc: u64 = 0;
    let mut i: usize = 0;
    proof {
        assert(s@.subrange(0, 0) =~= Seq::<char>::empty());
    }
    while i < n
        invariant
            i <= n,
            n == s@.len(),
            n > 0,
            acc as int == digits_val(s@.subrange(0, i as int)),
            acc <= u32::MAX as u64,
            forall|j: int| 0 <= j < i ==> '0' <= #[trigger] s@[j] <= '9',
        decreases n - i,
    {
        let c = s.get_char(i);
        if !('0' <= c && c <= '9') {
            assert(!is_digits(s@));
            return None;
        }
        let d: u64 = (c as u32 as u64) - ('0' as u32 as u64);
        proof {
            assert(s@.subrange(0, i + 1 as int).drop_last() =~= s@.subrange(0, i as int));
            assert(s@.subrange(0, i + 1 as int).last() == s@[i as int]);
        }
        let next: u64 = acc * 10 + d;
        if next > u32::MAX as u64 {
            proof {
                if is_digits(s@) {
                    lemma_digits_val_grows(s@, i + 1, u32::MAX as int);
                }
            }
            return None;
        }
        acc = next;
        i += 1;
    }
    proof {
        assert(s@.subrange(0, n as int) =~= s@);
    }
    Some(acc as u32)
}

/// The character for a single decimal digit.
pub open spec fn spec_digit_char(d: int) -> char {
    if d == 0 {
        '0'
    } else if d == 1 {
        '1'
    } else if d == 2 {
        '2'
    } else if d == 3 {
        '3'
    } else if d == 4 {
        '4'
    } else if d == 5 {
        '5'
    } else if d == 6 {
        '6'
    } else if d == 7 {
        '7'
    } else if d == 8 {
        '8'
    } else {
        '9'
    }
}

/// Decimal digits of `n`, most significant first.
pub open spec fn spec_u32_digits(n: int) -> Seq<char>
    decreases n,
{
    if n < 10 {
        seq![spec_digit_char(n)]
    } else {
        spec_u32_digits(n / 10).push(spec_digit_char(n % 10))
    }
}

/// Decimal formatting of a `u64`.
pub fn u64_to_string(n: u64) -> (r: String)
    ensures
        r@ == spec_u32_digits(n as int),
{
    let mut digits: Vec<char> = Vec::new();
    let mut m = n;
    proof {
        assert(spec_u32_digits(n as int) =~= spec_u32_digits(m as int) + digits@.reverse());
    }
    loop
        invariant
            spec_u32_digits(n as int) == spec_u32_digits(m as int) + digits@.reverse(),
        decreases m,
    {
        let d = (m % 10) as u32;
        let c = digit_char(d);
        let ghost m0 = m as int;
        m = m / 10;
        if m == 0 {
            proof {
                assert(m0 < 10);
                assert(spec_u32_digits(m0) =~= seq![c]);
            }
            let mut out = String::new();
            push_char(&mut out, c);
            proof {
                assert(out@ =~= seq![c] + digits@.subrange(
                    digits@.len() as int,
                    digits@.len() as int,
                ).reverse());
            }
            let mut k = digits.len();
            while k > 0
                invariant
                    k <= digits@.len(),
                    out@ == seq![c] + digits@.subrange(k as int, digits@.len() as int).reverse(),
                decreases k,
            {
                k -= 1;
                let ch = digits[k];
                push_char(&mut out, ch);
                proof {
                    let tail = digits@.subrange(k as int, digits@.len() as int);
                    let tail1 = digits@.subrange(k + 1, digits@.len() as int);
                    assert(tail.reverse() =~= tail1.reverse().push(digits@[k as int]));
                    assert(out@ =~= seq![c] + tail.reverse());
                }
            }
            proof {
                assert(digits@.subrange(0, digits@.len() as int) =~= digits@);
                assert(out@ =~= spec_u32_digits(n as int));
            }
            return out;
        }
        proof {
            assert(m0 >= 10);
            assert(spec_u32_digits(m0) == spec_u32_digits(m0 / 10).push(spec_digit_char(m0 % 10)));
        }
        let ghost old_digits = digits@;
        digits.push(c);
        proof {
            assert(digits@.reverse() =~= seq![c] + old_digits.reverse());
            assert(spec_u32_digits(m as int) + digits@.reverse() =~= spec_u32_digits(m0)
                + old_digits.reverse());
        }
    }
}

/// The decimal digits of a non-negative number really are digit
/// characters, and they evaluate back to the number.
pub proof fn lemma_u32_digits_roundtrip(n: int)
    requires
        n >= 0,
    ensures
        is_digits(spec_u32_digits(n)),
        digits_val(spec_u32_digits(n)) == n,
    decreases n,
{
    if n < 10 {
        let ds = spec_u32_digits(n);
        assert(ds =~= seq![spec_digit_char(n)]);
        assert(ds.drop_last() =~= Seq::<char>::empty());
        assert(digits_val(Seq::<char>::empty()) == 0);
        assert(ds.last() == spec_digit_char(n));
        assert(digits_val(ds) == digits_val(ds.drop_last()) * 10 + (ds.last() as int
            - '0' as int));
        assert(digits_val(ds) == spec_digit_char(n) as int - '0' as int);
    } else {
        lemma_u32_digits_roundtrip(n / 10);
        let prev = spec_u32_digits(n / 10);
        let ds = spec_u32_digits(n);
        assert(ds == prev.push(spec_digit_char(n % 10)));
        assert(ds.drop_last() =~= prev);
        assert(ds.last() == spec_digit_char(n % 10));
        assert(digits_val(ds) == digits_val(prev) * 10 + (spec_digit_char(n % 10) as int
            - '0' as int));
        assert(spec_digit_char(n % 10) as int - '0' as int == n % 10);
        assert(forall|i: int| 0 <= i < ds.len() ==> '0' <= #[trigger] ds[i] <= '9') by {
            assert(forall|i: int| 0 <= i < prev.len() ==> '0' <= #[trigger] prev[i] <= '9');
            assert(forall|i: int|
                0 <= i < ds.len() ==> ds[i] == if i < prev.len() {
                    prev[i]
                } else {
                    spec_digit_char(n % 10)
                });
        }
    }
}

/// Exec form of `spec_digit_char` for a digit 0..=9.
fn digit_char(d: u32) -> (c: char)
    requires
        d < 10,
    ensures
        c == spec_digit_char(d as int),
{
    match d {
        0 => '0',
        1 => '1',
        2 => '2',
        3 => '3',
        4 => '4',
        5 => '5',
        6 => '6',
        7 => '7',
        8 => '8',
        _ => '9',
    }
}

/// Decimal formatting of a `u32`.
pub fn u32_to_string(n: u32) -> (r: String)
    ensures
        r@ == spec_u32_digits(n as int),
{
    let mut digits: Vec<char> = Vec::new();
    let mut m = n;
    proof {
        assert(spec_u32_digits(n as int) =~= spec_u32_digits(m as int) + digits@.reverse());
    }
    loop
        invariant
            spec_u32_digits(n as int) == spec_u32_digits(m as int) + digits@.reverse(),
        decreases m,
    {
        let d = m % 10;
        let c = digit_char(d);
        let ghost m0 = m as int;
        m = m / 10;
        if m == 0 {
            proof {
                assert(m0 < 10);
                assert(spec_u32_digits(m0) =~= seq![c]);
            }
            let mut out = String::new();
            push_char(&mut out, c);
            proof {
                assert(out@ =~= seq![c] + digits@.subrange(
                    digits@.len() as int,
                    digits@.len() as int,
                ).reverse());
            }
            let mut k = digits.len();
            while k > 0
                invariant
                    k <= digits@.len(),
                    out@ == seq![c] + digits@.subrange(k as int, digits@.len() as int).reverse(),
                decreases k,
            {
                k -= 1;
                let ch = digits[k];
                push_char(&mut out, ch);
                proof {
                    let tail = digits@.subrange(k as int, digits@.len() as int);
                    let tail1 = digits@.subrange(k + 1, digits@.len() as int);
                    assert(tail.reverse() =~= tail1.reverse().push(digits@[k as int]));
                    assert(out@ =~= seq![c] + tail.reverse());
                }
            }
            proof {
                assert(digits@.subrange(0, digits@.len() as int) =~= digits@);
                assert(out@ =~= spec_u32_digits(n as int));
            }
            return out;
        }
        proof {
            assert(m0 >= 10);
            assert(spec_u32_digits(m0) == spec_u32_digits(m0 / 10).push(spec_digit_char(m0 % 10)));
        }
        let ghost old_digits = digits@;
        digits.push(c);
        proof {
            assert(digits@.reverse() =~= seq![c] + old_digits.reverse());
            assert(spec_u32_digits(m as int) + digits@.reverse() =~= spec_u32_digits(m0)
                + old_digits.reverse());
        }
    }
}

} // verus!
