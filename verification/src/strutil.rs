//! String helpers for path and condition handling: splitting a path into
//! segments on `/` and `\`, joining segments with `/`, and substring
//! containment, each with an exact specification over character sequences.

use vstd::prelude::*;

verus! {

/// Path separator: MSBuild project files use both styles.
pub open spec fn is_sep(c: char) -> bool {
    c == '/' || c == '\\'
}

/// Splitting a string on path separators, one character at a time.
/// The result always has at least one (possibly empty) segment.
pub open spec fn split_segments(s: Seq<char>) -> Seq<Seq<char>>
    decreases s.len(),
{
    if s.len() == 0 {
        seq![Seq::<char>::empty()]
    } else {
        let r = split_segments(s.drop_last());
        if is_sep(s.last()) {
            r.push(Seq::<char>::empty())
        } else {
            r.update(r.len() - 1, r.last().push(s.last()))
        }
    }
}

pub proof fn lemma_split_len_pos(s: Seq<char>)
    ensures
        split_segments(s).len() >= 1,
    decreases s.len(),
{
    if s.len() > 0 {
        lemma_split_len_pos(s.drop_last());
    }
}

/// No segment produced by splitting contains a separator.
pub proof fn lemma_split_no_sep(s: Seq<char>)
    ensures
        forall|i: int, j: int|
            0 <= i < split_segments(s).len() && 0 <= j < split_segments(s)[i].len()
                ==> !is_sep(split_segments(s)[i][j]),
    decreases s.len(),
{
    if s.len() > 0 {
        lemma_split_no_sep(s.drop_last());
        lemma_split_len_pos(s.drop_last());
    }
}

/// Joining segments with `/`; the inverse of splitting for separator-free,
/// non-empty segments.
pub open spec fn join_segments(v: Seq<Seq<char>>) -> Seq<char>
    decreases v.len(),
{
    if v.len() == 0 {
        Seq::<char>::empty()
    } else if v.len() == 1 {
        v[0]
    } else {
        join_segments(v.drop_last()) + seq!['/'] + v.last()
    }
}

/// Appending separator-free text extends the last segment of a split.
pub proof fn lemma_split_append_no_sep(s: Seq<char>, t: Seq<char>)
    requires
        forall|j: int| 0 <= j < t.len() ==> !is_sep(t[j]),
    ensures
        split_segments(s + t) == split_segments(s).update(
            split_segments(s).len() - 1,
            split_segments(s).last() + t,
        ),
    decreases t.len(),
{
    lemma_split_len_pos(s);
    if t.len() == 0 {
        assert(s + t =~= s);
        assert(split_segments(s).last() + t =~= split_segments(s).last());
        assert(split_segments(s).update(
            split_segments(s).len() - 1,
            split_segments(s).last() + t,
        ) =~= split_segments(s));
    } else {
        lemma_split_append_no_sep(s, t.drop_last());
        assert((s + t).drop_last() =~= s + t.drop_last());
        assert((s + t).last() == t.last());
        let r = split_segments(s + t.drop_last());
        assert(split_segments(s + t) == r.update(r.len() - 1, r.last().push(t.last())));
        assert(r.last() == split_segments(s).last() + t.drop_last());
        assert(r.last().push(t.last()) =~= split_segments(s).last() + t);
        assert(split_segments(s + t) =~= split_segments(s).update(
            split_segments(s).len() - 1,
            split_segments(s).last() + t,
        ));
    }
}

/// Splitting after a separator starts a fresh empty segment.
pub proof fn lemma_split_push_sep(s: Seq<char>, c: char)
    requires
        is_sep(c),
    ensures
        split_segments(s + seq![c]) == split_segments(s).push(Seq::<char>::empty()),
{
    assert((s + seq![c]).drop_last() =~= s);
    assert((s + seq![c]).last() == c);
}

/// Splitting undoes joining, for non-empty separator-free segments.
pub proof fn lemma_split_join_roundtrip(v: Seq<Seq<char>>)
    requires
        v.len() >= 1,
        forall|i: int| 0 <= i < v.len() ==> (#[trigger] v[i]).len() > 0,
        forall|i: int, j: int| 0 <= i < v.len() && 0 <= j < v[i].len() ==> !is_sep(#[trigger] v[i][j]),
    ensures
        split_segments(join_segments(v)) == v,
    decreases v.len(),
{
    if v.len() == 1 {
        assert(Seq::<char>::empty() + v[0] =~= v[0]);
        lemma_split_append_no_sep(Seq::<char>::empty(), v[0]);
        assert(split_segments(Seq::<char>::empty()) =~= seq![Seq::<char>::empty()]);
        assert(split_segments(v[0]) =~= seq![v[0]]);
        assert(join_segments(v) == v[0]);
    } else {
        let w = v.drop_last();
        lemma_split_join_roundtrip(w);
        let jw = join_segments(w);
        lemma_split_push_sep(jw, '/');
        lemma_split_append_no_sep(jw + seq!['/'], v.last());
        assert(jw + seq!['/'] + v.last() =~= join_segments(v));
        assert(split_segments(jw + seq!['/']) == w.push(Seq::<char>::empty()));
        assert(Seq::<char>::empty() + v.last() =~= v.last());
        assert(split_segments(join_segments(v)) =~= v);
    }
}

/// The first character of a join is the first character of the first
/// segment, when that segment is non-empty.
pub proof fn lemma_join_first(v: Seq<Seq<char>>)
    requires
        v.len() > 0,
        v[0].len() > 0,
    ensures
        join_segments(v).len() > 0,
        join_segments(v)[0] == v[0][0],
    decreases v.len(),
{
    if v.len() > 1 {
        lemma_join_first(v.drop_last());
    }
}

/// Character-exact string equality.
pub fn str_eq(a: &str, b: &str) -> (r: bool)
    ensures
        r == (a@ == b@),
{
    let alen = a.unicode_len();
    let blen = b.unicode_len();
    if alen != blen {
        proof {
            if a@ == b@ {
                assert(a@.len() == b@.len());
            }
        }
        return false;
    }
    let mut i: usize = 0;
    while i < alen
        invariant
            0 <= i <= alen,
            alen == a@.len(),
            alen == b@.len(),
            forall|j: int| 0 <= j < i ==> a@[j] == b@[j],
        decreases alen - i,
    {
        if a.get_char(i) != b.get_char(i) {
            proof {
                if a@ == b@ {
                    assert(a@[i as int] == b@[i as int]);
                }
            }
            return false;
        }
        i += 1;
    }
    proof {
        assert(a@ =~= b@);
    }
    true
}

/// Substring containment, the way a `Condition` attribute is matched:
/// case-sensitive, anywhere in the text.
pub open spec fn spec_contains(h: Seq<char>, n: Seq<char>) -> bool {
    exists|i: int| 0 <= i && i + n.len() <= h.len() && #[trigger] h.subrange(i, i + n.len()) == n
}

/// Case-sensitive substring search.
pub fn contains_sub(hay: &str, needle: &str) -> (r: bool)
    ensures
        r == spec_contains(hay@, needle@),
{
    let hlen = hay.unicode_len();
    let nlen = needle.unicode_len();
    if nlen > hlen {
        proof {
            if spec_contains(hay@, needle@) {
                let i = choose|i: int|
                    0 <= i && i + needle@.len() <= hay@.len() && #[trigger] hay@.subrange(
                        i,
                        i + needle@.len(),
                    ) == needle@;
                assert(false);
            }
        }
        return false;
    }
    if nlen == 0 {
        proof {
            assert(hay@.subrange(0, 0 + needle@.len() as int) =~= needle@);
        }
        return true;
    }
    let mut i: usize = 0;
    while i <= hlen - nlen
        invariant
            0 <= i <= hlen - nlen + 1,
            1 <= nlen <= hlen,
            hlen == hay@.len(),
            nlen == needle@.len(),
            forall|k: int| 0 <= k < i ==> #[trigger] hay@.subrange(k, k + needle@.len()) != needle@,
        decreases hlen - nlen + 1 - i,
    {
        let mut j: usize = 0;
        let mut matched = true;
        while j < nlen
            invariant
                0 <= j <= nlen,
                0 <= i <= hlen - nlen,
                nlen <= hlen,
                hlen == hay@.len(),
                nlen == needle@.len(),
                matched ==> forall|k: int| 0 <= k < j ==> hay@[i + k] == needle@[k],
                !matched ==> hay@.subrange(i as int, i + needle@.len()) != needle@,
            decreases nlen - j,
        {
            if hay.get_char(i + j) != needle.get_char(j) {
                proof {
                    assert(hay@.subrange(i as int, i + needle@.len())[j as int] == hay@[i + j]);
                }
                matched = false;
                j = nlen;
            } else {
                j += 1;
            }
        }
        if matched {
            proof {
                assert(hay@.subrange(i as int, i + needle@.len()) =~= needle@);
            }
            return true;
        }
        i += 1;
    }
    false
}

/// Whether a sequence of strings holds one with the given view.
pub open spec fn seq_has(v: Seq<Seq<char>>, s: Seq<char>) -> bool {
    exists|i: int| 0 <= i < v.len() && v[i] == s
}

/// Linear search for a string among a vector of strings.
pub fn contains_string(v: &Vec<String>, s: &str) -> (r: bool)
    ensures
        r == seq_has(v.deep_view(), s@),
{
    let mut i: usize = 0;
    while i < v.len()
        invariant
            0 <= i <= v.len(),
            v.deep_view().len() == v.len(),
            forall|j: int| 0 <= j < i ==> v.deep_view()[j] != s@,
        decreases v.len() - i,
    {
        assert(v.deep_view()[i as int] == v@[i as int]@);
        if str_eq(v[i].as_str(), s) {
            return true;
        }
        i += 1;
    }
    false
}

/// Splits a string into segments on `/` and `\`.
pub fn split_path(s: &str) -> (r: Vec<String>)
    ensures
        r.deep_view() == split_segments(s@),
{
    let len = s.unicode_len();
    let mut r: Vec<String> = Vec::new();
    let mut start: usize = 0;
    let mut i: usize = 0;
    proof {
        assert(s@.subrange(0, 0) =~= Seq::<char>::empty());
        assert(s@.take(0) =~= Seq::<char>::empty());
        assert(split_segments(s@.take(0)) =~= r.deep_view().push(s@.subrange(0, 0)));
    }
    while i < len
        invariant
            0 <= start <= i <= len,
            len == s@.len(),
            r.deep_view().len() == r.len(),
            split_segments(s@.take(i as int)) == r.deep_view().push(
                s@.subrange(start as int, i as int),
            ),
        decreases len - i,
    {
        let ghost prev = r.deep_view();
        let ghost prev_start = start as int;
        let c = s.get_char(i);
        proof {
            assert(s@.take(i + 1).drop_last() =~= s@.take(i as int));
            assert(s@.take(i + 1).last() == s@[i as int]);
            lemma_split_len_pos(s@.take(i as int));
        }
        if c == '/' || c == '\\' {
            let seg = s.substring_char(start, i).to_owned();
            r.push(seg);
            start = i + 1;
            proof {
                assert(r.deep_view() =~= prev.push(s@.subrange(prev_start, i as int)));
                assert(split_segments(s@.take(i + 1)) == split_segments(s@.take(i as int)).push(
                    Seq::<char>::empty(),
                ));
                assert(s@.subrange(start as int, i + 1) =~= Seq::<char>::empty());
                assert(split_segments(s@.take(i + 1)) =~= r.deep_view().push(
                    s@.subrange(start as int, i + 1),
                ));
            }
        } else {
            proof {
                let old_segs = prev.push(s@.subrange(prev_start, i as int));
                assert(split_segments(s@.take(i + 1)) == old_segs.update(
                    old_segs.len() - 1,
                    old_segs.last().push(s@[i as int]),
                ));
                assert(s@.subrange(prev_start, i as int).push(s@[i as int]) =~= s@.subrange(
                    prev_start,
                    i + 1,
                ));
                assert(split_segments(s@.take(i + 1)) =~= r.deep_view().push(
                    s@.subrange(start as int, i + 1),
                ));
            }
        }
        i += 1;
    }
    let ghost prev = r.deep_view();
    let seg = s.substring_char(start, len).to_owned();
    r.push(seg);
    proof {
        assert(s@.take(len as int) =~= s@);
        assert(r.deep_view() =~= prev.push(s@.subrange(start as int, len as int)));
        assert(r.deep_view() =~= split_segments(s@));
    }
    r
}

/// Joins segments with `/`.
pub fn join_slash(v: &Vec<String>) -> (r: String)
    ensures
        r@ == join_segments(v.deep_view()),
{
    let mut r = String::new();
    let mut i: usize = 0;
    while i < v.len()
        invariant
            0 <= i <= v.len(),
            v.deep_view().len() == v.len(),
            r@ == join_segments(v.deep_view().take(i as int)),
        decreases v.len() - i,
    {
        proof {
            assert(v.deep_view().take(i + 1).drop_last() =~= v.deep_view().take(i as int));
            assert(v.deep_view().take(i + 1).last() == v.deep_view()[i as int]);
            reveal_strlit("/");
        }
        if i > 0 {
            r.append("/");
        }
        assert(v.deep_view()[i as int] == v@[i as int]@);
        r.append(v[i].as_str());
        proof {
            if i == 0 {
                assert(r@ =~= join_segments(v.deep_view().take(1)));
            } else {
                assert(r@ =~= join_segments(v.deep_view().take(i + 1)));
            }
        }
        i += 1;
    }
    proof {
        assert(v.deep_view().take(v.len() as int) =~= v.deep_view());
    }
    r
}

} // verus!
