//! The project-document walk: a stream of XML events drives a stack of
//! open element names and a parallel stack of exclusion flags, and two
//! extraction rules fire on fixed element paths.
//!
//! * `Project/ItemGroup/ClCompile` (element open): the `Include`
//!   attribute, resolved, is appended to the compiled sources.
//! * `Project/ItemDefinitionGroup` (element open): a `Condition`
//!   attribute that does not contain the requested configuration label
//!   marks the scope excluded.
//! * `Project/ItemDefinitionGroup/ClCompile/AdditionalIncludeDirectories`
//!   (character data): when no enclosing scope is excluded, the text is
//!   split on `;` and each piece, resolved, is appended to the include
//!   directories.
//!
//! The walk is specified as a fold (`walk_evs`) over the event sequence,
//! so the executable walker's effect is pinned exactly, whatever events
//! the XML parser produced.

use vstd::prelude::*;
use crate::resolve::spec_rela_path;
use crate::strutil::{join_segments, spec_contains};

verus! {

/// One event of the document stream, reduced to what the walk reads.
pub enum XmlEv {
    /// An element opens, with its local name and its attributes as
    /// (name, value) pairs in document order.
    Start { name: String, attrs: Vec<(String, String)> },
    /// An element closes.
    End,
    /// Character data.
    Text(String),
    /// Anything else the parser reports (comments, processing
    /// instructions, CDATA, whitespace, the document start).
    Other,
    /// The document ended normally.
    Eof,
    /// The parser failed; the walk stops and reports failure.
    Fail,
}

/// The walker's state: the open-element stack, the parallel exclusion
/// flags, the last joined element path, and the two result lists.
pub ghost struct WalkState {
    pub paths: Seq<Seq<char>>,
    pub skip: Seq<int>,
    pub cur: Seq<char>,
    pub sources: Seq<Seq<char>>,
    pub incs: Seq<Seq<char>>,
    pub failed: bool,
    pub done: bool,
}

/// Sum of the exclusion flags: zero means no enclosing scope excludes.
pub open spec fn sum_seq(s: Seq<int>) -> int
    decreases s.len(),
{
    if s.len() == 0 {
        0
    } else {
        sum_seq(s.drop_last()) + s.last()
    }
}

pub proof fn lemma_sum_bounds(s: Seq<int>)
    requires
        forall|i: int| 0 <= i < s.len() ==> 0 <= #[trigger] s[i] <= 1,
    ensures
        0 <= sum_seq(s) <= s.len(),
    decreases s.len(),
{
    if s.len() > 0 {
        lemma_sum_bounds(s.drop_last());
    }
}

/// First attribute with the given name, if any.
pub open spec fn find_attr(attrs: Seq<(Seq<char>, Seq<char>)>, key: Seq<char>) -> Option<Seq<char>>
    decreases attrs.len(),
{
    if attrs.len() == 0 {
        Option::None
    } else if attrs[0].0 == key {
        Option::Some(attrs[0].1)
    } else {
        find_attr(attrs.drop_first(), key)
    }
}

/// First attribute with the given name, as an owned value.
pub fn find_attr_str(attrs: &Vec<(String, String)>, key: &str) -> (r: Option<String>)
    ensures
        crate::resolve::opt_str_view(r) == find_attr(attrs.deep_view(), key@),
{
    let mut j: usize = 0;
    proof {
        assert(attrs.deep_view().skip(0) =~= attrs.deep_view());
    }
    while j < attrs.len()
        invariant
            0 <= j <= attrs.len(),
            attrs.deep_view().len() == attrs.len(),
            find_attr(attrs.deep_view().skip(j as int), key@) == find_attr(
                attrs.deep_view(),
                key@,
            ),
        decreases attrs.len() - j,
    {
        proof {
            assert(attrs.deep_view().skip(j as int)[0] == attrs.deep_view()[j as int]);
            assert(attrs.deep_view().skip(j as int).drop_first() =~= attrs.deep_view().skip(j + 1));
            assert(attrs.deep_view()[j as int] == (attrs@[j as int].0@, attrs@[j as int].1@));
        }
        if crate::strutil::str_eq(attrs[j].0.as_str(), key) {
            return Option::Some(attrs[j].1.clone());
        }
        j += 1;
    }
    Option::None
}

/// Splitting character data on `;`, one character at a time.
pub open spec fn split_semi(s: Seq<char>) -> Seq<Seq<char>>
    decreases s.len(),
{
    if s.len() == 0 {
        seq![Seq::<char>::empty()]
    } else {
        let r = split_semi(s.drop_last());
        if s.last() == ';' {
            r.push(Seq::<char>::empty())
        } else {
            r.update(r.len() - 1, r.last().push(s.last()))
        }
    }
}

pub proof fn lemma_split_semi_len_pos(s: Seq<char>)
    ensures
        split_semi(s).len() >= 1,
    decreases s.len(),
{
    if s.len() > 0 {
        lemma_split_semi_len_pos(s.drop_last());
    }
}

/// Splits a string on `;`.
pub fn split_semi_str(s: &str) -> (r: Vec<String>)
    ensures
        r.deep_view() == split_semi(s@),
{
    let len = s.unicode_len();
    let mut r: Vec<String> = Vec::new();
    let mut start: usize = 0;
    let mut i: usize = 0;
    proof {
        assert(s@.subrange(0, 0) =~= Seq::<char>::empty());
        assert(s@.take(0) =~= Seq::<char>::empty());
        assert(split_semi(s@.take(0)) =~= r.deep_view().push(s@.subrange(0, 0)));
    }
    while i < len
        invariant
            0 <= start <= i <= len,
            len == s@.len(),
            r.deep_view().len() == r.len(),
            split_semi(s@.take(i as int)) == r.deep_view().push(
                s@.subrange(start as int, i as int),
            ),
        decreases len - i,
    {
        let ghost prev = r.deep_view();
        let ghost prev_start = start as int;
        let c = s.get_char(i);
        proof {
            assert(s@.take(i + 1).drop_last() =~= s@.take(i as int));
            assert(s@.take(i + 1).last() == s@[i as int]);
            lemma_split_semi_len_pos(s@.take(i as int));
        }
        if c == ';' {
            let seg = s.substring_char(start, i).to_owned();
            r.push(seg);
            start = i + 1;
            proof {
                assert(r.deep_view() =~= prev.push(s@.subrange(prev_start, i as int)));
                assert(split_semi(s@.take(i + 1)) == split_semi(s@.take(i as int)).push(
                    Seq::<char>::empty(),
                ));
                assert(s@.subrange(start as int, i + 1) =~= Seq::<char>::empty());
                assert(split_semi(s@.take(i + 1)) =~= r.deep_view().push(
                    s@.subrange(start as int, i + 1),
                ));
            }
        } else {
            proof {
                let old_segs = prev.push(s@.subrange(prev_start, i as int));
                assert(split_semi(s@.take(i + 1)) == old_segs.update(
                    old_segs.len() - 1,
                    old_segs.last().push(s@[i as int]),
                ));
                assert(s@.subrange(prev_start, i as int).push(s@[i as int]) =~= s@.subrange(
                    prev_start,
                    i + 1,
                ));
                assert(split_semi(s@.take(i + 1)) =~= r.deep_view().push(
                    s@.subrange(start as int, i + 1),
                ));
            }
        }
        i += 1;
    }
    let ghost prev = r.deep_view();
    let seg = s.substring_char(start, len).to_owned();
    r.push(seg);
    proof {
        assert(s@.take(len as int) =~= s@);
        assert(r.deep_view() =~= prev.push(s@.subrange(start as int, len as int)));
        assert(r.deep_view() =~= split_semi(s@));
    }
    r
}

/// The include directories contributed by one character-data block: each
/// `;`-separated piece that resolves, in order.
pub open spec fn resolve_pieces(
    pieces: Seq<Seq<char>>,
    proj: Seq<char>,
    links: Seq<Seq<char>>,
) -> Seq<Seq<char>>
    decreases pieces.len(),
{
    if pieces.len() == 0 {
        Seq::<Seq<char>>::empty()
    } else {
        let front = resolve_pieces(pieces.drop_last(), proj, links);
        match spec_rela_path(proj, pieces.last(), links) {
            Option::Some(p) => front.push(p),
            Option::None => front,
        }
    }
}

/// The element path of compiled sources.
pub open spec fn sources_path() -> Seq<char> {
    "Project/ItemGroup/ClCompile"@
}

/// The element path whose `Condition` attribute gates its scope.
pub open spec fn cond_path() -> Seq<char> {
    "Project/ItemDefinitionGroup"@
}

/// The element path of additional include directories.
pub open spec fn incdirs_path() -> Seq<char> {
    "Project/ItemDefinitionGroup/ClCompile/AdditionalIncludeDirectories"@
}

/// One event applied to the walker's state.
pub open spec fn walk_ev(
    st: WalkState,
    ev: XmlEv,
    cond: Seq<char>,
    proj: Seq<char>,
    links: Seq<Seq<char>>,
) -> WalkState {
    match ev {
        XmlEv::Start { name, attrs } => {
            let paths2 = st.paths.push(name@);
            let cur2 = join_segments(paths2);
            let excl = cur2 == cond_path() && match find_attr(attrs.deep_view(), "Condition"@) {
                Option::Some(v) => !spec_contains(v, cond),
                Option::None => false,
            };
            let sources2 = if cur2 == sources_path() {
                match find_attr(attrs.deep_view(), "Include"@) {
                    Option::Some(v) => match spec_rela_path(proj, v, links) {
                        Option::Some(p) => st.sources.push(p),
                        Option::None => st.sources,
                    },
                    Option::None => st.sources,
                }
            } else {
                st.sources
            };
            WalkState {
                paths: paths2,
                skip: st.skip.push(if excl { 1 } else { 0 }),
                cur: cur2,
                sources: sources2,
                ..st
            }
        },
        XmlEv::End => {
            if st.paths.len() > 0 {
                WalkState { paths: st.paths.drop_last(), skip: st.skip.drop_last(), ..st }
            } else {
                st
            }
        },
        XmlEv::Text(s) => {
            if sum_seq(st.skip) == 0 && st.cur == incdirs_path() {
                WalkState { incs: st.incs + resolve_pieces(split_semi(s@), proj, links), ..st }
            } else {
                st
            }
        },
        XmlEv::Other => st,
        XmlEv::Eof => WalkState { done: true, ..st },
        XmlEv::Fail => WalkState { failed: true, ..st },
    }
}

/// The whole event sequence applied in order, stopping at the document
/// end or at a parser failure.
pub open spec fn walk_evs(
    st: WalkState,
    evs: Seq<XmlEv>,
    cond: Seq<char>,
    proj: Seq<char>,
    links: Seq<Seq<char>>,
) -> WalkState
    decreases evs.len(),
{
    if evs.len() == 0 || st.done || st.failed {
        st
    } else {
        walk_evs(walk_ev(st, evs[0], cond, proj, links), evs.drop_first(), cond, proj, links)
    }
}

/// A stopped state absorbs any further events.
pub proof fn lemma_walk_stopped(
    st: WalkState,
    evs: Seq<XmlEv>,
    cond: Seq<char>,
    proj: Seq<char>,
    links: Seq<Seq<char>>,
)
    requires
        st.done || st.failed,
    ensures
        walk_evs(st, evs, cond, proj, links) == st,
{
}

/// Walking a concatenation walks the parts in order.
pub proof fn lemma_walk_split(
    st: WalkState,
    a: Seq<XmlEv>,
    b: Seq<XmlEv>,
    cond: Seq<char>,
    proj: Seq<char>,
    links: Seq<Seq<char>>,
)
    ensures
        walk_evs(st, a + b, cond, proj, links) == walk_evs(
            walk_evs(st, a, cond, proj, links),
            b,
            cond,
            proj,
            links,
        ),
    decreases a.len(),
{
    if a.len() == 0 {
        assert(a + b =~= b);
    } else if st.done || st.failed {
        lemma_walk_stopped(st, a + b, cond, proj, links);
        lemma_walk_stopped(st, b, cond, proj, links);
    } else {
        assert((a + b)[0] == a[0]);
        assert((a + b).drop_first() =~= a.drop_first() + b);
        lemma_walk_split(walk_ev(st, a[0], cond, proj, links), a.drop_first(), b, cond, proj, links);
    }
}

/// Walking one more event applies it to the state so far.
pub proof fn lemma_walk_snoc(
    st: WalkState,
    evs: Seq<XmlEv>,
    e: XmlEv,
    cond: Seq<char>,
    proj: Seq<char>,
    links: Seq<Seq<char>>,
)
    requires
        !walk_evs(st, evs, cond, proj, links).done,
        !walk_evs(st, evs, cond, proj, links).failed,
    ensures
        walk_evs(st, evs.push(e), cond, proj, links) == walk_ev(
            walk_evs(st, evs, cond, proj, links),
            e,
            cond,
            proj,
            links,
        ),
{
    lemma_walk_split(st, evs, seq![e], cond, proj, links);
    assert(evs + seq![e] =~= evs.push(e));
    let m = walk_evs(st, evs, cond, proj, links);
    assert(walk_evs(m, seq![e], cond, proj, links) == walk_evs(
        walk_ev(m, e, cond, proj, links),
        seq![e].drop_first(),
        cond,
        proj,
        links,
    ));
    assert(seq![e].drop_first() =~= Seq::<XmlEv>::empty());
}

} // verus!
