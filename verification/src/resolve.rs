//! Path normalization with symlink-aware `..` handling.
//!
//! A candidate path is joined onto the project file's directory and the
//! combined segment list is folded left to right onto an output stack.
//! Empty segments and `.` are dropped; `..` pops the stack only when the
//! stack is non-empty, its top is not itself `..`, and the path named by
//! the stack so far is not a symbolic link. Collapsing across a symlink
//! would silently change which real directory is referenced, so there the
//! literal `..` is kept instead.
//!
//! Which paths are symbolic links is injected as data (a list of
//! `/`-joined paths), so the whole computation is a function of its
//! arguments; the caller supplies the filesystem's answers.

use vstd::prelude::*;
use crate::strutil::{
    is_sep, join_segments, lemma_join_first, lemma_split_join_roundtrip, lemma_split_no_sep,
    seq_has, split_segments,
};

verus! {

/// The literal `..` segment.
pub open spec fn dotdot() -> Seq<char> {
    seq!['.', '.']
}

/// The literal `.` segment.
pub open spec fn dot() -> Seq<char> {
    seq!['.']
}

/// Whether the path joined from `stack` is recorded as a symbolic link.
pub open spec fn stack_is_link(links: Seq<Seq<char>>, stack: Seq<Seq<char>>) -> bool {
    seq_has(links, join_segments(stack))
}

/// One segment applied to the output stack, with the filesystem's answer
/// to "is the path accumulated so far a symbolic link?" given as a
/// boolean.
pub open spec fn resolve_step_at(
    stack: Seq<Seq<char>>,
    seg: Seq<char>,
    top_is_link: bool,
) -> Seq<Seq<char>> {
    if seg == Seq::<char>::empty() || seg == dot() {
        stack
    } else if seg == dotdot() {
        if stack.len() == 0 || stack.last() == dotdot() || top_is_link {
            stack.push(seg)
        } else {
            stack.drop_last()
        }
    } else {
        stack.push(seg)
    }
}

/// One segment applied to the output stack, the symbolic links given as
/// a list of recorded paths.
pub open spec fn resolve_step(
    stack: Seq<Seq<char>>,
    seg: Seq<char>,
    links: Seq<Seq<char>>,
) -> Seq<Seq<char>> {
    resolve_step_at(stack, seg, stack_is_link(links, stack))
}

/// The whole segment list folded onto a stack.
pub open spec fn resolve_onto(
    stack: Seq<Seq<char>>,
    segs: Seq<Seq<char>>,
    links: Seq<Seq<char>>,
) -> Seq<Seq<char>>
    decreases segs.len(),
{
    if segs.len() == 0 {
        stack
    } else {
        resolve_onto(resolve_step(stack, segs[0], links), segs.drop_first(), links)
    }
}

/// A path is absolute when it starts with a separator or names a rooted
/// drive (`:` in second position followed by a separator); such
/// candidates are rejected, as are empty ones. A drive-relative
/// candidate (a drive prefix with no separator after it) stays
/// relative.
pub open spec fn spec_is_absolute(s: Seq<char>) -> bool {
    (s.len() > 0 && is_sep(s[0])) || (s.len() >= 3 && s[1] == ':' && is_sep(s[2]))
}

/// The project file's directory, as segments: the split path with its
/// final segment (the file name) removed.
pub open spec fn proj_dir_segs(proj: Seq<char>) -> Seq<Seq<char>> {
    let v = split_segments(proj);
    if v.len() > 0 {
        v.drop_last()
    } else {
        v
    }
}

/// Resolution of a candidate path against a project file: `None` for an
/// empty or absolute candidate and for one that normalizes to nothing,
/// otherwise the `/`-joined normalized segments.
pub open spec fn spec_rela_path(
    proj: Seq<char>,
    x: Seq<char>,
    links: Seq<Seq<char>>,
) -> Option<Seq<char>> {
    if x.len() == 0 || spec_is_absolute(x) {
        Option::None
    } else {
        let out = resolve_onto(
            Seq::<Seq<char>>::empty(),
            proj_dir_segs(proj) + split_segments(x),
            links,
        );
        if out.len() == 0 {
            Option::None
        } else {
            Option::Some(join_segments(out))
        }
    }
}

/// The view of an optional string result.
pub open spec fn opt_str_view(r: Option<String>) -> Option<Seq<char>> {
    match r {
        Option::Some(s) => Option::Some(s@),
        Option::None => Option::None,
    }
}

/// Applies one segment to the output stack, given the filesystem's answer
/// to whether the path accumulated so far is a symbolic link.
pub fn resolve_push(stack: &mut Vec<String>, seg: &str, top_is_link: bool)
    ensures
        final(stack).deep_view() == resolve_step_at(old(stack).deep_view(), seg@, top_is_link),
{
    proof {
        reveal_strlit("");
        reveal_strlit(".");
        reveal_strlit("..");
        assert(""@ =~= Seq::<char>::empty());
        assert("."@ =~= dot());
        assert(".."@ =~= dotdot());
    }
    if crate::strutil::str_eq(seg, "") || crate::strutil::str_eq(seg, ".") {
        proof {
            assert(seg@ == Seq::<char>::empty() || seg@ == dot());
        }
        return;
    }
    if crate::strutil::str_eq(seg, "..") {
        let do_push = if stack.len() == 0 {
            true
        } else {
            let top_dots = crate::strutil::str_eq(stack[stack.len() - 1].as_str(), "..");
            proof {
                assert(old(stack).deep_view().last() == old(stack)@[old(stack)@.len() - 1]@);
            }
            top_dots || top_is_link
        };
        if do_push {
            let ghost prev = stack.deep_view();
            stack.push("..".to_owned());
            proof {
                assert(stack.deep_view() =~= prev.push(seg@));
            }
        } else {
            let ghost prev = stack.deep_view();
            let _ = stack.pop();
            proof {
                assert(stack.deep_view() =~= prev.drop_last());
            }
        }
    } else {
        let ghost prev = stack.deep_view();
        stack.push(seg.to_owned());
        proof {
            assert(stack.deep_view() =~= prev.push(seg@));
        }
    }
}

/// A stack is normalized (with respect to the recorded links) when it has
/// no empty or `.` entries and every `..` entry was kept for a reason:
/// it sits at the bottom, follows another `..`, or guards a symlink.
pub open spec fn normalized_wrt(stack: Seq<Seq<char>>, links: Seq<Seq<char>>) -> bool {
    (forall|i: int|
        0 <= i < stack.len() ==> (#[trigger] stack[i]) != Seq::<char>::empty() && stack[i] != dot())
        && (forall|i: int|
        0 <= i < stack.len() && (#[trigger] stack[i]) == dotdot() ==> i == 0 || stack[i - 1]
            == dotdot() || stack_is_link(links, stack.take(i)))
}

/// One step keeps a stack normalized.
pub proof fn lemma_step_preserves_normalized(
    stack: Seq<Seq<char>>,
    seg: Seq<char>,
    links: Seq<Seq<char>>,
)
    requires
        normalized_wrt(stack, links),
    ensures
        normalized_wrt(resolve_step(stack, seg, links), links),
{
    let out = resolve_step(stack, seg, links);
    if seg == Seq::<char>::empty() || seg == dot() {
    } else if seg == dotdot() {
        if stack.len() == 0 || stack.last() == dotdot() || stack_is_link(links, stack) {
            assert forall|i: int| 0 <= i < out.len() implies (#[trigger] out[i])
                != Seq::<char>::empty() && out[i] != dot() by {
                if i < stack.len() {
                    assert(out[i] == stack[i]);
                }
            }
            assert forall|i: int|
                0 <= i < out.len() && (#[trigger] out[i]) == dotdot() implies i == 0 || out[i - 1]
                == dotdot() || stack_is_link(links, out.take(i)) by {
                if i < stack.len() {
                    assert(out.take(i) =~= stack.take(i));
                } else {
                    assert(out.take(i) =~= stack);
                }
            }
        } else {
            assert forall|i: int|
                0 <= i < out.len() && (#[trigger] out[i]) == dotdot() implies i == 0 || out[i - 1]
                == dotdot() || stack_is_link(links, out.take(i)) by {
                assert(out[i] == stack[i]);
                assert(out.take(i) =~= stack.take(i));
                if i > 0 {
                    assert(out[i - 1] == stack[i - 1]);
                }
            }
        }
    } else {
        assert forall|i: int|
            0 <= i < out.len() && (#[trigger] out[i]) == dotdot() implies i == 0 || out[i - 1]
            == dotdot() || stack_is_link(links, out.take(i)) by {
            if i < stack.len() {
                assert(out.take(i) =~= stack.take(i));
                if i > 0 {
                    assert(out[i - 1] == stack[i - 1]);
                }
            } else {
                assert(out[i] == seg);
            }
        }
    }
}

/// Folding any segment list onto a normalized stack yields a normalized
/// stack.
pub proof fn lemma_resolve_normalized(
    stack: Seq<Seq<char>>,
    segs: Seq<Seq<char>>,
    links: Seq<Seq<char>>,
)
    requires
        normalized_wrt(stack, links),
    ensures
        normalized_wrt(resolve_onto(stack, segs, links), links),
    decreases segs.len(),
{
    if segs.len() > 0 {
        lemma_step_preserves_normalized(stack, segs[0], links);
        lemma_resolve_normalized(resolve_step(stack, segs[0], links), segs.drop_first(), links);
    }
}

/// Folding distributes over appending one segment at the end.
pub proof fn lemma_resolve_snoc(
    stack: Seq<Seq<char>>,
    segs: Seq<Seq<char>>,
    seg: Seq<char>,
    links: Seq<Seq<char>>,
)
    ensures
        resolve_onto(stack, segs.push(seg), links) == resolve_step(
            resolve_onto(stack, segs, links),
            seg,
            links,
        ),
    decreases segs.len(),
{
    if segs.len() == 0 {
        assert(segs.push(seg)[0] == seg);
        assert(segs.push(seg).drop_first() =~= Seq::<Seq<char>>::empty());
        assert(resolve_onto(stack, segs.push(seg), links) == resolve_onto(
            resolve_step(stack, seg, links),
            segs.push(seg).drop_first(),
            links,
        ));
        assert(resolve_onto(resolve_step(stack, seg, links), Seq::<Seq<char>>::empty(), links)
            == resolve_step(stack, seg, links));
        assert(resolve_onto(stack, segs, links) == stack);
    } else {
        assert(segs.push(seg)[0] == segs[0]);
        assert(segs.push(seg).drop_first() =~= segs.drop_first().push(seg));
        lemma_resolve_snoc(resolve_step(stack, segs[0], links), segs.drop_first(), seg, links);
        assert(resolve_onto(stack, segs.push(seg), links) == resolve_onto(
            resolve_step(stack, segs[0], links),
            segs.drop_first().push(seg),
            links,
        ));
        assert(resolve_onto(stack, segs, links) == resolve_onto(
            resolve_step(stack, segs[0], links),
            segs.drop_first(),
            links,
        ));
    }
}

/// A normalized stack is a fixed point of resolution.
pub proof fn lemma_normalized_fixpoint(stack: Seq<Seq<char>>, links: Seq<Seq<char>>)
    requires
        normalized_wrt(stack, links),
    ensures
        resolve_onto(Seq::<Seq<char>>::empty(), stack, links) == stack,
    decreases stack.len(),
{
    if stack.len() == 0 {
    } else {
        let w = stack.drop_last();
        assert(normalized_wrt(w, links)) by {
            assert forall|i: int|
                0 <= i < w.len() && (#[trigger] w[i]) == dotdot() implies i == 0 || w[i - 1]
                == dotdot() || stack_is_link(links, w.take(i)) by {
                assert(w[i] == stack[i]);
                assert(w.take(i) =~= stack.take(i));
                if i > 0 {
                    assert(w[i - 1] == stack[i - 1]);
                }
            }
        }
        lemma_normalized_fixpoint(w, links);
        lemma_resolve_snoc(Seq::<Seq<char>>::empty(), w, stack.last(), links);
        assert(w.push(stack.last()) =~= stack);
        let n = stack.len() - 1;
        assert(stack[n] == stack.last());
        if stack.last() == dotdot() {
            assert(stack.take(n) =~= w);
            assert(resolve_step(w, stack.last(), links) =~= stack);
        } else {
            assert(stack.last() != Seq::<char>::empty() && stack.last() != dot());
            assert(resolve_step(w, stack.last(), links) =~= stack);
        }
    }
}

/// Every entry of a resolved stack is either `..` or one of the folded
/// segments or an entry of the starting stack.
pub proof fn lemma_resolve_entries(
    stack: Seq<Seq<char>>,
    segs: Seq<Seq<char>>,
    links: Seq<Seq<char>>,
)
    ensures
        forall|i: int|
            0 <= i < resolve_onto(stack, segs, links).len() ==> (#[trigger] resolve_onto(
                stack,
                segs,
                links,
            )[i]) == dotdot() || seq_has(stack, resolve_onto(stack, segs, links)[i]) || seq_has(
                segs,
                resolve_onto(stack, segs, links)[i],
            ),
    decreases segs.len(),
{
    if segs.len() > 0 {
        let s1 = resolve_step(stack, segs[0], links);
        lemma_resolve_entries(s1, segs.drop_first(), links);
        assert forall|i: int| 0 <= i < s1.len() implies (#[trigger] s1[i]) == dotdot() || seq_has(
            stack,
            s1[i],
        ) || seq_has(segs, s1[i]) by {
            if i < stack.len() {
                assert(s1[i] == stack[i]);
            } else {
                assert(s1[i] == segs[0]);
            }
        }
        assert forall|i: int| 0 <= i < segs.drop_first().len() implies seq_has(
            segs,
            #[trigger] segs.drop_first()[i],
        ) by {
            assert(segs.drop_first()[i] == segs[i + 1]);
        }
        let out = resolve_onto(stack, segs, links);
        assert(out == resolve_onto(s1, segs.drop_first(), links));
        assert forall|i: int| 0 <= i < out.len() implies (#[trigger] out[i]) == dotdot() || seq_has(
            stack,
            out[i],
        ) || seq_has(segs, out[i]) by {
            assert(out[i] == dotdot() || seq_has(s1, out[i]) || seq_has(segs.drop_first(), out[i]));
        }
    }
}

/// Normalizing is idempotent: folding a resolved stack from an empty
/// stack reproduces it unchanged.
pub proof fn lemma_resolve_idempotent(segs: Seq<Seq<char>>, links: Seq<Seq<char>>)
    ensures
        resolve_onto(
            Seq::<Seq<char>>::empty(),
            resolve_onto(Seq::<Seq<char>>::empty(), segs, links),
            links,
        ) == resolve_onto(Seq::<Seq<char>>::empty(), segs, links),
{
    lemma_resolve_normalized(Seq::<Seq<char>>::empty(), segs, links);
    lemma_normalized_fixpoint(resolve_onto(Seq::<Seq<char>>::empty(), segs, links), links);
}

/// The resolved path, or the empty sequence where resolution refused.
pub open spec fn some_or_empty(r: Option<Seq<char>>) -> Seq<char> {
    match r {
        Option::Some(p) => p,
        Option::None => Seq::<char>::empty(),
    }
}

/// Resolution is idempotent at the string level: a path that resolution
/// produced resolves to itself.
///
/// Stated for a project file with no directory part, so that both calls
/// join the candidate onto the same (empty) base, and for results that
/// do not look like a rooted drive path (`:` in second position followed
/// by a separator), which the resolver rejects as absolute.
pub proof fn lemma_rela_path_idempotent(proj: Seq<char>, x: Seq<char>, links: Seq<Seq<char>>)
    requires
        split_segments(proj).len() == 1,
        spec_rela_path(proj, x, links) is Some,
        !spec_is_absolute(some_or_empty(spec_rela_path(proj, x, links))),
    ensures
        spec_rela_path(proj, some_or_empty(spec_rela_path(proj, x, links)), links)
            == spec_rela_path(proj, x, links),
{
    let combined = proj_dir_segs(proj) + split_segments(x);
    let out = resolve_onto(Seq::<Seq<char>>::empty(), combined, links);
    assert(x.len() > 0 && !spec_is_absolute(x) && out.len() > 0);
    let p = join_segments(out);
    assert(spec_rela_path(proj, x, links) == Option::Some(p));
    lemma_resolve_normalized(Seq::<Seq<char>>::empty(), combined, links);
    lemma_resolve_entries(Seq::<Seq<char>>::empty(), combined, links);
    lemma_split_no_sep(proj);
    lemma_split_no_sep(x);
    assert forall|i: int| 0 <= i < out.len() implies (#[trigger] out[i]).len() > 0 by {
        if out[i].len() == 0 {
            assert(out[i] =~= Seq::<char>::empty());
        }
    }
    assert forall|i: int, j: int|
        0 <= i < out.len() && 0 <= j < out[i].len() implies !is_sep(#[trigger] out[i][j]) by {
        assert(out[i] == dotdot() || seq_has(Seq::<Seq<char>>::empty(), out[i]) || seq_has(
            combined,
            out[i],
        ));
        if out[i] == dotdot() {
            assert(out[i][j] == '.');
        } else {
            let k = choose|k: int| 0 <= k < combined.len() && combined[k] == out[i];
            if k < proj_dir_segs(proj).len() {
                assert(combined[k] == split_segments(proj)[k]);
            } else {
                assert(combined[k] == split_segments(x)[k - proj_dir_segs(proj).len()]);
            }
        }
    }
    lemma_split_join_roundtrip(out);
    lemma_join_first(out);
    assert(!is_sep(p[0]));
    assert(!spec_is_absolute(p));
    assert(proj_dir_segs(proj) + split_segments(p) =~= out);
    lemma_normalized_fixpoint(out, links);
    assert(spec_rela_path(proj, p, links) == Option::Some(join_segments(out)));
}

} // verus!
