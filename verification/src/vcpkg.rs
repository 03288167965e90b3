//! Package-manager (vcpkg) search-path assembly.
//!
//! Given the install root the caller discovered (and which candidate
//! directories actually exist on disk), these functions append the
//! platform's library and include search paths for the two `x64`
//! triplets. Discovery of the root and the existence checks are
//! filesystem work and stay with the caller.

use vstd::prelude::*;
use crate::strutil::seq_has;

verus! {

/// The `/debug` infix of debug-variant library paths.
pub open spec fn dbg_part(isdbg: bool) -> Seq<char> {
    if isdbg {
        "/debug"@
    } else {
        Seq::<char>::empty()
    }
}

/// The two candidate library directories under an install root.
pub open spec fn lib_candidates(base: Seq<char>, isdbg: bool) -> Seq<Seq<char>> {
    seq![
        base + "/installed/x64-windows-static"@ + dbg_part(isdbg) + "/lib"@,
        base + "/installed/x64-windows"@ + dbg_part(isdbg) + "/lib"@,
    ]
}

/// The two candidate include directories under an install root.
pub open spec fn inc_candidates(base: Seq<char>) -> Seq<Seq<char>> {
    seq![
        base + "/installed/x64-windows-static/include"@,
        base + "/installed/x64-windows/include"@,
    ]
}

/// The candidates kept, in order: those that are listed as existing.
pub open spec fn filter_in(v: Seq<Seq<char>>, ex: Seq<Seq<char>>) -> Seq<Seq<char>>
    decreases v.len(),
{
    if v.len() == 0 {
        Seq::<Seq<char>>::empty()
    } else {
        filter_in(v.drop_last(), ex) + (if seq_has(ex, v.last()) {
            seq![v.last()]
        } else {
            Seq::<Seq<char>>::empty()
        })
    }
}

/// Builds the candidate library directories for an install root.
pub fn lib_path_candidates(base: &str, isdbg: bool) -> (r: Vec<String>)
    ensures
        r.deep_view() == lib_candidates(base@, isdbg),
{
    let mut c1 = base.to_owned();
    c1.append("/installed/x64-windows-static");
    if isdbg {
        c1.append("/debug");
    }
    c1.append("/lib");
    let mut c2 = base.to_owned();
    c2.append("/installed/x64-windows");
    if isdbg {
        c2.append("/debug");
    }
    c2.append("/lib");
    proof {
        assert(base@ + "/installed/x64-windows-static"@ + dbg_part(isdbg) =~= (if isdbg {
            base@ + "/installed/x64-windows-static"@ + "/debug"@
        } else {
            base@ + "/installed/x64-windows-static"@
        }));
        assert(base@ + "/installed/x64-windows"@ + dbg_part(isdbg) =~= (if isdbg {
            base@ + "/installed/x64-windows"@ + "/debug"@
        } else {
            base@ + "/installed/x64-windows"@
        }));
    }
    let mut r: Vec<String> = Vec::new();
    r.push(c1);
    r.push(c2);
    proof {
        assert(r.deep_view() =~= lib_candidates(base@, isdbg));
    }
    r
}

/// Builds the candidate include directories for an install root.
pub fn inc_path_candidates(base: &str) -> (r: Vec<String>)
    ensures
        r.deep_view() == inc_candidates(base@),
{
    let mut c1 = base.to_owned();
    c1.append("/installed/x64-windows-static/include");
    let mut c2 = base.to_owned();
    c2.append("/installed/x64-windows/include");
    let mut r: Vec<String> = Vec::new();
    r.push(c1);
    r.push(c2);
    proof {
        assert(r.deep_view() =~= inc_candidates(base@));
    }
    r
}

/// Appends the candidates that exist.
fn push_existing(cands: &Vec<String>, existing_dirs: &Vec<String>, vs: &mut Vec<String>)
    ensures
        final(vs).deep_view() == old(vs).deep_view() + filter_in(
            cands.deep_view(),
            existing_dirs.deep_view(),
        ),
{
    let ghost base0 = vs.deep_view();
    let mut idx: usize = 0;
    proof {
        assert(base0 + filter_in(cands.deep_view().take(0), existing_dirs.deep_view()) =~= base0);
    }
    while idx < cands.len()
        invariant
            0 <= idx <= cands.len(),
            cands.deep_view().len() == cands.len(),
            vs.deep_view() == base0 + filter_in(
                cands.deep_view().take(idx as int),
                existing_dirs.deep_view(),
            ),
        decreases cands.len() - idx,
    {
        proof {
            assert(cands.deep_view().take(idx + 1).drop_last() =~= cands.deep_view().take(
                idx as int,
            ));
            assert(cands.deep_view().take(idx + 1).last() == cands.deep_view()[idx as int]);
            assert(cands.deep_view()[idx as int] == cands@[idx as int]@);
        }
        if crate::strutil::contains_string(existing_dirs, cands[idx].as_str()) {
            let ghost prev = vs.deep_view();
            vs.push(cands[idx].clone());
            proof {
                assert(vs.deep_view() =~= prev.push(cands.deep_view()[idx as int]));
                assert(vs.deep_view() =~= base0 + filter_in(
                    cands.deep_view().take(idx + 1),
                    existing_dirs.deep_view(),
                ));
            }
        } else {
            proof {
                assert(vs.deep_view() =~= base0 + filter_in(
                    cands.deep_view().take(idx + 1),
                    existing_dirs.deep_view(),
                ));
            }
        }
        idx += 1;
    }
    proof {
        assert(cands.deep_view().take(cands.deep_view().len() as int) =~= cands.deep_view());
    }
}

/// The entries of `v` that are listed as existing, in order.
pub fn keep_existing(v: &Vec<String>, ex: &Vec<String>) -> (r: Vec<String>)
    ensures
        r.deep_view() == filter_in(v.deep_view(), ex.deep_view()),
{
    let mut r: Vec<String> = Vec::new();
    push_existing(v, ex, &mut r);
    proof {
        assert(r.deep_view() =~= filter_in(v.deep_view(), ex.deep_view()));
    }
    r
}

/// Appends the library search paths the package manager provides for the
/// requested variant: of the two triplet directories under the install
/// root, those that exist. Without a discovered root nothing is added.
pub fn add_lib_paths(
    isdbg: bool,
    base: &Option<String>,
    existing_dirs: &Vec<String>,
    vs: &mut Vec<String>,
)
    ensures
        final(vs).deep_view() == old(vs).deep_view() + (match base {
            Option::Some(b) => filter_in(lib_candidates(b@, isdbg), existing_dirs.deep_view()),
            Option::None => Seq::<Seq<char>>::empty(),
        }),
{
    match base {
        Option::Some(b) => {
            let cands = lib_path_candidates(b.as_str(), isdbg);
            push_existing(&cands, existing_dirs, vs);
        },
        Option::None => {
            proof {
                assert(vs.deep_view() + Seq::<Seq<char>>::empty() =~= vs.deep_view());
            }
        },
    }
}

/// Appends the include paths the package manager provides: of the two
/// triplet include directories under the install root, those that exist.
/// Without a discovered root nothing is added.
pub fn add_inc_paths(base: &Option<String>, existing_dirs: &Vec<String>, vs: &mut Vec<String>)
    ensures
        final(vs).deep_view() == old(vs).deep_view() + (match base {
            Option::Some(b) => filter_in(inc_candidates(b@), existing_dirs.deep_view()),
            Option::None => Seq::<Seq<char>>::empty(),
        }),
{
    match base {
        Option::Some(b) => {
            let cands = inc_path_candidates(b.as_str());
            push_existing(&cands, existing_dirs, vs);
        },
        Option::None => {
            proof {
                assert(vs.deep_view() + Seq::<Seq<char>>::empty() =~= vs.deep_view());
            }
        },
    }
}

} // verus!
