//! Source-set assembly for the compiler wrapper: the deterministic glob
//! include/exclude arithmetic, and home-directory expansion of include
//! paths. Running the glob patterns against the filesystem is the
//! caller's work; the arithmetic over the resulting match lists is
//! verified here.

use vstd::prelude::*;
use crate::strutil::seq_has;

verus! {

/// Whether a pattern is an exclusion: it starts with `-`.
pub open spec fn is_exclude(p: Seq<char>) -> bool {
    p.len() > 0 && p[0] == '-'
}

/// One pattern's matches applied to the working set: an inclusion
/// inserts every match, an exclusion removes every match.
pub open spec fn apply_pattern(
    prev: Set<Seq<char>>,
    exclude: bool,
    ms: Seq<Seq<char>>,
) -> Set<Seq<char>>
    decreases ms.len(),
{
    if ms.len() == 0 {
        prev
    } else {
        let p = apply_pattern(prev, exclude, ms.drop_last());
        if exclude {
            p.remove(ms.last())
        } else {
            p.insert(ms.last())
        }
    }
}

/// The working set after all patterns, applied in order over their match
/// lists.
pub open spec fn spec_find_files(ptns: Seq<Seq<char>>, ms: Seq<Seq<Seq<char>>>) -> Set<Seq<char>>
    decreases ptns.len(),
{
    if ptns.len() == 0 {
        Set::<Seq<char>>::empty()
    } else {
        apply_pattern(
            spec_find_files(ptns.drop_last(), ms.drop_last()),
            is_exclude(ptns.last()),
            ms.last(),
        )
    }
}

/// No entry occurs twice.
pub open spec fn no_dups(v: Seq<Seq<char>>) -> bool {
    forall|i: int, j: int| 0 <= i < j < v.len() ==> v[i] != v[j]
}

/// The pattern without its exclusion marker, ready to be run as a glob.
pub fn pattern_body<'a>(p: &'a str) -> (r: &'a str)
    ensures
        is_exclude(p@) ==> r@ == p@.drop_first(),
        !is_exclude(p@) ==> r@ == p@,
{
    let len = p.unicode_len();
    if len > 0 && p.get_char(0) == '-' {
        let r = p.substring_char(1, len);
        proof {
            assert(p@.subrange(1, p@.len() as int) =~= p@.drop_first());
        }
        r
    } else {
        p
    }
}

/// A `~`-prefixed directory with the marker replaced by the home
/// directory, when one is known; other directories pass through.
pub fn expand_home(dir: &str, home: &Option<String>) -> (r: String)
    ensures
        r@ == (match home {
            Option::Some(h) => if dir@.len() > 0 && dir@[0] == '~' {
                h@ + dir@.drop_first()
            } else {
                dir@
            },
            Option::None => dir@,
        }),
{
    let len = dir.unicode_len();
    if len > 0 && dir.get_char(0) == '~' {
        match home {
            Option::Some(h) => {
                let mut r = h.clone();
                r.append(dir.substring_char(1, len));
                proof {
                    assert(dir@.subrange(1, dir@.len() as int) =~= dir@.drop_first());
                }
                r
            },
            Option::None => dir.to_owned(),
        }
    } else {
        dir.to_owned()
    }
}

/// Appends the string unless it is already present.
fn insert_string(rt: &mut Vec<String>, s: &str)
    requires
        no_dups(old(rt).deep_view()),
    ensures
        no_dups(final(rt).deep_view()),
        forall|x: Seq<char>|
            seq_has(final(rt).deep_view(), x) == (seq_has(old(rt).deep_view(), x) || x == s@),
{
    if !crate::strutil::contains_string(rt, s) {
        let ghost prev = rt.deep_view();
        rt.push(s.to_owned());
        proof {
            assert(rt.deep_view() =~= prev.push(s@));
            assert forall|x: Seq<char>| seq_has(rt.deep_view(), x) implies (seq_has(prev, x) || x
                == s@) by {
                let k = choose|k: int| 0 <= k < rt.deep_view().len() && rt.deep_view()[k] == x;
                if k < prev.len() {
                    assert(prev[k] == x);
                }
            }
            assert forall|x: Seq<char>| seq_has(prev, x) || x == s@ implies seq_has(
                rt.deep_view(),
                x,
            ) by {
                if seq_has(prev, x) {
                    let k = choose|k: int| 0 <= k < prev.len() && prev[k] == x;
                    assert(rt.deep_view()[k] == x);
                } else {
                    assert(rt.deep_view()[prev.len() as int] == x);
                }
            }
        }
    }
}

/// Removes the string's occurrence, if present; the working set holds no
/// duplicates, so one removal suffices.
fn remove_string(rt: &mut Vec<String>, s: &str)
    requires
        no_dups(old(rt).deep_view()),
    ensures
        no_dups(final(rt).deep_view()),
        forall|x: Seq<char>|
            seq_has(final(rt).deep_view(), x) == (seq_has(old(rt).deep_view(), x) && x != s@),
{
    let ghost all = rt.deep_view();
    let mut idx: usize = 0;
    let mut found = false;
    let mut pos: usize = 0;
    while idx < rt.len()
        invariant
            0 <= idx <= rt.len(),
            rt.deep_view() == all,
            rt.deep_view().len() == rt.len(),
            found ==> 0 <= pos < rt.len() && all[pos as int] == s@,
            !found ==> forall|j: int| 0 <= j < idx ==> all[j] != s@,
        decreases rt.len() - idx,
    {
        proof {
            assert(rt.deep_view()[idx as int] == rt@[idx as int]@);
        }
        if !found && crate::strutil::str_eq(rt[idx].as_str(), s) {
            found = true;
            pos = idx;
        }
        idx += 1;
    }
    if found {
        let ghost p = pos as int;
        let _ = rt.remove(pos);
        proof {
            assert(rt.deep_view() =~= all.remove(p));
            all.remove_ensures(p);
            assert forall|x: Seq<char>|
                seq_has(rt.deep_view(), x) == (seq_has(all, x) && x != s@) by {
                if seq_has(rt.deep_view(), x) {
                    let k = choose|k: int|
                        0 <= k < rt.deep_view().len() && rt.deep_view()[k] == x;
                    if k < p {
                        assert(all[k] == x);
                        assert(all[k] != all[p] || k == p);
                        assert(x != s@);
                    } else {
                        assert(all[k + 1] == x);
                        assert(all[p] == s@);
                        assert(all[k + 1] != all[p] || k + 1 == p);
                        assert(x != s@);
                    }
                }
                if seq_has(all, x) && x != s@ {
                    let k = choose|k: int| 0 <= k < all.len() && all[k] == x;
                    if k < p {
                        assert(rt.deep_view()[k] == x);
                    } else {
                        assert(k != p);
                        assert(rt.deep_view()[k - 1] == x);
                    }
                    assert(seq_has(rt.deep_view(), x));
                }
            }
            assert forall|a: int, b: int|
                0 <= a < b < rt.deep_view().len() implies rt.deep_view()[a]
                != rt.deep_view()[b] by {
                let a2: int = if a < p {
                    a
                } else {
                    a + 1
                };
                let b2: int = if b < p {
                    b
                } else {
                    b + 1
                };
                assert(rt.deep_view()[a] == all[a2]);
                assert(rt.deep_view()[b] == all[b2]);
            }
        }
    } else {
        proof {
            assert forall|x: Seq<char>|
                seq_has(rt.deep_view(), x) == (seq_has(all, x) && x != s@) by {
                if x == s@ && seq_has(all, x) {
                    let k = choose|k: int| 0 <= k < all.len() && all[k] == x;
                    assert(false);
                }
            }
        }
    }
}

/// The union-minus-exclusion of glob matches: patterns apply in order;
/// a `-`-prefixed pattern removes its matches from the working set, any
/// other inserts its matches. `matches` holds, for each pattern, the
/// files its glob (marker stripped) matched on disk. The result is the
/// working set: deduplicated, in first-insertion order.
pub fn find_files(ptns: &Vec<String>, matches: &Vec<Vec<String>>) -> (r: Vec<String>)
    requires
        ptns.len() == matches.len(),
    ensures
        no_dups(r.deep_view()),
        forall|x: Seq<char>|
            seq_has(r.deep_view(), x) == spec_find_files(
                ptns.deep_view(),
                matches.deep_view(),
            ).contains(x),
{
    let mut rt: Vec<String> = Vec::new();
    let mut i: usize = 0;
    while i < ptns.len()
        invariant
            0 <= i <= ptns.len(),
            ptns.len() == matches.len(),
            ptns.deep_view().len() == ptns.len(),
            matches.deep_view().len() == matches.len(),
            no_dups(rt.deep_view()),
            forall|x: Seq<char>|
                seq_has(rt.deep_view(), x) == spec_find_files(
                    ptns.deep_view().take(i as int),
                    matches.deep_view().take(i as int),
                ).contains(x),
        decreases ptns.len() - i,
    {
        let ghost prev_set = spec_find_files(
            ptns.deep_view().take(i as int),
            matches.deep_view().take(i as int),
        );
        proof {
            assert(ptns.deep_view()[i as int] == ptns@[i as int]@);
            assert(matches.deep_view()[i as int] == matches@[i as int].deep_view());
        }
        let pt = &ptns[i];
        let exclude = pt.as_str().unicode_len() > 0 && pt.as_str().get_char(0) == '-';
        let ms = &matches[i];
        let ghost msv = matches.deep_view()[i as int];
        let mut j: usize = 0;
        proof {
            assert(msv.take(0) =~= Seq::<Seq<char>>::empty());
        }
        while j < ms.len()
            invariant
                0 <= j <= ms.len(),
                ms.deep_view() == msv,
                msv.len() == ms.len(),
                exclude == is_exclude(ptns.deep_view()[i as int]),
                0 <= i < ptns.len(),
                ptns.deep_view().len() == ptns.len(),
                no_dups(rt.deep_view()),
                forall|x: Seq<char>|
                    seq_has(rt.deep_view(), x) == apply_pattern(
                        prev_set,
                        exclude,
                        msv.take(j as int),
                    ).contains(x),
            decreases ms.len() - j,
        {
            proof {
                assert(msv.take(j + 1).drop_last() =~= msv.take(j as int));
                assert(msv.take(j + 1).last() == msv[j as int]);
                assert(ms.deep_view()[j as int] == ms@[j as int]@);
            }
            if exclude {
                remove_string(&mut rt, ms[j].as_str());
            } else {
                insert_string(&mut rt, ms[j].as_str());
            }
            j += 1;
        }
        proof {
            assert(msv.take(ms.deep_view().len() as int) =~= msv);
            assert(ptns.deep_view().take(i + 1).drop_last() =~= ptns.deep_view().take(i as int));
            assert(matches.deep_view().take(i + 1).drop_last() =~= matches.deep_view().take(
                i as int,
            ));
            assert(ptns.deep_view().take(i + 1).last() == ptns.deep_view()[i as int]);
            assert(matches.deep_view().take(i + 1).last() == matches.deep_view()[i as int]);
        }
        i += 1;
    }
    proof {
        assert(ptns.deep_view().take(ptns.deep_view().len() as int) =~= ptns.deep_view());
        assert(matches.deep_view().take(matches.deep_view().len() as int) =~= matches.deep_view());
    }
    rt
}

} // verus!
