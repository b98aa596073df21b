//! Branch classification: assembling the deletable-branch set.
//!
//! The set unions the two detection strategies' results, never holds the base
//! branch, holds each name at most once, and is ordered lexicographically.
//! Those four clauses pin the set down completely:
//! [`lemma_sorted_set_unique`] shows that any two sequences meeting them are
//! equal, so repeated runs over an unchanged repository present the same list.

use vstd::prelude::*;

use crate::detect::lemma_merged_picks_membership;
use crate::detect::lemma_squashed_picks_membership;
use crate::detect::merged_picks;
use crate::detect::squashed_picks;
use crate::text::lemma_lex_le_antisym;
use crate::text::lemma_lex_le_refl;
use crate::text::lemma_lex_le_total;
use crate::text::lemma_lex_le_trans;
use crate::text::lex_lt;
use crate::text::str_eq;
use crate::text::str_le;
use crate::text::views;

verus! {

/// Strictly ascending in lexicographic order; such a sequence holds no
/// duplicates.
pub open spec fn strictly_sorted(vs: Seq<Seq<char>>) -> bool {
    forall|i: int, j: int| 0 <= i < j < vs.len() ==> lex_lt(vs[i], vs[j])
}

proof fn lemma_contains_push(s: Seq<Seq<char>>, e: Seq<char>)
    ensures
        forall|x: Seq<char>| s.push(e).contains(x) <==> (s.contains(x) || x == e),
{
    assert forall|x: Seq<char>| s.push(e).contains(x) implies (s.contains(x) || x == e) by {
        let k = choose|k: int| 0 <= k < s.push(e).len() && s.push(e)[k] == x;
        if k < s.len() {
            assert(s[k] == x);
        }
    }
    assert forall|x: Seq<char>| (s.contains(x) || x == e) implies s.push(e).contains(x) by {
        if s.contains(x) {
            let k = choose|k: int| 0 <= k < s.len() && s[k] == x;
            assert(s.push(e)[k] == x);
        } else {
            assert(s.push(e)[s.len() as int] == x);
        }
    }
}

/// Places `s` into the sorted, duplicate-free vector `v`, keeping it sorted
/// and duplicate-free.
fn insert_unique_sorted(v: &mut Vec<String>, s: String)
    requires
        strictly_sorted(views(old(v)@)),
    ensures
        strictly_sorted(views(final(v)@)),
        forall|x: Seq<char>|
            views(final(v)@).contains(x) <==> (views(old(v)@).contains(x) || x == s@),
{
    let ghost vs = views(v@);
    let mut pos: usize = 0;
    loop
        invariant
            v@ == old(v)@,
            vs == views(v@),
            strictly_sorted(vs),
            pos <= vs.len(),
            vs.len() == v@.len(),
            forall|k: int| 0 <= k < pos ==> lex_lt(vs[k], s@),
        ensures
            v@ == old(v)@,
            pos <= vs.len(),
            forall|k: int| 0 <= k < pos ==> lex_lt(vs[k], s@),
            pos < vs.len() ==> !lex_lt(vs[pos as int], s@),
        decreases vs.len() - pos,
    {
        if pos == v.len() {
            break;
        }
        let le = str_le(v[pos].as_str(), s.as_str());
        let eq = str_eq(v[pos].as_str(), s.as_str());
        if !le || eq {
            break;
        }
        pos = pos + 1;
    }
    if pos < v.len() {
        let eq = str_eq(v[pos].as_str(), s.as_str());
        if eq {
            // Already present: `v` is unchanged.
            return ;
        }
        proof {
            // Not equal and not below `s`, so strictly above it.
            lemma_lex_le_total(vs[pos as int], s@);
            if vs[pos as int] == s@ {
                lemma_lex_le_refl(s@);
            }
            assert(lex_lt(s@, vs[pos as int]));
        }
    }
    proof {
        // Every element at or after `pos` lies strictly above `s`.
        assert forall|k: int| pos <= k < vs.len() implies lex_lt(s@, vs[k]) by {
            if k > pos {
                assert(lex_lt(vs[pos as int], vs[k]));
                lemma_lex_le_trans(s@, vs[pos as int], vs[k]);
                if s@ == vs[k] {
                    lemma_lex_le_antisym(s@, vs[pos as int]);
                }
            }
        }
    }
    v.insert(pos, s);
    proof {
        let ws = views(v@);
        assert(ws =~= vs.take(pos as int).push(s@) + vs.skip(pos as int));
        assert forall|k: int| 0 <= k < ws.len() implies ws[k] == (if k < pos {
            vs[k]
        } else if k == pos {
            s@
        } else {
            vs[k - 1]
        }) by {}
        assert forall|i: int, j: int| 0 <= i < j < ws.len() implies lex_lt(ws[i], ws[j]) by {
            if i < pos && j < pos {
            } else if i < pos && j == pos {
                assert(lex_lt(vs[i], s@));
            } else if i == pos && j > pos {
                assert(lex_lt(s@, vs[j - 1]));
            } else if i < pos && j > pos {
                assert(lex_lt(vs[i], vs[j - 1]));
            } else if i > pos && j > pos {
                assert(lex_lt(vs[i - 1], vs[j - 1]));
            } else if i == pos && j == pos {
            } else {
                // i > pos && j == pos is impossible since i < j
                assert(false);
            }
        }
        assert forall|x: Seq<char>| ws.contains(x) implies (vs.contains(x) || x == s@) by {
            let k = choose|k: int| 0 <= k < ws.len() && ws[k] == x;
            if k < pos {
                assert(vs[k] == x);
            } else if k > pos {
                assert(vs[k - 1] == x);
            }
        }
        assert forall|x: Seq<char>| (vs.contains(x) || x == s@) implies ws.contains(x) by {
            if vs.contains(x) {
                let k = choose|k: int| 0 <= k < vs.len() && vs[k] == x;
                if k < pos {
                    assert(ws[k] == x);
                } else {
                    assert(ws[k + 1] == x);
                }
            } else {
                assert(ws[pos as int] == x);
            }
        }
    }
}

/// Folds every name of `items` other than the base branch into the sorted,
/// duplicate-free vector `r`.
fn add_candidates(r: &mut Vec<String>, items: &Vec<String>, base_branch_name: &str)
    requires
        strictly_sorted(views(old(r)@)),
    ensures
        strictly_sorted(views(final(r)@)),
        forall|x: Seq<char>|
            #[trigger] views(final(r)@).contains(x) <==> (views(old(r)@).contains(x) || (views(
                items@,
            ).contains(x) && x != base_branch_name@)),
{
    let n: usize = items.len();
    let mut i: usize = 0;
    proof {
        assert(views(items@).take(0) =~= Seq::<Seq<char>>::empty());
    }
    while i < n
        invariant
            i <= n,
            n == items@.len(),
            strictly_sorted(views(r@)),
            forall|x: Seq<char>|
                views(r@).contains(x) <==> (views(old(r)@).contains(x) || (views(items@).take(
                    i as int,
                ).contains(x) && x != base_branch_name@)),
        decreases n - i,
    {
        let ghost prev = views(r@);
        proof {
            let vi = views(items@);
            assert(vi.take(i as int + 1) =~= vi.take(i as int).push(vi[i as int]));
            lemma_contains_push(vi.take(i as int), vi[i as int]);
        }
        if !str_eq(items[i].as_str(), base_branch_name) {
            let owned = items[i].clone();
            insert_unique_sorted(r, owned);
        }
        i = i + 1;
    }
    proof {
        assert(views(items@).take(n as int) =~= views(items@));
    }
}

/// The deletable-branch set: the union of the true-merge picks and the squash
/// picks, without the base branch, without duplicates, in lexicographic
/// order.
///
/// The clauses say when a name belongs to the set — exactly when one of the
/// two detections reported it and it is not the base branch — and that the
/// set is strictly ascending, which rules out duplicates.
pub fn collect_deletable(
    base_branch_name: &str,
    merged_branch_names: &Vec<String>,
    squashed_branch_names: &Vec<String>,
) -> (r: Vec<String>)
    ensures
        strictly_sorted(views(r@)),
        forall|x: Seq<char>|
            views(r@).contains(x) <==> ((views(merged_branch_names@).contains(x) || views(
                squashed_branch_names@,
            ).contains(x)) && x != base_branch_name@),
{
    let mut r: Vec<String> = Vec::new();
    proof {
        assert(views(r@) =~= Seq::<Seq<char>>::empty());
    }
    let ghost start = views(r@);
    add_candidates(&mut r, merged_branch_names, base_branch_name);
    let ghost mid = views(r@);
    add_candidates(&mut r, squashed_branch_names, base_branch_name);
    proof {
        assert forall|x: Seq<char>|
            views(r@).contains(x) <==> ((views(merged_branch_names@).contains(x) || views(
                squashed_branch_names@,
            ).contains(x)) && x != base_branch_name@) by {
            assert(!start.contains(x));
            assert(mid.contains(x) <==> (start.contains(x) || (views(
                merged_branch_names@,
            ).contains(x) && x != base_branch_name@)));
            assert(views(r@).contains(x) <==> (mid.contains(x) || (views(
                squashed_branch_names@,
            ).contains(x) && x != base_branch_name@)));
        }
    }
    r
}

/// The deletable set never holds the base branch itself, whatever the two
/// detections reported.
pub proof fn lemma_base_never_deletable(
    r: Seq<Seq<char>>,
    merged: Seq<Seq<char>>,
    squashed: Seq<Seq<char>>,
    base: Seq<char>,
)
    requires
        forall|x: Seq<char>|
            r.contains(x) <==> ((merged.contains(x) || squashed.contains(x)) && x != base),
    ensures
        !r.contains(base),
{
}

/// A branch that either detection reported, other than the base branch,
/// stands in the deletable set exactly once — also when both detections
/// reported it.
pub proof fn lemma_deletable_exactly_once(
    r: Seq<Seq<char>>,
    merged: Seq<Seq<char>>,
    squashed: Seq<Seq<char>>,
    base: Seq<char>,
    c: Seq<char>,
)
    requires
        strictly_sorted(r),
        forall|x: Seq<char>|
            r.contains(x) <==> ((merged.contains(x) || squashed.contains(x)) && x != base),
        merged.contains(c) || squashed.contains(c),
        c != base,
    ensures
        exists|i: int| 0 <= i < r.len() && r[i] == c,
        forall|i: int, j: int|
            0 <= i < r.len() && 0 <= j < r.len() && r[i] == c && r[j] == c ==> i == j,
{
    assert(r.contains(c));
    assert forall|i: int, j: int|
        0 <= i < r.len() && 0 <= j < r.len() && r[i] == c && r[j] == c implies i == j by {
        if i < j {
            assert(lex_lt(r[i], r[j]));
        }
        if j < i {
            assert(lex_lt(r[j], r[i]));
        }
    }
}

/// From the query outputs to the final set: a branch the ancestry query
/// listed, or one judged squash-merged — the latter also when the ancestry
/// query missed it — stands in the deletable set exactly once, unless it is
/// the base branch. A branch name is never empty.
pub proof fn lemma_query_results_deletable_once(
    r: Seq<Seq<char>>,
    lines: Seq<Seq<char>>,
    names: Seq<Seq<char>>,
    flags: Seq<bool>,
    base: Seq<char>,
    c: Seq<char>,
)
    requires
        strictly_sorted(r),
        forall|x: Seq<char>|
            r.contains(x) <==> ((merged_picks(lines, base).contains(x) || squashed_picks(
                names,
                flags,
                base,
            ).contains(x)) && x != base),
        names.len() == flags.len(),
        lines.contains(c) || (exists|i: int|
            0 <= i < names.len() && names[i] == c && flags[i]),
        c != base,
        c.len() > 0,
    ensures
        exists|i: int| 0 <= i < r.len() && r[i] == c,
        forall|i: int, j: int|
            0 <= i < r.len() && 0 <= j < r.len() && r[i] == c && r[j] == c ==> i == j,
{
    lemma_merged_picks_membership(lines, base);
    lemma_squashed_picks_membership(names, flags, base);
    lemma_deletable_exactly_once(
        r,
        merged_picks(lines, base),
        squashed_picks(names, flags, base),
        base,
        c,
    );
}

/// In a strictly sorted sequence, the tail holds exactly the members other
/// than the head.
proof fn lemma_sorted_tail_membership(s: Seq<Seq<char>>)
    requires
        strictly_sorted(s),
        s.len() > 0,
    ensures
        forall|x: Seq<char>| s.drop_first().contains(x) <==> (s.contains(x) && x != s[0]),
{
    let d = s.drop_first();
    assert forall|x: Seq<char>| d.contains(x) implies (s.contains(x) && x != s[0]) by {
        let k = choose|k: int| 0 <= k < d.len() && d[k] == x;
        assert(s[k + 1] == x);
        assert(lex_lt(s[0], s[k + 1]));
    }
    assert forall|x: Seq<char>| (s.contains(x) && x != s[0]) implies d.contains(x) by {
        let k = choose|k: int| 0 <= k < s.len() && s[k] == x;
        assert(k > 0);
        assert(d[k - 1] == x);
    }
}

/// Two strictly sorted sequences with the same members are the same sequence:
/// the deletable set's contract determines it uniquely, so repeated runs on
/// an unchanged repository present the same list in the same order.
pub proof fn lemma_sorted_set_unique(a: Seq<Seq<char>>, b: Seq<Seq<char>>)
    requires
        strictly_sorted(a),
        strictly_sorted(b),
        forall|x: Seq<char>| a.contains(x) <==> b.contains(x),
    ensures
        a == b,
    decreases a.len(),
{
    if a.len() == 0 {
        if b.len() > 0 {
            assert(b.contains(b[0]));
            assert(a.contains(b[0]));
        }
        assert(a =~= b);
    } else if b.len() == 0 {
        assert(a.contains(a[0]));
        assert(b.contains(a[0]));
    } else {
        // The heads are equal: each is a member of the other, and a strictly
        // later position would put it strictly above that other's head.
        assert(a.contains(a[0]));
        assert(b.contains(a[0]));
        let j = choose|j: int| 0 <= j < b.len() && b[j] == a[0];
        if j != 0 {
            assert(lex_lt(b[0], b[j]));
            assert(b.contains(b[0]));
            assert(a.contains(b[0]));
            let i = choose|i: int| 0 <= i < a.len() && a[i] == b[0];
            if i == 0 {
                assert(false);
            } else {
                assert(lex_lt(a[0], a[i]));
                lemma_lex_le_antisym(a[0], b[0]);
                assert(false);
            }
        }
        assert(a[0] == b[0]);
        let da = a.drop_first();
        let db = b.drop_first();
        assert forall|i: int, j2: int| 0 <= i < j2 < da.len() implies lex_lt(da[i], da[j2]) by {
            assert(da[i] == a[i + 1]);
            assert(da[j2] == a[j2 + 1]);
        }
        assert forall|i: int, j2: int| 0 <= i < j2 < db.len() implies lex_lt(db[i], db[j2]) by {
            assert(db[i] == b[i + 1]);
            assert(db[j2] == b[j2 + 1]);
        }
        lemma_sorted_tail_membership(a);
        lemma_sorted_tail_membership(b);
        assert forall|x: Seq<char>| da.contains(x) <==> db.contains(x) by {
            assert(da.contains(x) <==> (a.contains(x) && x != a[0]));
            assert(db.contains(x) <==> (b.contains(x) && x != b[0]));
        }
        lemma_sorted_set_unique(da, db);
        assert(a.len() == b.len());
        assert forall|k: int| 0 <= k < a.len() implies a[k] == b[k] by {
            if k > 0 {
                assert(a[k] == da[k - 1]);
                assert(b[k] == db[k - 1]);
            }
        }
        assert(a =~= b);
    }
}

} // verus!
