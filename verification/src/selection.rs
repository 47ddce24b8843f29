use vstd::prelude::*;

use crate::text::str_views;

verus! {

/// Whether an export set holds the wildcard token that stands
/// for every database on the server.
pub open spec fn has_wildcard(exports: Seq<Seq<char>>) -> bool {
    exports.contains("*"@)
}

/// The wildcard branch: every server database that the forget
/// set does not name, in the server's reported order.
pub open spec fn wildcard_select(dbs: Seq<Seq<char>>, forgets: Seq<Seq<char>>) -> Seq<Seq<char>> {
    dbs.filter(|d: Seq<char>| !forgets.contains(d))
}

/// The explicit branch: every exported name that is present on
/// the server, in the export set's configured order.
pub open spec fn explicit_select(exports: Seq<Seq<char>>, dbs: Seq<Seq<char>>) -> Seq<Seq<char>> {
    exports.filter(|e: Seq<char>| dbs.contains(e))
}

/// Which databases one cycle backs up, given what the server
/// reports and the configured export and forget sets.
pub open spec fn spec_select(
    dbs: Seq<Seq<char>>,
    exports: Seq<Seq<char>>,
    forgets: Seq<Seq<char>>,
) -> Seq<Seq<char>> {
    if has_wildcard(exports) {
        wildcard_select(dbs, forgets)
    } else {
        explicit_select(exports, dbs)
    }
}

/// Whether a list of owned strings holds one with this view.
pub fn contains_string(v: &Vec<String>, s: &String) -> (r: bool)
    ensures
        r == str_views(v@).contains(s@),
{
    let mut i: usize = 0;
    while i < v.len()
        invariant
            0 <= i <= v@.len(),
            forall|j: int| 0 <= j < i ==> str_views(v@)[j] != s@,
        decreases v@.len() - i,
    {
        if v[i].eq(s) {
            proof {
                assert(str_views(v@)[i as int] == s@);
            }
            return true;
        }
        i += 1;
    }
    proof {
        assert forall|j: int| 0 <= j < str_views(v@).len() implies str_views(v@)[j] != s@ by {}
    }
    false
}

proof fn lemma_filter_take_step(s: Seq<Seq<char>>, pred: spec_fn(Seq<char>) -> bool, i: int)
    requires
        0 <= i < s.len(),
    ensures
        pred(s[i]) ==> s.take(i + 1).filter(pred) == s.take(i).filter(pred).push(s[i]),
        !pred(s[i]) ==> s.take(i + 1).filter(pred) == s.take(i).filter(pred),
{
    reveal(Seq::filter);
    assert(s.take(i + 1).drop_last() =~= s.take(i));
    assert(s.take(i + 1).last() == s[i]);
}

fn filter_by_membership(src: &Vec<String>, tbl: &Vec<String>, keep_present: bool) -> (r: Vec<
    String,
>)
    ensures
        keep_present ==> str_views(r@) == str_views(src@).filter(
            (|e: Seq<char>| str_views(tbl@).contains(e)),
        ),
        !keep_present ==> str_views(r@) == str_views(src@).filter(
            (|e: Seq<char>| !str_views(tbl@).contains(e)),
        ),
{
    let ghost pred: spec_fn(Seq<char>) -> bool = if keep_present {
        |e: Seq<char>| str_views(tbl@).contains(e)
    } else {
        |e: Seq<char>| !str_views(tbl@).contains(e)
    };
    let mut out: Vec<String> = Vec::new();
    let mut i: usize = 0;
    proof {
        assert(str_views(src@).take(0) =~= Seq::<Seq<char>>::empty());
        assert(str_views(src@).take(0).filter(pred) =~~= str_views(out@)) by {
            reveal(Seq::filter);
        }
    }
    while i < src.len()
        invariant
            0 <= i <= src@.len(),
            pred == (if keep_present {
                |e: Seq<char>| str_views(tbl@).contains(e)
            } else {
                |e: Seq<char>| !str_views(tbl@).contains(e)
            }),
            str_views(out@) == str_views(src@).take(i as int).filter(pred),
        decreases src@.len() - i,
    {
        let present = contains_string(tbl, &src[i]);
        let ghost prev_out = out@;
        if present == keep_present {
            out.push(src[i].clone());
        }
        proof {
            lemma_filter_take_step(str_views(src@), pred, i as int);
            assert(str_views(src@)[i as int] == src@[i as int]@);
            assert(pred(str_views(src@)[i as int]) == (present == keep_present));
            if present == keep_present {
                assert(str_views(out@) =~= str_views(prev_out).push(src@[i as int]@));
            } else {
                assert(str_views(out@) =~= str_views(prev_out));
            }
        }
        i += 1;
    }
    proof {
        assert(str_views(src@).take(src@.len() as int) =~= str_views(src@));
    }
    out
}

/// Picks the databases that one cycle backs up.  With the
/// wildcard exported, every server database outside the forget
/// set is taken, in the server's order; otherwise every exported
/// name found on the server is taken, in the export set's order,
/// and the forget set is not consulted.
pub fn select_databases(databases: &Vec<String>, exports: &Vec<String>, forgets: &Vec<String>) -> (r:
    Vec<String>)
    ensures
        str_views(r@) == spec_select(str_views(databases@), str_views(exports@), str_views(
            forgets@,
        )),
{
    let star = String::from_str("*");
    if contains_string(exports, &star) {
        filter_by_membership(databases, forgets, false)
    } else {
        filter_by_membership(exports, databases, true)
    }
}

proof fn lemma_filter_keeps_membership<A>(s: Seq<A>, pred: spec_fn(A) -> bool)
    ensures
        forall|x: A| #[trigger] s.filter(pred).contains(x) ==> s.contains(x) && pred(x),
        forall|x: A| s.contains(x) && pred(x) ==> #[trigger] s.filter(pred).contains(x),
    decreases s.len(),
{
    reveal(Seq::filter);
    if s.len() > 0 {
        lemma_filter_keeps_membership(s.drop_last(), pred);
        assert forall|x: A| #[trigger] s.filter(pred).contains(x) implies s.contains(x) && pred(
            x,
        ) by {
            let f = s.filter(pred);
            let j = choose|j: int| 0 <= j < f.len() && f[j] == x;
            let sub = s.drop_last().filter(pred);
            if pred(s.last()) && j == f.len() - 1 {
                assert(s[s.len() - 1] == x);
            } else {
                assert(sub.contains(x)) by {
                    assert(sub[j] == x);
                }
                let k = choose|k: int| 0 <= k < s.drop_last().len() && s.drop_last()[k] == x;
                assert(s[k] == x);
            }
        }
        assert forall|x: A| s.contains(x) && pred(x) implies #[trigger] s.filter(pred).contains(
            x,
        ) by {
            let k = choose|k: int| 0 <= k < s.len() && s[k] == x;
            if k == s.len() - 1 {
                assert(s.filter(pred)[s.filter(pred).len() - 1] == x);
            } else {
                assert(s.drop_last()[k] == x);
                assert(s.drop_last().contains(x));
                let sub = s.drop_last().filter(pred);
                assert(sub.contains(x));
                let j = choose|j: int| 0 <= j < sub.len() && sub[j] == x;
                if pred(s.last()) {
                    assert(s.filter(pred) == sub.push(s.last()));
                    assert(s.filter(pred)[j] == x);
                } else {
                    assert(s.filter(pred)[j] == x);
                }
            }
        }
    }
}

proof fn lemma_filter_keeps_no_duplicates<A>(s: Seq<A>, pred: spec_fn(A) -> bool)
    requires
        s.no_duplicates(),
    ensures
        s.filter(pred).no_duplicates(),
    decreases s.len(),
{
    reveal(Seq::filter);
    if s.len() > 0 {
        assert(s.drop_last().no_duplicates());
        lemma_filter_keeps_no_duplicates(s.drop_last(), pred);
        if pred(s.last()) {
            let sub = s.drop_last().filter(pred);
            assert(!sub.contains(s.last())) by {
                if sub.contains(s.last()) {
                    lemma_filter_keeps_membership(s.drop_last(), pred);
                    let k = choose|k: int|
                        0 <= k < s.drop_last().len() && s.drop_last()[k] == s.last();
                    assert(s[k] == s[s.len() - 1]);
                }
            }
            assert forall|i: int, j: int|
                0 <= i < j < s.filter(pred).len() implies s.filter(pred)[i] != s.filter(
                pred,
            )[j] by {
                if j < s.filter(pred).len() - 1 {
                    assert(sub[i] != sub[j]);
                } else {
                    assert(sub.contains(sub[i]));
                }
            }
        }
    }
}

/// With the wildcard exported, the selection is exactly the
/// server list with the forgotten names removed: it keeps the
/// server's order, holds a database if and only if the server
/// reports it and the forget set does not name it, and, when the
/// server list has no duplicates, neither has the selection.
pub proof fn lemma_selection_wildcard(
    dbs: Seq<Seq<char>>,
    exports: Seq<Seq<char>>,
    forgets: Seq<Seq<char>>,
)
    requires
        has_wildcard(exports),
        dbs.no_duplicates(),
    ensures
        spec_select(dbs, exports, forgets) == wildcard_select(dbs, forgets),
        forall|x: Seq<char>| #[trigger]
            spec_select(dbs, exports, forgets).contains(x) <==> dbs.contains(x)
                && !forgets.contains(x),
        spec_select(dbs, exports, forgets).no_duplicates(),
{
    let pred = |d: Seq<char>| !forgets.contains(d);
    lemma_filter_keeps_membership(dbs, pred);
    lemma_filter_keeps_no_duplicates(dbs, pred);
}

/// Without the wildcard, the selection is exactly the export set
/// restricted to what the server reports, in the export set's
/// order; the forget set plays no part, and, when the export set
/// has no duplicates, neither has the selection.
pub proof fn lemma_selection_explicit(
    dbs: Seq<Seq<char>>,
    exports: Seq<Seq<char>>,
    forgets_a: Seq<Seq<char>>,
    forgets_b: Seq<Seq<char>>,
)
    requires
        !has_wildcard(exports),
        exports.no_duplicates(),
    ensures
        spec_select(dbs, exports, forgets_a) == explicit_select(exports, dbs),
        spec_select(dbs, exports, forgets_a) == spec_select(dbs, exports, forgets_b),
        forall|x: Seq<char>| #[trigger]
            spec_select(dbs, exports, forgets_a).contains(x) <==> exports.contains(x)
                && dbs.contains(x),
        spec_select(dbs, exports, forgets_a).no_duplicates(),
{
    let pred = |e: Seq<char>| dbs.contains(e);
    lemma_filter_keeps_membership(exports, pred);
    lemma_filter_keeps_no_duplicates(exports, pred);
}

} // verus!
