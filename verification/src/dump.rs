use vstd::prelude::*;

use crate::config::DatabaseConfig;
use crate::text::{dec_rep, push_decimal, str_views};

verus! {

broadcast use vstd::seq_lib::group_to_multiset_ensures;

/// The record of one successful dump attempt: the database's
/// ordinal position in the selection, its name, the elapsed
/// wall-clock time in microseconds, and the success flag.  A
/// failed attempt produces no record.
pub struct DumpOutcome {
    pub index: usize,
    pub database: String,
    pub micros: u128,
    pub success: bool,
}

/// The argument list handed to the external dump program for one
/// database: the program name, the connection parameters, and
/// the database's name.
pub open spec fn spec_dump_args(c: DatabaseConfig, db: Seq<char>) -> Seq<Seq<char>> {
    seq![
        "mysqldump"@,
        "--host="@ + c.db_host@,
        "--port="@ + dec_rep(c.db_port as int),
        "--user="@ + c.db_username@,
        "--password="@ + c.db_password@,
        db,
    ]
}

/// Builds the dump program's argument list for one database.
pub fn dump_args(config: &DatabaseConfig, db: &String) -> (r: Vec<String>)
    ensures
        str_views(r@) == spec_dump_args(*config, db@),
{
    let mut r: Vec<String> = Vec::new();
    r.push(String::from_str("mysqldump"));
    let mut host = String::from_str("--host=");
    host.append(config.db_host.as_str());
    r.push(host);
    let mut port = String::from_str("--port=");
    push_decimal(&mut port, config.db_port);
    r.push(port);
    let mut user = String::from_str("--user=");
    user.append(config.db_username.as_str());
    r.push(user);
    let mut pass = String::from_str("--password=");
    pass.append(config.db_password.as_str());
    r.push(pass);
    r.push(db.clone());
    proof {
        assert(str_views(r@) =~~= spec_dump_args(*config, db@));
    }
    r
}

/// Appends the record of one attempt to a cycle's collection:
/// a successful attempt adds its record, a failed one adds
/// nothing, so the records stay one-to-one with the successful
/// attempts.
pub fn record_attempt(
    outcomes: &mut Vec<DumpOutcome>,
    index: usize,
    database: String,
    micros: u128,
    success: bool,
)
    ensures
        success ==> final(outcomes)@ == old(outcomes)@.push(
            (DumpOutcome { index, database: database, micros, success: true }),
        ),
        !success ==> final(outcomes)@ == old(outcomes)@,
{
    if success {
        outcomes.push(DumpOutcome { index, database, micros, success: true });
    }
}

/// The ordinal positions whose attempts produce an outcome
/// record: exactly the successful ones, in their attempt order.
pub open spec fn successful_positions(flags: Seq<bool>) -> Seq<int>
    decreases flags.len(),
{
    if flags.len() == 0 {
        Seq::empty()
    } else if flags.last() {
        successful_positions(flags.drop_last()).push(flags.len() - 1)
    } else {
        successful_positions(flags.drop_last())
    }
}

/// Isolation law: when exactly one attempt in a cycle fails and
/// every other succeeds, the cycle's records number one fewer
/// than the attempts, none stands for the failed position, and
/// every other position keeps its record.
pub proof fn lemma_isolation(flags: Seq<bool>, j: int)
    requires
        0 <= j < flags.len(),
        !flags[j],
        forall|k: int| 0 <= k < flags.len() && k != j ==> flags[k],
    ensures
        successful_positions(flags).len() == flags.len() - 1,
        !successful_positions(flags).contains(j),
        forall|k: int|
            0 <= k < flags.len() && k != j ==> #[trigger] successful_positions(flags).contains(k),
    decreases flags.len(),
{
    lemma_successful_positions_range(flags);
    if j == flags.len() - 1 {
        lemma_successful_positions_all(flags.drop_last());
    } else {
        assert(!flags.drop_last()[j]);
        lemma_isolation(flags.drop_last(), j);
        let sub = successful_positions(flags.drop_last());
        assert(flags.last());
        assert forall|k: int| 0 <= k < flags.len() && k != j implies #[trigger] successful_positions(
            flags,
        ).contains(k) by {
            if k < flags.len() - 1 {
                assert(sub.contains(k));
                let a = choose|a: int| 0 <= a < sub.len() && sub[a] == k;
                assert(successful_positions(flags)[a] == k);
            } else {
                assert(successful_positions(flags).last() == k);
            }
        }
        if successful_positions(flags).contains(j) {
            let a = choose|a: int|
                0 <= a < successful_positions(flags).len() && successful_positions(flags)[a] == j;
            assert(sub.contains(j));
        }
    }
}

proof fn lemma_successful_positions_range(flags: Seq<bool>)
    ensures
        successful_positions(flags).len() <= flags.len(),
        forall|a: int|
            0 <= a < successful_positions(flags).len() ==> 0 <= #[trigger] successful_positions(
                flags,
            )[a] < flags.len() && flags[successful_positions(flags)[a]],
    decreases flags.len(),
{
    if flags.len() > 0 {
        lemma_successful_positions_range(flags.drop_last());
        assert forall|a: int| 0 <= a < successful_positions(flags).len() implies 0
            <= #[trigger] successful_positions(flags)[a] < flags.len() && flags[
        successful_positions(flags)[a]] by {
            let sub = successful_positions(flags.drop_last());
            if a < sub.len() {
                assert(successful_positions(flags)[a] == sub[a]);
                assert(flags.drop_last()[sub[a]]);
            }
        }
    }
}

proof fn lemma_successful_positions_all(flags: Seq<bool>)
    requires
        forall|k: int| 0 <= k < flags.len() ==> flags[k],
    ensures
        successful_positions(flags).len() == flags.len(),
        forall|k: int|
            0 <= k < flags.len() ==> #[trigger] successful_positions(flags).contains(k),
    decreases flags.len(),
{
    if flags.len() > 0 {
        assert forall|k: int| 0 <= k < flags.drop_last().len() implies flags.drop_last()[k] by {
            assert(flags[k]);
        }
        lemma_successful_positions_all(flags.drop_last());
        assert(flags[flags.len() - 1]);
        let sub = successful_positions(flags.drop_last());
        assert forall|k: int| 0 <= k < flags.len() implies #[trigger] successful_positions(
            flags,
        ).contains(k) by {
            if k < flags.len() - 1 {
                assert(sub.contains(k));
                let a = choose|a: int| 0 <= a < sub.len() && sub[a] == k;
                assert(successful_positions(flags)[a] == k);
            } else {
                assert(successful_positions(flags).last() == k);
            }
        }
    }
}

/// The reporting order of a cycle's records: one attempt's
/// record comes strictly before another's when its duration is
/// smaller, and, at equal durations, when its attempt came
/// first.
pub open spec fn reported_before(v: Seq<DumpOutcome>, i: int, j: int) -> bool {
    v[i].micros < v[j].micros || (v[i].micros == v[j].micros && i < j)
}

/// Whether `p` rearranges the attempt-ordered records `v` into
/// the report `r`: `p` lists positions of `v`, each at most
/// once, in strictly ascending reporting order, and `r` reads
/// the records off in that order — so the report is
/// non-decreasing in duration, and records with equal durations
/// keep their attempt order.
pub open spec fn stable_duration_order(
    v: Seq<DumpOutcome>,
    r: Seq<DumpOutcome>,
    p: Seq<int>,
) -> bool {
    &&& p.len() == v.len()
    &&& r.len() == v.len()
    &&& (forall|a: int| 0 <= a < p.len() ==> 0 <= #[trigger] p[a] < v.len())
    &&& (forall|a: int| 0 <= a < p.len() ==> #[trigger] r[a] == v[p[a]])
    &&& (forall|a: int, b: int| 0 <= a < b < p.len() ==> reported_before(v, p[a], p[b]))
}

/// Orders a cycle's outcomes by elapsed duration, ascending, as
/// the reporting collaborator consumes them.  The result holds
/// exactly the given records, and the sort is stable: records
/// with equal durations keep their attempt order.
pub fn sort_outcomes_by_duration(v: Vec<DumpOutcome>) -> (r: Vec<DumpOutcome>)
    ensures
        r@.len() == v@.len(),
        forall|a: int, b: int| 0 <= a <= b < r@.len() ==> r@[a].micros <= r@[b].micros,
        r@.to_multiset() == v@.to_multiset(),
        exists|p: Seq<int>| #[trigger] stable_duration_order(v@, r@, p),
{
    let mut rest = v;
    let mut out: Vec<DumpOutcome> = Vec::new();
    let ghost mut pos: Seq<int> = Seq::new(rest@.len(), |i: int| i);
    let ghost mut perm: Seq<int> = Seq::empty();
    proof {
        assert(out@.to_multiset().add(rest@.to_multiset()) =~= rest@.to_multiset());
    }
    while rest.len() > 0
        invariant
            out@.to_multiset().add(rest@.to_multiset()) == v@.to_multiset(),
            forall|a: int, b: int| 0 <= a <= b < out@.len() ==> out@[a].micros <= out@[b].micros,
            forall|a: int, q: int|
                0 <= a < out@.len() && 0 <= q < rest@.len() ==> out@[a].micros
                    <= rest@[q].micros,
            pos.len() == rest@.len(),
            forall|q: int|
                0 <= q < pos.len() ==> 0 <= #[trigger] pos[q] < v@.len() && rest@[q] == v@[pos[q]],
            forall|q1: int, q2: int| 0 <= q1 < q2 < pos.len() ==> pos[q1] < pos[q2],
            perm.len() == out@.len(),
            forall|a: int|
                0 <= a < perm.len() ==> 0 <= #[trigger] perm[a] < v@.len() && out@[a]
                    == v@[perm[a]],
            forall|a: int, b: int| 0 <= a < b < perm.len() ==> reported_before(v@, perm[a], perm[b]),
            forall|a: int, q: int|
                0 <= a < perm.len() && 0 <= q < pos.len() ==> reported_before(v@, perm[a], pos[q]),
        decreases rest@.len(),
    {
        let mut minpos: usize = 0;
        let mut j: usize = 1;
        while j < rest.len()
            invariant
                minpos < j <= rest@.len(),
                rest@.len() > 0,
                forall|q: int| 0 <= q < j ==> rest@[minpos as int].micros <= rest@[q].micros,
                forall|q: int| 0 <= q < minpos ==> rest@[minpos as int].micros < rest@[q].micros,
            decreases rest@.len() - j,
        {
            if rest[j].micros < rest[minpos].micros {
                minpos = j;
            }
            j += 1;
        }
        let ghost old_rest = rest@;
        let ghost old_out = out@;
        let ghost old_pos = pos;
        let ghost old_perm = perm;
        let ghost picked = pos[minpos as int];
        let x = rest.remove(minpos);
        out.push(x);
        proof {
            perm = old_perm.push(picked);
            pos = old_pos.remove(minpos as int);
            assert(old_rest.contains(old_rest[minpos as int])) by {
                assert(old_rest[minpos as int] == old_rest[minpos as int]);
            }
            assert(old_rest.to_multiset().count(x) > 0);
            assert(out@.to_multiset().add(rest@.to_multiset()) =~= v@.to_multiset());
            assert forall|a: int, q: int|
                0 <= a < out@.len() && 0 <= q < rest@.len() implies out@[a].micros
                <= rest@[q].micros by {
                if a < old_out.len() {
                    assert(out@[a] == old_out[a]);
                }
                if q < minpos as int {
                    assert(rest@[q] == old_rest[q]);
                } else {
                    assert(rest@[q] == old_rest[q + 1]);
                }
            }
            assert forall|q: int| 0 <= q < pos.len() implies 0 <= #[trigger] pos[q] < v@.len()
                && rest@[q] == v@[pos[q]] by {
                if q < minpos as int {
                    assert(pos[q] == old_pos[q]);
                    assert(rest@[q] == old_rest[q]);
                } else {
                    assert(pos[q] == old_pos[q + 1]);
                    assert(rest@[q] == old_rest[q + 1]);
                }
            }
            assert forall|q1: int, q2: int| 0 <= q1 < q2 < pos.len() implies pos[q1] < pos[
            q2] by {
                if q1 < minpos as int {
                    assert(pos[q1] == old_pos[q1]);
                } else {
                    assert(pos[q1] == old_pos[q1 + 1]);
                }
                if q2 < minpos as int {
                    assert(pos[q2] == old_pos[q2]);
                } else {
                    assert(pos[q2] == old_pos[q2 + 1]);
                }
            }
            assert(out@[out@.len() - 1] == v@[picked]);
            assert forall|a: int, b: int| 0 <= a < b < perm.len() implies reported_before(
                v@,
                perm[a],
                perm[b],
            ) by {
                if b == perm.len() - 1 {
                    assert(perm[b] == picked);
                    assert(perm[a] == old_perm[a]);
                    assert(reported_before(v@, old_perm[a], old_pos[minpos as int]));
                }
            }
            assert forall|a: int, q: int|
                0 <= a < perm.len() && 0 <= q < pos.len() implies reported_before(
                v@,
                perm[a],
                pos[q],
            ) by {
                let qo: int = if q < minpos as int {
                    q
                } else {
                    q + 1
                };
                assert(pos[q] == old_pos[qo]);
                assert(old_rest[qo] == v@[old_pos[qo]]);
                if a < old_perm.len() {
                    assert(perm[a] == old_perm[a]);
                    assert(reported_before(v@, old_perm[a], old_pos[qo]));
                } else {
                    assert(perm[a] == picked);
                    assert(old_rest[minpos as int] == v@[picked]);
                    if qo < minpos as int {
                        assert(old_rest[minpos as int].micros < old_rest[qo].micros);
                    } else {
                        assert(old_rest[minpos as int].micros <= old_rest[qo].micros);
                        if old_rest[minpos as int].micros == old_rest[qo].micros {
                            assert(old_pos[minpos as int] < old_pos[qo]);
                        }
                    }
                }
            }
        }
    }
    proof {
        assert(rest@ =~= Seq::<DumpOutcome>::empty());
        assert(out@.to_multiset().add(rest@.to_multiset()) =~= out@.to_multiset());
        assert(out@.len() == out@.to_multiset().len());
        assert(v@.len() == v@.to_multiset().len());
        assert(stable_duration_order(v@, out@, perm));
    }
    out
}

} // verus!
