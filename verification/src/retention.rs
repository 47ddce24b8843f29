use vstd::prelude::*;

verus! {

/// One archive in the destination folder: its file name and its
/// creation time in seconds since the epoch.  A file whose
/// creation time is unavailable is recorded with time zero, the
/// earliest possible, so that it is pruned first.
pub struct ArchiveFile {
    pub name: String,
    pub created: u64,
}

/// Strict deletion priority: an earlier creation time goes
/// first, and among equal times the file listed earlier goes
/// first.
pub open spec fn deleted_before(files: Seq<ArchiveFile>, i: int, j: int) -> bool {
    files[i].created < files[j].created || (files[i].created == files[j].created && i < j)
}

/// How many files one retention run removes from a folder of
/// `m` archives under keep-count `keep`.
pub open spec fn spec_delete_count(m: int, keep: int) -> int {
    if m <= keep {
        0
    } else {
        m - keep
    }
}

/// Whether the plan `r` schedules the file at position `j` for
/// deletion.
pub open spec fn planned(r: Seq<usize>, j: int) -> bool {
    exists|a: int| 0 <= a < r.len() && r[a] == j
}

spec fn count_false(s: Seq<bool>) -> int
    decreases s.len(),
{
    if s.len() == 0 {
        0
    } else {
        if s.last() {
            count_false(s.drop_last())
        } else {
            count_false(s.drop_last()) + 1
        }
    }
}

proof fn lemma_count_false_bounds(s: Seq<bool>)
    ensures
        0 <= count_false(s),
        (count_false(s) == 0) <==> (forall|i: int| 0 <= i < s.len() ==> s[i]),
    decreases s.len(),
{
    if s.len() > 0 {
        lemma_count_false_bounds(s.drop_last());
        if count_false(s) == 0 {
            assert forall|i: int| 0 <= i < s.len() implies s[i] by {
                if i < s.len() - 1 {
                    assert(s.drop_last()[i]);
                }
            }
        }
        if forall|i: int| 0 <= i < s.len() ==> s[i] {
            assert forall|i: int| 0 <= i < s.drop_last().len() implies s.drop_last()[i] by {
                assert(s[i]);
            }
            assert(s[s.len() - 1]);
        }
    }
}

proof fn lemma_count_false_update(s: Seq<bool>, i: int)
    requires
        0 <= i < s.len(),
        !s[i],
    ensures
        count_false(s.update(i, true)) == count_false(s) - 1,
    decreases s.len(),
{
    let t = s.update(i, true);
    if i == s.len() - 1 {
        assert(t.drop_last() =~= s.drop_last());
    } else {
        assert(t.drop_last() =~= s.drop_last().update(i, true));
        lemma_count_false_update(s.drop_last(), i);
    }
}

/// Retention bound law: one run over a folder of `m` archives
/// with keep-count `keep` deletes all but `keep` of them when
/// more than `keep` are present and none otherwise, so exactly
/// the smaller of `m` and `keep` archives remain.
pub proof fn lemma_retention_bound(m: int, keep: int)
    requires
        0 <= m,
        0 <= keep,
    ensures
        m - spec_delete_count(m, keep) == (if m <= keep {
            m
        } else {
            keep
        }),
{
}

/// Plans one retention run.  Given the folder's archive files
/// and the keep-count, returns the positions of the files to
/// delete, oldest first: nothing when at most `keep` files are
/// present, and otherwise exactly enough that `keep` remain.
/// Every scheduled file predates every file that stays.
pub fn plan_retention(files: &Vec<ArchiveFile>, keep: usize) -> (r: Vec<usize>)
    ensures
        r@.len() == spec_delete_count(files@.len() as int, keep as int),
        forall|a: int| 0 <= a < r@.len() ==> (#[trigger] r@[a]) < files@.len(),
        forall|a: int, b: int|
            0 <= a < b < r@.len() ==> deleted_before(files@, r@[a] as int, r@[b] as int),
        forall|a: int, b: int| 0 <= a < b < r@.len() ==> r@[a] != r@[b],
        forall|a: int, j: int|
            0 <= a < r@.len() && 0 <= j < files@.len() && !planned(r@, j) ==> deleted_before(
                files@,
                r@[a] as int,
                j,
            ),
{
    let m = files.len();
    let total: usize = if m > keep {
        m - keep
    } else {
        0
    };
    let mut taken: Vec<bool> = Vec::new();
    let mut k: usize = 0;
    while k < m
        invariant
            0 <= k <= m,
            taken@.len() == k,
            count_false(taken@) == k,
            forall|j: int| 0 <= j < k ==> !(#[trigger] taken@[j]),
        decreases m - k,
    {
        let ghost prev = taken@;
        taken.push(false);
        proof {
            assert(taken@.drop_last() =~= prev);
        }
        k += 1;
    }
    let mut r: Vec<usize> = Vec::new();
    while r.len() < total
        invariant
            total == spec_delete_count(files@.len() as int, keep as int),
            total <= m,
            m == files@.len(),
            taken@.len() == m,
            r@.len() <= total,
            count_false(taken@) == m - r@.len(),
            forall|j: int| 0 <= j < m ==> ((#[trigger] taken@[j]) <==> planned(r@, j)),
            forall|a: int| 0 <= a < r@.len() ==> (#[trigger] r@[a]) < m,
            forall|a: int, b: int|
                0 <= a < b < r@.len() ==> deleted_before(files@, r@[a] as int, r@[b] as int),
            forall|a: int, j: int|
                0 <= a < r@.len() && 0 <= j < m && !planned(r@, j) ==> deleted_before(
                    files@,
                    r@[a] as int,
                    j,
                ),
        decreases total - r@.len(),
    {
        let mut have_best: bool = false;
        let mut best: usize = 0;
        let mut j: usize = 0;
        while j < m
            invariant
                0 <= j <= m,
                m == files@.len(),
                taken@.len() == m,
                !have_best ==> forall|k2: int| 0 <= k2 < j ==> #[trigger] taken@[k2],
                have_best ==> best < j && !taken@[best as int],
                have_best ==> forall|k2: int|
                    0 <= k2 < j && !(#[trigger] taken@[k2]) && k2 != best ==> deleted_before(
                        files@,
                        best as int,
                        k2,
                    ),
            decreases m - j,
        {
            if !taken[j] {
                if !have_best {
                    have_best = true;
                    best = j;
                } else if files[j].created < files[best].created {
                    best = j;
                }
            }
            j += 1;
        }
        proof {
            if !have_best {
                lemma_count_false_bounds(taken@);
            }
        }
        let ghost old_r = r@;
        let ghost old_taken = taken@;
        taken.set(best, true);
        r.push(best);
        proof {
            lemma_count_false_update(old_taken, best as int);
            assert forall|j2: int| 0 <= j2 < m implies ((#[trigger] taken@[j2]) <==> planned(
                r@,
                j2,
            )) by {
                if j2 == best as int {
                    assert(r@[r@.len() - 1] == best);
                } else {
                    if planned(old_r, j2) {
                        let a = choose|a: int| 0 <= a < old_r.len() && old_r[a] == j2;
                        assert(r@[a] == j2);
                    }
                    if planned(r@, j2) {
                        let a = choose|a: int| 0 <= a < r@.len() && r@[a] == j2;
                        assert(old_r[a] == j2);
                    }
                }
            }
            assert forall|a: int, j2: int|
                0 <= a < r@.len() && 0 <= j2 < m && !planned(r@, j2) implies deleted_before(
                files@,
                r@[a] as int,
                j2,
            ) by {
                assert(j2 != best as int) by {
                    if j2 == best as int {
                        assert(r@[r@.len() - 1] == best);
                    }
                }
                assert(!taken@[j2]);
                assert(!old_taken[j2]);
                assert(!planned(old_r, j2)) by {
                    if planned(old_r, j2) {
                        let a2 = choose|a2: int| 0 <= a2 < old_r.len() && old_r[a2] == j2;
                        assert(r@[a2] == j2);
                    }
                }
                if a < old_r.len() {
                    assert(deleted_before(files@, old_r[a] as int, j2));
                } else {
                    assert(r@[a] == best);
                    assert(j2 != best as int);
                }
            }
            assert forall|a: int, b: int| 0 <= a < b < r@.len() implies deleted_before(
                files@,
                r@[a] as int,
                r@[b] as int,
            ) by {
                if b == r@.len() - 1 {
                    assert(r@[b] == best);
                    assert(!planned(old_r, best as int)) by {
                        if planned(old_r, best as int) {
                            let a2 = choose|a2: int|
                                0 <= a2 < old_r.len() && old_r[a2] == best;
                        }
                    }
                    assert(deleted_before(files@, old_r[a] as int, best as int));
                }
            }
        }
    }
    proof {
        assert forall|a: int, b: int| 0 <= a < b < r@.len() implies r@[a] != r@[b] by {
            assert(deleted_before(files@, r@[a] as int, r@[b] as int));
        }
    }
    r
}

} // verus!
