//! Diff summary computation for one repository worktree: the per-file
//! entries — parsed by the surrounding application from the version-control
//! tool's output — are ordered by path and totalled. Running the tool and
//! reading its output stay outside; this is the pure tail of that work.

use vstd::prelude::*;
use vstd::string::StringSliceAdditionalSpecFns;
use vstd::utf8::encode_utf8;
use vstd::seq_lib::group_to_multiset_ensures;
use vstd::multiset::Multiset;
use crate::types::DiffFileSummary;
use crate::types::DiffSummary;

verus! {

/// Byte-wise lexicographic order on path content.
pub open spec fn bytes_le(a: Seq<u8>, b: Seq<u8>) -> bool
    decreases a.len(),
{
    if a.len() == 0 {
        true
    } else if b.len() == 0 {
        false
    } else if a[0] < b[0] {
        true
    } else if a[0] > b[0] {
        false
    } else {
        bytes_le(a.skip(1), b.skip(1))
    }
}

/// Order of two per-file entries: by the bytes of their paths.
pub open spec fn path_le(a: DiffFileSummary, b: DiffFileSummary) -> bool {
    bytes_le(encode_utf8(a.path@), encode_utf8(b.path@))
}

/// Whether the entries are in path order.
pub open spec fn sorted_by_path(s: Seq<DiffFileSummary>) -> bool {
    forall|i: int, j: int| 0 <= i < j < s.len() ==> path_le(s[i], s[j])
}

/// No two entries share a path: each file has been merged into a single
/// entry before the summary is computed.
pub open spec fn distinct_paths(s: Seq<DiffFileSummary>) -> bool {
    forall|i: int, j: int|
        0 <= i < s.len() && 0 <= j < s.len() && i != j ==> s[i].path@ != s[j].path@
}

/// The added-line total of the entries.
pub open spec fn sum_added(s: Seq<DiffFileSummary>) -> int
    decreases s.len(),
{
    if s.len() == 0 {
        0
    } else {
        s[0].added + sum_added(s.skip(1))
    }
}

/// The removed-line total of the entries.
pub open spec fn sum_removed(s: Seq<DiffFileSummary>) -> int
    decreases s.len(),
{
    if s.len() == 0 {
        0
    } else {
        s[0].removed + sum_removed(s.skip(1))
    }
}

proof fn lemma_sums_nonneg(s: Seq<DiffFileSummary>)
    ensures
        sum_added(s) >= 0,
        sum_removed(s) >= 0,
    decreases s.len(),
{
    if s.len() > 0 {
        lemma_sums_nonneg(s.skip(1));
    }
}

/// The order is total.
proof fn lemma_bytes_le_total(a: Seq<u8>, b: Seq<u8>)
    ensures
        bytes_le(a, b) || bytes_le(b, a),
    decreases a.len(),
{
    if a.len() > 0 && b.len() > 0 && a[0] == b[0] {
        lemma_bytes_le_total(a.skip(1), b.skip(1));
    }
}

/// The order is transitive.
proof fn lemma_bytes_le_trans(a: Seq<u8>, b: Seq<u8>, c: Seq<u8>)
    requires
        bytes_le(a, b),
        bytes_le(b, c),
    ensures
        bytes_le(a, c),
    decreases a.len(),
{
    if a.len() == 0 {
    } else {
        assert(b.len() > 0);
        assert(c.len() > 0);
        if a[0] == b[0] && b[0] == c[0] {
            lemma_bytes_le_trans(a.skip(1), b.skip(1), c.skip(1));
        }
    }
}

/// Whether the first path is at most the second, byte-wise.
fn str_le(a: &str, b: &str) -> (r: bool)
    ensures
        r == bytes_le(a.spec_bytes(), b.spec_bytes()),
{
    let ab = a.as_bytes();
    let bb = b.as_bytes();
    let mut i: usize = 0;
    proof {
        assert(ab@.skip(0) =~= ab@);
        assert(bb@.skip(0) =~= bb@);
    }
    loop
        invariant
            i <= ab@.len(),
            i <= bb@.len(),
            ab@ == a.spec_bytes(),
            bb@ == b.spec_bytes(),
            bytes_le(a.spec_bytes(), b.spec_bytes()) == bytes_le(
                ab@.skip(i as int),
                bb@.skip(i as int),
            ),
        decreases ab@.len() - i,
    {
        if i >= ab.len() {
            proof {
                assert(ab@.skip(i as int).len() == 0);
            }
            return true;
        }
        if i >= bb.len() {
            proof {
                assert(bb@.skip(i as int).len() == 0);
                assert(ab@.skip(i as int).len() > 0);
            }
            return false;
        }
        let x = ab[i];
        let y = bb[i];
        proof {
            assert(ab@.skip(i as int)[0] == ab@[i as int]);
            assert(bb@.skip(i as int)[0] == bb@[i as int]);
            assert(ab@.skip(i as int).skip(1) =~= ab@.skip(i as int + 1));
            assert(bb@.skip(i as int).skip(1) =~= bb@.skip(i as int + 1));
        }
        if x < y {
            return true;
        }
        if x > y {
            return false;
        }
        i = i + 1;
    }
}

/// The whole-worktree summary: the entries — one per path — in strictly
/// ascending path order, with the line totals of the given entries. The
/// result holds exactly the given entries, reordered.
pub fn compute_diff_summary(files: Vec<DiffFileSummary>) -> (r: DiffSummary)
    requires
        distinct_paths(files@),
        sum_added(files@) <= u32::MAX,
        sum_removed(files@) <= u32::MAX,
    ensures
        r.files@.to_multiset() == files@.to_multiset(),
        sorted_by_path(r.files@),
        distinct_paths(r.files@),
        r.total_added as int == sum_added(files@),
        r.total_removed as int == sum_removed(files@),
{
    broadcast use group_to_multiset_ensures;

    let ghost orig = files@;
    let mut total_added: u32 = 0;
    let mut total_removed: u32 = 0;
    let n = files.len();
    let mut i: usize = 0;
    proof {
        assert(orig.take(0) =~= Seq::<DiffFileSummary>::empty());
        assert(orig.skip(0) =~= orig);
    }
    while i < n
        invariant
            i <= n,
            n == files@.len(),
            files@ == orig,
            total_added as int == sum_added(orig.take(i as int)),
            total_removed as int == sum_removed(orig.take(i as int)),
            sum_added(orig.take(i as int)) + sum_added(orig.skip(i as int)) == sum_added(orig),
            sum_removed(orig.take(i as int)) + sum_removed(orig.skip(i as int)) == sum_removed(
                orig,
            ),
            sum_added(orig) <= u32::MAX,
            sum_removed(orig) <= u32::MAX,
        decreases n - i,
    {
        proof {
            assert(orig.skip(i as int)[0] == orig[i as int]);
            assert(orig.skip(i as int).skip(1) =~= orig.skip(i as int + 1));
            lemma_sums_nonneg(orig.skip(i as int + 1));
            lemma_sums_nonneg(orig.take(i as int));
            lemma_sum_take_push(orig, i as int);
        }
        total_added = total_added + files[i].added;
        total_removed = total_removed + files[i].removed;
        i = i + 1;
    }
    proof {
        assert(orig.take(n as int) =~= orig);
    }
    let mut sorted: Vec<DiffFileSummary> = Vec::new();
    let mut rest = files;
    while rest.len() > 0
        invariant
            sorted_by_path(sorted@),
            sorted@.to_multiset().add(rest@.to_multiset()) =~= orig.to_multiset(),
        decreases rest@.len(),
    {
        broadcast use group_to_multiset_ensures;

        let ghost rest0 = rest@;
        let x = rest.remove(0);
        proof {
            assert(x == rest0[0]);
            assert(rest@ == rest0.remove(0));
            assert(rest@.to_multiset() =~= rest0.to_multiset().remove(x));
            assert(rest0.contains(x));
            assert(rest0.to_multiset().count(x) > 0);
        }
        let ghost pre = sorted@;
        let mut k: usize = 0;
        let sn = sorted.len();
        while k < sn && str_le(sorted[k].path.as_str(), x.path.as_str())
            invariant
                k <= sn,
                sn == sorted@.len(),
                sorted@ == pre,
                forall|m: int| 0 <= m < k ==> path_le(#[trigger] pre[m], x),
            decreases sn - k,
        {
            k = k + 1;
        }
        sorted.insert(k, x);
        proof {
            assert(sorted@ == pre.insert(k as int, x));
            assert(sorted@[k as int] == x);
            assert forall|m: int| 0 <= m < sorted@.len() implies #[trigger] sorted@[m] == (if m
                < k as int {
                pre[m]
            } else if m == k as int {
                x
            } else {
                pre[m - 1]
            }) by {}
            assert forall|a: int, b: int|
                0 <= a < b < sorted@.len() implies path_le(sorted@[a], sorted@[b]) by {
                if b < k as int {
                    assert(sorted@[a] == pre[a] && sorted@[b] == pre[b]);
                } else if a > k as int {
                    assert(sorted@[a] == pre[a - 1] && sorted@[b] == pre[b - 1]);
                } else if a == k as int {
                    assert(sorted@[b] == pre[b - 1]);
                    assert(k as int <= b - 1 < pre.len());
                    assert(!path_le(pre[k as int], x));
                    lemma_bytes_le_total(
                        encode_utf8(pre[k as int].path@),
                        encode_utf8(x.path@),
                    );
                    if (k as int) < b - 1 {
                        assert(path_le(pre[k as int], pre[b - 1]));
                        lemma_bytes_le_trans(
                            encode_utf8(x.path@),
                            encode_utf8(pre[k as int].path@),
                            encode_utf8(pre[b - 1].path@),
                        );
                    }
                } else if b == k as int {
                    assert(sorted@[a] == pre[a]);
                    assert(path_le(pre[a], x));
                } else {
                    assert(sorted@[a] == pre[a]);
                    assert(sorted@[b] == pre[b - 1]);
                    if a < k as int && k as int <= b - 1 {
                        if a == b - 1 {
                            assert(path_le(pre[a], x));
                            assert(!path_le(pre[k as int], x));
                            lemma_bytes_le_total(
                                encode_utf8(pre[k as int].path@),
                                encode_utf8(x.path@),
                            );
                        } else {
                            assert(path_le(pre[a], pre[b - 1]));
                        }
                    }
                }
            }
            assert(sorted@.remove(k as int) =~= pre);
            assert(sorted@.remove(k as int).to_multiset() =~= sorted@.to_multiset().remove(x));
            assert(sorted@.to_multiset().contains(x)) by {
                assert(sorted@[k as int] == x);
                assert(sorted@.contains(x));
            }
            assert(sorted@.to_multiset() =~= pre.to_multiset().insert(x));
            assert(sorted@.to_multiset().add(rest@.to_multiset()) =~= orig.to_multiset()) by {
                assert(pre.to_multiset().add(rest0.to_multiset()) =~= orig.to_multiset());
                assert forall|e: DiffFileSummary|
                    #[trigger] sorted@.to_multiset().add(rest@.to_multiset()).count(e)
                        == orig.to_multiset().count(e) by {
                    assert(sorted@.to_multiset().count(e) == pre.to_multiset().count(e) + (if e
                        == x {
                        1int
                    } else {
                        0int
                    }));
                    assert(rest@.to_multiset().count(e) == rest0.to_multiset().count(e) - (if e
                        == x {
                        1int
                    } else {
                        0int
                    }));
                }
            }
        }
    }
    proof {
        assert(rest@.to_multiset() =~= Multiset::<DiffFileSummary>::empty());
        assert(sorted@.to_multiset() =~= orig.to_multiset());
        assert(orig.no_duplicates()) by {
            assert forall|i: int, j: int|
                0 <= i < orig.len() && 0 <= j < orig.len() && i != j implies orig[i]
                != orig[j] by {
                assert(orig[i].path@ != orig[j].path@);
            }
        }
        orig.lemma_multiset_has_no_duplicates();
        sorted@.lemma_multiset_has_no_duplicates_conv();
        assert forall|i: int, j: int|
            0 <= i < sorted@.len() && 0 <= j < sorted@.len() && i != j implies sorted@[i].path@
            != sorted@[j].path@ by {
            if sorted@[i].path@ == sorted@[j].path@ {
                assert(sorted@[i] != sorted@[j]);
                assert(sorted@.contains(sorted@[i]));
                assert(sorted@.contains(sorted@[j]));
                assert(orig.to_multiset().contains(sorted@[i]));
                assert(orig.to_multiset().contains(sorted@[j]));
                assert(orig.contains(sorted@[i]));
                assert(orig.contains(sorted@[j]));
                let k = choose|k: int| 0 <= k < orig.len() && orig[k] == sorted@[i];
                let l = choose|l: int| 0 <= l < orig.len() && orig[l] == sorted@[j];
                assert(k != l);
                assert(orig[k].path@ != orig[l].path@);
            }
        }
    }
    DiffSummary { files: sorted, total_added, total_removed }
}

/// The prefix sums grow by exactly the element crossed.
proof fn lemma_sum_take_push(s: Seq<DiffFileSummary>, i: int)
    requires
        0 <= i < s.len(),
    ensures
        sum_added(s.take(i + 1)) == sum_added(s.take(i)) + s[i].added,
        sum_removed(s.take(i + 1)) == sum_removed(s.take(i)) + s[i].removed,
    decreases i,
{
    if i == 0 {
        assert(s.take(1)[0] == s[0]);
        assert(s.take(1).skip(1) =~= Seq::<DiffFileSummary>::empty());
        assert(s.take(0) =~= Seq::<DiffFileSummary>::empty());
    } else {
        assert(s.take(i + 1)[0] == s[0]);
        assert(s.take(i)[0] == s[0]);
        assert(s.take(i + 1).skip(1) =~= s.skip(1).take(i));
        assert(s.take(i).skip(1) =~= s.skip(1).take(i - 1));
        assert(s.skip(1)[i - 1] == s[i]);
        lemma_sum_take_push(s.skip(1), i - 1);
    }
}

} // verus!
