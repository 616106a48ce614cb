use vstd::arithmetic::power2::{lemma2_to64, lemma_pow2_strictly_increases, pow2};
use vstd::prelude::*;

use crate::dqht::dqhtc_inserted;
use crate::element::Element;
use crate::qht::qhtc_inserted;
use crate::qhtcore::{fingerprint_of, is_first_empty, lemma_fingerprint_range, placed, QhtState};
use crate::qqhtd::dqqhtc_inserted;

verus! {

/// In a well-formed filter, the fingerprint of any element lies in
/// `[1, 2^fingerprint_size)` and its address is a cell of the filter.
pub proof fn lemma_fingerprint_and_address(s: QhtState, e: Element)
    requires
        s.wf(),
    ensures
        1 <= s.fingerprint(e) < pow2(s.fingerprint_size),
        0 <= s.address(e) < s.n_cells,
{
    lemma2_to64();
    lemma_pow2_strictly_increases(0, s.fingerprint_size);
    lemma_fingerprint_range(e, pow2(s.fingerprint_size), 0);
}

/// A filter whose buckets are all empty answers false to every lookup.
pub proof fn lemma_empty_contains_nothing(s: QhtState, e: Element)
    requires
        s.wf(),
        s.is_empty(),
    ensures
        !s.contains(e),
{
    lemma_fingerprint_and_address(s, e);
    let cell = s.cells[s.address(e)];
    assert forall|b: int| 0 <= b < cell.len() implies cell[b] != s.fingerprint(e) by {
        assert(s.cells[s.address(e)][b] == 0);
    }
}

/// Writing a fingerprint of the right width into one cell keeps a filter
/// well formed, and the cell then holds the fingerprint.
proof fn lemma_placed(s: QhtState, e: Element, t: QhtState)
    requires
        s.wf(),
        placed(s, s.address(e), s.fingerprint(e), t),
    ensures
        t.wf(),
        t.contains(e),
{
    lemma_fingerprint_and_address(s, e);
    let a = s.address(e);
    let fp = s.fingerprint(e);
    let cell = s.cells[a];
    let b = if cell.contains(0) {
        choose|i: int| is_first_empty(cell, i) && t == s.with_cell(a, cell.update(i, fp))
    } else {
        choose|b: int| 0 <= b < s.n_buckets && t == s.with_cell(a, cell.update(b, fp))
    };
    assert(t.cells[a][b] == fp);
    assert forall|a2: int, b2: int| 0 <= a2 < t.n_cells && 0 <= b2 < t.n_buckets implies #[trigger] t.cells[a2][b2]
        < pow2(t.fingerprint_size) by {
        if a2 != a {
            assert(t.cells[a2][b2] == s.cells[a2][b2]);
        } else if b2 != b {
            assert(t.cells[a2][b2] == s.cells[a2][b2]);
        }
    }
    assert forall|a2: int| 0 <= a2 < t.n_cells implies #[trigger] t.cells[a2].len() == t.n_buckets by {
        if a2 != a {
            assert(t.cells[a2] == s.cells[a2]);
        }
    }
}

/// QHTc: right after an insertion of `e`, a lookup of `e` answers true, and
/// the filter stays well formed.
pub proof fn lemma_qhtc_insert_then_lookup(s: QhtState, e: Element, t: QhtState)
    requires
        s.wf(),
        qhtc_inserted(s, e, t),
    ensures
        t.wf(),
        t.contains(e),
{
    if !s.contains(e) {
        lemma_placed(s, e, t);
    }
}

/// dQHTc: right after an insertion of `e`, a lookup of `e` answers true,
/// and the filter stays well formed.
pub proof fn lemma_dqhtc_insert_then_lookup(s: QhtState, e: Element, t: QhtState)
    requires
        s.wf(),
        dqhtc_inserted(s, e, t),
    ensures
        t.wf(),
        t.contains(e),
{
    lemma_placed(s, e, t);
}

/// dqQHTc: right after an insertion of `e`, a lookup of `e` answers true,
/// and the filter stays well formed.
pub proof fn lemma_dqqhtc_insert_then_lookup(s: QhtState, e: Element)
    requires
        s.wf(),
    ensures
        dqqhtc_inserted(s, e).wf(),
        dqqhtc_inserted(s, e).contains(e),
        dqqhtc_inserted(s, e).n_cells == s.n_cells,
        dqqhtc_inserted(s, e).n_buckets == s.n_buckets,
        dqqhtc_inserted(s, e).fingerprint_size == s.fingerprint_size,
{
    lemma_fingerprint_and_address(s, e);
    let t = dqqhtc_inserted(s, e);
    let a = s.address(e);
    assert(t.cells[a][s.n_buckets - 1] == s.fingerprint(e));
    assert forall|a2: int, b2: int| 0 <= a2 < t.n_cells && 0 <= b2 < t.n_buckets implies #[trigger] t.cells[a2][b2]
        < pow2(t.fingerprint_size) by {
        if a2 != a {
            assert(t.cells[a2][b2] == s.cells[a2][b2]);
        } else if b2 < s.n_buckets - 1 {
            assert(t.cells[a2][b2] == s.cells[a2][b2 + 1]);
        }
    }
    assert forall|a2: int| 0 <= a2 < t.n_cells implies #[trigger] t.cells[a2].len() == t.n_buckets by {
        if a2 != a {
            assert(t.cells[a2] == s.cells[a2]);
        }
    }
}

/// QHTc: on an empty filter the first insertion of `e` reports it absent,
/// and a second insertion right after reports it present.
pub proof fn lemma_qhtc_insert_twice(s: QhtState, e: Element, t: QhtState, u: QhtState)
    requires
        s.wf(),
        s.is_empty(),
        qhtc_inserted(s, e, t),
        qhtc_inserted(t, e, u),
    ensures
        !s.contains(e),
        t.contains(e),
        u == t,
{
    lemma_empty_contains_nothing(s, e);
    lemma_qhtc_insert_then_lookup(s, e, t);
}

/// dQHTc: on an empty filter the first insertion of `e` reports it absent,
/// and a second insertion right after reports it present.
pub proof fn lemma_dqhtc_insert_twice(s: QhtState, e: Element, t: QhtState, u: QhtState)
    requires
        s.wf(),
        s.is_empty(),
        dqhtc_inserted(s, e, t),
        dqhtc_inserted(t, e, u),
    ensures
        !s.contains(e),
        t.contains(e),
        u.contains(e),
{
    lemma_empty_contains_nothing(s, e);
    lemma_dqhtc_insert_then_lookup(s, e, t);
    lemma_dqhtc_insert_then_lookup(t, e, u);
}

/// dqQHTc: on an empty filter the first insertion of `e` reports it absent,
/// and a second insertion right after reports it present.
pub proof fn lemma_dqqhtc_insert_twice(s: QhtState, e: Element)
    requires
        s.wf(),
        s.is_empty(),
    ensures
        !s.contains(e),
        dqqhtc_inserted(s, e).contains(e),
{
    lemma_empty_contains_nothing(s, e);
    lemma_dqqhtc_insert_then_lookup(s, e);
}

/// A dqQHTc filter after inserting `items` in order.
pub open spec fn dqqhtc_inserted_all(s: QhtState, items: Seq<Element>) -> QhtState
    decreases items.len(),
{
    if items.len() == 0 {
        s
    } else {
        dqqhtc_inserted(dqqhtc_inserted_all(s, items.drop_last()), items.last())
    }
}

/// The fingerprints of `items`, `fingerprint_size` bits wide.
pub open spec fn fingerprints(items: Seq<Element>, fingerprint_size: nat) -> Seq<nat> {
    Seq::new(items.len(), |i: int| fingerprint_of(items[i], fingerprint_size))
}

/// dqQHTc keeps each cell in arrival order: after elements that all map to
/// cell `a` are inserted, the cell holds the last `n_buckets` of its former
/// contents followed by their fingerprints, oldest first.
pub proof fn lemma_dqqhtc_fifo(s: QhtState, items: Seq<Element>, a: int)
    requires
        s.wf(),
        0 <= a < s.n_cells,
        forall|i: int| 0 <= i < items.len() ==> #[trigger] s.address(items[i]) == a,
    ensures
        dqqhtc_inserted_all(s, items).wf(),
        dqqhtc_inserted_all(s, items).n_cells == s.n_cells,
        dqqhtc_inserted_all(s, items).n_buckets == s.n_buckets,
        dqqhtc_inserted_all(s, items).fingerprint_size == s.fingerprint_size,
        dqqhtc_inserted_all(s, items).cells[a] == (s.cells[a] + fingerprints(
            items,
            s.fingerprint_size,
        )).subrange(items.len() as int, (items.len() + s.n_buckets) as int),
    decreases items.len(),
{
    let k = items.len();
    let n = s.n_buckets;
    let all = s.cells[a] + fingerprints(items, s.fingerprint_size);
    if k == 0 {
        assert(all.subrange(0, n as int) =~= s.cells[a]);
    } else {
        let front = items.drop_last();
        assert forall|i: int| 0 <= i < front.len() implies #[trigger] s.address(front[i]) == a by {
            assert(front[i] == items[i]);
        }
        lemma_dqqhtc_fifo(s, front, a);
        let p = dqqhtc_inserted_all(s, front);
        let e = items.last();
        assert(s.address(items[k - 1]) == a);
        lemma_dqqhtc_insert_then_lookup(p, e);
        let prev = s.cells[a] + fingerprints(front, s.fingerprint_size);
        assert(p.address(e) == a);
        assert(dqqhtc_inserted_all(s, items).cells[a] =~= all.subrange(k as int, (k + n) as int)) by {
            assert(p.cells[a] =~= prev.subrange(k - 1, k - 1 + n));
            assert forall|j: int| 0 <= j < prev.len() implies #[trigger] prev[j] == all[j] by {}
            assert(all[k - 1 + n] == p.fingerprint(e));
        }
    }
}

} // verus!
