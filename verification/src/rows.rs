//! What it means to copy the rows of a source into row slots of a destination.
use vstd::prelude::*;

verus! {

/// Whether byte `k` of the destination lies in one of the first `n` row slots.
pub open spec fn covered(starts: Seq<int>, row_bytes: int, n: int, k: int) -> bool {
    exists|r: int| 0 <= r < n && (#[trigger] starts[r]) <= k && k < starts[r] + row_bytes
}

/// The bytes of row `r` of a source whose rows are `row_bytes` long.
pub open spec fn source_row(src: Seq<u8>, r: int, row_bytes: int) -> Seq<u8> {
    src.subrange(r * row_bytes, r * row_bytes + row_bytes)
}

/// The row slots that start at `starts`, each `row_bytes` long, lie in
/// ascending order inside a buffer of `len` bytes, and no two of them overlap.
pub open spec fn disjoint(starts: Seq<int>, row_bytes: int, len: int) -> bool {
    &&& 0 <= row_bytes
    &&& forall|r: int|
        0 <= r < starts.len() ==> 0 <= (#[trigger] starts[r]) && starts[r] + row_bytes <= len
    &&& forall|a: int, b: int|
        0 <= a < b < starts.len() ==> (#[trigger] starts[a]) + row_bytes <= (#[trigger] starts[b])
}

/// `after` is `before` with the first `n` rows of `src` written into the first
/// `n` row slots: slot `r` holds row `r`, and every byte outside those slots is
/// as it was.
pub open spec fn copied_first(
    before: Seq<u8>,
    after: Seq<u8>,
    src: Seq<u8>,
    starts: Seq<int>,
    row_bytes: int,
    n: int,
) -> bool {
    &&& after.len() == before.len()
    &&& forall|r: int|
        0 <= r < n ==> after.subrange(#[trigger] starts[r], starts[r] + row_bytes) == source_row(
            src,
            r,
            row_bytes,
        )
    &&& forall|k: int|
        0 <= k < before.len() && !covered(starts, row_bytes, n, k) ==> #[trigger] after[k]
            == before[k]
}

/// `after` is `before` with every row of `src` written into its row slot.
pub open spec fn copied(
    before: Seq<u8>,
    after: Seq<u8>,
    src: Seq<u8>,
    starts: Seq<int>,
    row_bytes: int,
) -> bool {
    copied_first(before, after, src, starts, row_bytes, starts.len() as int)
}

/// Writing one more row into its slot extends a copy of the first `n` rows to
/// a copy of the first `n + 1` rows.
pub proof fn lemma_copy_step(
    before: Seq<u8>,
    cur: Seq<u8>,
    next: Seq<u8>,
    src: Seq<u8>,
    starts: Seq<int>,
    row_bytes: int,
    n: int,
)
    requires
        disjoint(starts, row_bytes, before.len() as int),
        0 <= n < starts.len(),
        (n + 1) * row_bytes <= src.len(),
        copied_first(before, cur, src, starts, row_bytes, n),
        next == cur.subrange(0, starts[n]) + source_row(src, n, row_bytes) + cur.subrange(
            starts[n] + row_bytes,
            cur.len() as int,
        ),
    ensures
        copied_first(before, next, src, starts, row_bytes, n + 1),
{
    let s = starts[n];
    assert(0 <= n * row_bytes && n * row_bytes + row_bytes == (n + 1) * row_bytes)
        by (nonlinear_arith)
        requires
            0 <= n,
            0 <= row_bytes,
    ;
    assert(source_row(src, n, row_bytes).len() == row_bytes);
    assert(next.len() == before.len());
    assert forall|r: int| 0 <= r < n + 1 implies next.subrange(
        #[trigger] starts[r],
        starts[r] + row_bytes,
    ) == source_row(src, r, row_bytes) by {
        if r == n {
            assert(next.subrange(s, s + row_bytes) =~= source_row(src, n, row_bytes));
        } else {
            assert(starts[r] + row_bytes <= starts[n]);
            assert(next.subrange(starts[r], starts[r] + row_bytes) =~= cur.subrange(
                starts[r],
                starts[r] + row_bytes,
            ));
        }
    }
    assert forall|k: int|
        0 <= k < before.len() && !covered(starts, row_bytes, n + 1, k) implies #[trigger] next[k]
        == before[k] by {
        assert(!(starts[n] <= k && k < starts[n] + row_bytes));
        assert(next[k] == cur[k]);
        if covered(starts, row_bytes, n, k) {
            let r = choose|r: int|
                0 <= r < n && (#[trigger] starts[r]) <= k && k < starts[r] + row_bytes;
            assert(0 <= r < n + 1 && starts[r] <= k && k < starts[r] + row_bytes);
        }
    }
}

/// Where the slot before slot `n` ends: the start of the buffer for the first slot.
pub open spec fn gap_start(starts: Seq<int>, row_bytes: int, n: int) -> int {
    if n <= 0 {
        0
    } else {
        starts[n - 1] + row_bytes
    }
}

/// The destination up to the end of slot `n - 1`, put together from its
/// pieces: the bytes of `before` between the slots, and `rows[r]` in slot `r`.
pub open spec fn woven(
    before: Seq<u8>,
    rows: Seq<Seq<u8>>,
    starts: Seq<int>,
    row_bytes: int,
    n: int,
) -> Seq<u8>
    decreases n,
{
    if n <= 0 {
        Seq::empty()
    } else {
        woven(before, rows, starts, row_bytes, n - 1) + before.subrange(
            gap_start(starts, row_bytes, n - 1),
            starts[n - 1],
        ) + rows[n - 1]
    }
}

/// The first `n` pieces depend on the first `n` rows only.
pub proof fn lemma_woven_rows(
    before: Seq<u8>,
    rows: Seq<Seq<u8>>,
    others: Seq<Seq<u8>>,
    starts: Seq<int>,
    row_bytes: int,
    n: int,
)
    requires
        n <= rows.len(),
        n <= others.len(),
        forall|r: int| 0 <= r < n ==> rows[r] == others[r],
    ensures
        woven(before, rows, starts, row_bytes, n) == woven(before, others, starts, row_bytes, n),
    decreases n,
{
    if n > 0 {
        lemma_woven_rows(before, rows, others, starts, row_bytes, n - 1);
    }
}

/// A destination put together from the source rows in their slots and the
/// bytes of `before` everywhere else is a copy of those rows into `before`.
pub proof fn lemma_woven_copied(
    before: Seq<u8>,
    rows: Seq<Seq<u8>>,
    src: Seq<u8>,
    starts: Seq<int>,
    row_bytes: int,
    n: int,
)
    requires
        disjoint(starts, row_bytes, before.len() as int),
        0 <= n <= starts.len(),
        n <= rows.len(),
        n * row_bytes <= src.len(),
        forall|r: int| 0 <= r < n ==> #[trigger] rows[r] == source_row(src, r, row_bytes),
    ensures
        woven(before, rows, starts, row_bytes, n).len() == gap_start(starts, row_bytes, n),
        copied_first(
            before,
            woven(before, rows, starts, row_bytes, n) + before.subrange(
                gap_start(starts, row_bytes, n),
                before.len() as int,
            ),
            src,
            starts,
            row_bytes,
            n,
        ),
    decreases n,
{
    let len = before.len() as int;
    if n == 0 {
        let whole = woven(before, rows, starts, row_bytes, 0) + before.subrange(0, len);
        assert(whole =~= before);
        assert forall|k: int|
            0 <= k < before.len() && !covered(starts, row_bytes, 0, k) implies #[trigger] whole[k]
            == before[k] by {}
    } else {
        let m = n - 1;
        assert(m * row_bytes <= n * row_bytes && m * row_bytes + row_bytes == n * row_bytes && 0
            <= m * row_bytes) by (nonlinear_arith)
            requires
                m == n - 1,
                0 <= m,
                0 <= row_bytes,
        ;
        lemma_woven_copied(before, rows, src, starts, row_bytes, m);
        let head = woven(before, rows, starts, row_bytes, m);
        let cur = head + before.subrange(gap_start(starts, row_bytes, m), len);
        let next = woven(before, rows, starts, row_bytes, n) + before.subrange(
            gap_start(starts, row_bytes, n),
            len,
        );
        assert(rows[m] == source_row(src, m, row_bytes));
        assert(rows[m].len() == row_bytes);
        if m > 0 {
            assert(starts[m - 1] + row_bytes <= starts[m]);
        }
        assert(gap_start(starts, row_bytes, m) <= starts[m]);
        assert(next =~= cur.subrange(0, starts[m]) + source_row(src, m, row_bytes) + cur.subrange(
            starts[m] + row_bytes,
            cur.len() as int,
        ));
        lemma_copy_step(before, cur, next, src, starts, row_bytes, m);
    }
}

/// Two copies of one source into the same row slots of one destination are equal.
pub proof fn lemma_copied_unique(
    before: Seq<u8>,
    first: Seq<u8>,
    second: Seq<u8>,
    src: Seq<u8>,
    starts: Seq<int>,
    row_bytes: int,
)
    requires
        disjoint(starts, row_bytes, before.len() as int),
        copied(before, first, src, starts, row_bytes),
        copied(before, second, src, starts, row_bytes),
    ensures
        first == second,
{
    assert forall|k: int| 0 <= k < first.len() implies first[k] == second[k] by {
        if covered(starts, row_bytes, starts.len() as int, k) {
            let r = choose|r: int|
                0 <= r < starts.len() && (#[trigger] starts[r]) <= k && k < starts[r] + row_bytes;
            let a = first.subrange(starts[r], starts[r] + row_bytes);
            let b = second.subrange(starts[r], starts[r] + row_bytes);
            assert(a == b);
            assert(first[k] == a[k - starts[r]]);
            assert(second[k] == b[k - starts[r]]);
        } else {
            assert(first[k] == before[k]);
            assert(second[k] == before[k]);
        }
    }
    assert(first =~= second);
}

/// Copying the same source into the same row slots a second time changes nothing.
pub proof fn lemma_copied_again(
    before: Seq<u8>,
    once: Seq<u8>,
    twice: Seq<u8>,
    src: Seq<u8>,
    starts: Seq<int>,
    row_bytes: int,
)
    requires
        disjoint(starts, row_bytes, before.len() as int),
        copied(before, once, src, starts, row_bytes),
        copied(once, twice, src, starts, row_bytes),
    ensures
        twice == once,
{
    assert forall|k: int| 0 <= k < once.len() implies once[k] == twice[k] by {
        if covered(starts, row_bytes, starts.len() as int, k) {
            let r = choose|r: int|
                0 <= r < starts.len() && (#[trigger] starts[r]) <= k && k < starts[r] + row_bytes;
            let a = once.subrange(starts[r], starts[r] + row_bytes);
            let b = twice.subrange(starts[r], starts[r] + row_bytes);
            assert(a == b);
            assert(once[k] == a[k - starts[r]]);
            assert(twice[k] == b[k - starts[r]]);
        } else {
            assert(twice[k] == once[k]);
        }
    }
    assert(twice =~= once);
}

/// Where there is no row, or the rows are empty, a copy leaves the destination as it was.
pub proof fn lemma_copied_nothing(
    before: Seq<u8>,
    after: Seq<u8>,
    src: Seq<u8>,
    starts: Seq<int>,
    row_bytes: int,
)
    requires
        starts.len() == 0 || row_bytes <= 0,
        copied(before, after, src, starts, row_bytes),
    ensures
        after == before,
{
    assert forall|k: int| 0 <= k < before.len() implies after[k] == before[k] by {
        assert(!covered(starts, row_bytes, starts.len() as int, k));
    }
    assert(after =~= before);
}

} // verus!
