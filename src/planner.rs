//! Windows of offset and size that cover a table of a known row count.
use vstd::prelude::*;

verus! {

/// One step of a paginated extraction: the rows `[offset, offset + size)`,
/// numbered from 1 by `sequence`.
#[derive(Clone, Copy, Debug, PartialEq, Eq, Structural)]
pub struct ChunkWindow {
    pub offset: u64,
    pub size: u64,
    pub sequence: u64,
}

/// How many windows cover `total` rows in windows of `chunk` rows: the
/// ceiling of `total / chunk`, and one empty window for an empty table.
pub open spec fn window_count(total: nat, chunk: nat) -> nat
    recommends
        chunk > 0,
{
    if total == 0 {
        1
    } else {
        ((total + chunk - 1) / chunk as int) as nat
    }
}

/// The first row of window `i`.
pub open spec fn window_offset(chunk: nat, i: nat) -> nat {
    i * chunk
}

/// The number of rows of window `i`: `chunk`, or what is left of the table.
pub open spec fn window_size(total: nat, chunk: nat, i: nat) -> nat {
    if total - window_offset(chunk, i) < chunk {
        (total - window_offset(chunk, i)) as nat
    } else {
        chunk
    }
}

/// The `i`-th window that covers `total` rows in windows of `chunk` rows.
pub open spec fn window_at(total: nat, chunk: nat, i: nat) -> ChunkWindow {
    ChunkWindow {
        offset: window_offset(chunk, i) as u64,
        size: window_size(total, chunk, i) as u64,
        sequence: (i + 1) as u64,
    }
}

proof fn lemma_ceiling(total: int, chunk: int, count: int)
    requires
        chunk > 0,
        total > 0,
        count >= 1,
        (count - 1) * chunk < total,
        total <= count * chunk,
    ensures
        count == (total + chunk - 1) / chunk,
{
    assert(count == (total + chunk - 1) / chunk) by (nonlinear_arith)
        requires
            chunk > 0,
            (count - 1) * chunk < total,
            total <= count * chunk,
    {
        assert((count - 1) * chunk <= total + chunk - 1 - chunk + 0) by (nonlinear_arith)
            requires
                (count - 1) * chunk < total,
        {
        }
    }
}

/// Plans the windows of a paginated extraction of `total` rows, `chunk` rows
/// at a time. An empty table still gets one window of size zero, so that it
/// is written as a file with a header and no records.
pub fn plan_windows(total: u64, chunk: u64) -> (r: Vec<ChunkWindow>)
    requires
        chunk > 0,
    ensures
        r@.len() == window_count(total as nat, chunk as nat),
        forall|i: int| 0 <= i < r@.len() ==> r@[i] == window_at(total as nat, chunk as nat, i as nat),
{
    let mut windows: Vec<ChunkWindow> = Vec::new();
    if total == 0 {
        windows.push(ChunkWindow { offset: 0, size: 0, sequence: 1 });
        assert(window_offset(chunk as nat, 0) == 0) by (nonlinear_arith);
        assert(windows@[0] == window_at(0, chunk as nat, 0));
        return windows;
    }
    let mut offset: u64 = 0;
    let mut count: u64 = 0;
    while offset < total
        invariant
            chunk > 0,
            total > 0,
            offset <= total,
            windows@.len() == count,
            offset < total ==> offset == count * chunk,
            count >= 1 ==> (count - 1) * chunk < total,
            offset == total ==> total <= count * chunk,
            forall|i: int| 0 <= i < count ==> windows@[i] == window_at(total as nat, chunk as nat, i as nat),
        decreases total - offset,
    {
        let rest = total - offset;
        let size = if rest < chunk { rest } else { chunk };
        assert(count < total) by (nonlinear_arith)
            requires
                offset == count * chunk,
                offset < total,
                chunk > 0,
        {
        }
        windows.push(ChunkWindow { offset, size, sequence: count + 1 });
        assert(offset + size == total || offset + size == (count + 1) * chunk) by (nonlinear_arith)
            requires
                offset == count * chunk,
                size == chunk || offset + size == total,
        {
        }
        assert((count + 1) * chunk == count * chunk + chunk) by (nonlinear_arith);
        offset = offset + size;
        count = count + 1;
    }
    proof {
        lemma_ceiling(total as int, chunk as int, count as int);
    }
    windows
}

/// The windows of a table cover it in order: their number is the ceiling of
/// `total / chunk` (one empty window for an empty table), no window holds
/// more than `chunk` rows, each window starts where the one before it started
/// plus `chunk`, every window but the last is full, and the last one ends at
/// the table's last row.
pub proof fn law_windows_cover(total: nat, chunk: nat)
    requires
        chunk > 0,
    ensures
        total == 0 ==> window_count(total, chunk) == 1,
        total > 0 ==> window_count(total, chunk) * chunk >= total,
        total > 0 ==> (window_count(total, chunk) - 1) * chunk < total,
        forall|i: nat| i < window_count(total, chunk) ==> #[trigger] window_size(total, chunk, i) <= chunk,
        forall|i: nat|
            0 < i < window_count(total, chunk) ==> #[trigger] window_offset(chunk, i) == window_offset(chunk, (i - 1) as nat) + chunk,
        forall|i: nat| i + 1 < window_count(total, chunk) ==> #[trigger] window_size(total, chunk, i) == chunk,
        window_offset(chunk, (window_count(total, chunk) - 1) as nat) + window_size(total, chunk, (window_count(total, chunk) - 1) as nat) == total,
{
    let count = window_count(total, chunk);
    if total > 0 {
        assert(count * chunk >= total && (count - 1) * chunk < total) by (nonlinear_arith)
            requires
                chunk > 0,
                total > 0,
                count == (total + chunk - 1) / chunk as int,
        {
        }
    }
    assert forall|i: nat| i < count implies #[trigger] window_size(total, chunk, i) <= chunk by {
        if total == 0 {
            assert(i * chunk == 0) by (nonlinear_arith)
                requires
                    i == 0,
            {
            }
        } else {
            assert(i * chunk <= (count - 1) * chunk) by (nonlinear_arith)
                requires
                    i <= count - 1,
            {
            }
        }
    }
    assert forall|i: nat| 0 < i < count implies #[trigger] window_offset(chunk, i) == window_offset(chunk, (i - 1) as nat) + chunk by {
        assert(i * chunk == (i - 1) * chunk + chunk) by (nonlinear_arith);
    }
    assert forall|i: nat| i + 1 < count implies #[trigger] window_size(total, chunk, i) == chunk by {
        if total > 0 {
            assert((i + 1) * chunk <= (count - 1) * chunk) by (nonlinear_arith)
                requires
                    i + 1 <= count - 1,
            {
            }
            assert((i + 1) * chunk == i * chunk + chunk) by (nonlinear_arith);
        }
    }
    if total > 0 {
        assert((count - 1) * chunk + chunk == count * chunk) by (nonlinear_arith);
    }
}

} // verus!
