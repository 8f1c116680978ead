//! Crash recovery of a whole transaction: block writes logged one after
//! another in the journal and committed are redone in the order they were
//! logged, whatever became of the in-place writes.
use vstd::prelude::*;
use crate::errno::Errno;
use super::format::ONYFS_BLOCK_SIZE;
use super::fs::{
    commit_entry, has_journal, journal_entry, journal_replay, journal_scan, lemma_commit_entry, lemma_journal_entry,
    redone, spec_journal_commit, spec_journal_log, spec_journal_recover, FsView, JOURNAL_DATA_SIZE,
    JOURNAL_TYPE_BLOCK_WRITE,
};
use crate::le::le_u32;

verus! {

/// Logging the writes `ws[0 .. k]` one after another, stopping at the first
/// error.
pub open spec fn spec_log_all(v: FsView, ws: Seq<(u32, Seq<u8>)>, k: int) -> (Result<(), Errno>, FsView)
    decreases k,
{
    if k <= 0 {
        (Ok(()), v)
    } else {
        let (r, v1) = spec_log_all(v, ws, k - 1);
        match r {
            Err(e) => (Err(e), v1),
            Ok(_) => spec_journal_log(v1, ws[k - 1].0, ws[k - 1].1),
        }
    }
}

/// Redoing the writes `ws[j ..]` in order on `d`: each block gets the first
/// 4088 bytes of its data and keeps its last 8.
pub open spec fn redo_writes(d: Seq<Seq<u8>>, ws: Seq<(u32, Seq<u8>)>, j: int) -> Seq<Seq<u8>>
    decreases ws.len() - j,
{
    if j < 0 || j >= ws.len() {
        d
    } else {
        let b = ws[j].0 as int;
        redo_writes(
            d.update(b, ws[j].1.take(JOURNAL_DATA_SIZE as int) + d[b].subrange(
                JOURNAL_DATA_SIZE as int,
                ONYFS_BLOCK_SIZE as int,
            )),
            ws,
            j + 1,
        )
    }
}

/// Block `b` is one of the journal records `0 ..= k`.
pub open spec fn in_records(v: FsView, b: int, k: int) -> bool {
    v.sb.journal_start <= b <= v.sb.journal_start + k
}

/// The writes fit the transaction: there is at least one, each has a full
/// block of data and a target that exists and lies outside the records.
pub open spec fn writes_ok(v: FsView, ws: Seq<(u32, Seq<u8>)>) -> bool {
    &&& ws.len() > 0
    &&& forall|j: int|
        0 <= j < ws.len() ==> (#[trigger] ws[j]).1.len() == ONYFS_BLOCK_SIZE && ws[j].0 < v.disk.len() && !in_records(
            v,
            ws[j].0 as int,
            ws.len() as int,
        )
}

/// After logging `k` writes from an empty journal, record `j < k` holds
/// write `j`, the head is `k`, and nothing else changed.
proof fn lemma_log_all(v: FsView, ws: Seq<(u32, Seq<u8>)>, k: int)
    requires
        has_journal(v.sb),
        v.head == 0,
        0 <= k <= ws.len(),
        ws.len() < v.sb.journal_size,
        v.sb.journal_start + ws.len() < v.disk.len(),
    ensures
        ({
            let (r, w) = spec_log_all(v, ws, k);
            &&& r is Ok
            &&& w.head == k
            &&& w.sb == v.sb && w.version == v.version
            &&& w.disk.len() == v.disk.len()
            &&& forall|j: int| 0 <= j < k ==> #[trigger] w.disk[v.sb.journal_start + j] == journal_entry(ws[j].0, ws[j].1)
            &&& forall|b: int| 0 <= b < v.disk.len() && !in_records(v, b, k - 1) ==> #[trigger] w.disk[b] == v.disk[b]
        }),
    decreases k,
{
    if k > 0 {
        lemma_log_all(v, ws, k - 1);
    }
}

/// The scan from record `i <= k` stops at the commit record `k` when the
/// records before it are block writes.
proof fn lemma_scan(d: Seq<Seq<u8>>, js: int, size: int, ws: Seq<(u32, Seq<u8>)>, i: int)
    requires
        0 <= i <= ws.len(),
        ws.len() < size,
        0 <= js,
        js + ws.len() < d.len(),
        forall|j: int| 0 <= j < ws.len() ==> (#[trigger] ws[j]).1.len() == ONYFS_BLOCK_SIZE,
        forall|j: int| 0 <= j < ws.len() ==> #[trigger] d[js + j] == journal_entry(ws[j].0, ws[j].1),
        d[js + ws.len()] == commit_entry(),
    ensures
        journal_scan(d, js, size, i) == ws.len(),
    decreases ws.len() - i,
{
    if i < ws.len() {
        lemma_journal_entry(ws[i].0, ws[i].1);
        assert(d[js + i] == journal_entry(ws[i].0, ws[i].1));
        lemma_scan(d, js, size, ws, i + 1);
    } else {
        lemma_commit_entry();
    }
}

/// Replaying records `j .. k` redoes writes `j .. k` in order.
proof fn lemma_replay(d: Seq<Seq<u8>>, js: int, ws: Seq<(u32, Seq<u8>)>, j: int)
    requires
        0 <= j <= ws.len(),
        0 <= js,
        js + ws.len() < d.len(),
        forall|t: int|
            0 <= t < ws.len() ==> (#[trigger] ws[t]).1.len() == ONYFS_BLOCK_SIZE && ws[t].0 < d.len() && !(js
                <= ws[t].0 <= js + ws.len()),
        forall|t: int| j <= t < ws.len() ==> #[trigger] d[js + t] == journal_entry(ws[t].0, ws[t].1),
    ensures
        journal_replay(d, js, j, ws.len() as int) == (true, redo_writes(d, ws, j)),
    decreases ws.len() - j,
{
    if j < ws.len() {
        let (blk, data) = ws[j];
        let e = d[js + j];
        lemma_journal_entry(blk, data);
        assert(e == journal_entry(blk, data));
        assert(le_u32(e, 0) == JOURNAL_TYPE_BLOCK_WRITE);
        let bn = blk as int;
        let d1 = d.update(bn, redone(d, e, bn));
        assert(redone(d, e, bn) == data.take(JOURNAL_DATA_SIZE as int) + d[bn].subrange(
            JOURNAL_DATA_SIZE as int,
            ONYFS_BLOCK_SIZE as int,
        ));
        assert forall|t: int| j + 1 <= t < ws.len() implies #[trigger] d1[js + t] == journal_entry(ws[t].0, ws[t].1) by {
            assert(d1[js + t] == d[js + t]);
        }
        lemma_replay(d1, js, ws, j + 1);
    }
}

/// Redoing the writes on two disks that agree outside some blocks that no
/// write targets gives disks that still agree there.
proof fn lemma_redo_agree(d1: Seq<Seq<u8>>, d2: Seq<Seq<u8>>, ws: Seq<(u32, Seq<u8>)>, j: int, lo: int, hi: int)
    requires
        0 <= j <= ws.len(),
        d1.len() == d2.len(),
        forall|b: int| 0 <= b < d1.len() && !(lo <= b <= hi) ==> #[trigger] d1[b] == d2[b],
        forall|t: int| 0 <= t < ws.len() ==> (#[trigger] ws[t]).0 < d1.len() && !(lo <= ws[t].0 <= hi),
    ensures
        redo_writes(d1, ws, j).len() == d1.len(),
        redo_writes(d2, ws, j).len() == d1.len(),
        forall|b: int| 0 <= b < d1.len() && !(lo <= b <= hi) ==> #[trigger] redo_writes(d1, ws, j)[b] == redo_writes(d2, ws, j)[b],
    decreases ws.len() - j,
{
    if j < ws.len() {
        let b = ws[j].0 as int;
        let n1 = d1.update(b, ws[j].1.take(JOURNAL_DATA_SIZE as int) + d1[b].subrange(
            JOURNAL_DATA_SIZE as int,
            ONYFS_BLOCK_SIZE as int,
        ));
        let n2 = d2.update(b, ws[j].1.take(JOURNAL_DATA_SIZE as int) + d2[b].subrange(
            JOURNAL_DATA_SIZE as int,
            ONYFS_BLOCK_SIZE as int,
        ));
        assert(d1[b] == d2[b]);
        lemma_redo_agree(n1, n2, ws, j + 1, lo, hi);
    }
}

/// A committed transaction is redone in order: when the block writes `ws`
/// are logged one after another in an empty journal and committed, and
/// none of the in-place writes reached the disk, crash recovery succeeds
/// and leaves every block outside the transaction's records as redoing the
/// writes in their order on the disk as it was makes it (each written
/// block holding the first 4088 bytes of its last write, as many as a
/// record carries, and keeping its own last 8).
pub proof fn lemma_journal_redo_all(v: FsView, ws: Seq<(u32, Seq<u8>)>)
    requires
        has_journal(v.sb),
        v.head == 0,
        ws.len() < v.sb.journal_size,
        v.sb.journal_start + ws.len() < v.disk.len(),
        writes_ok(v, ws),
    ensures
        ({
            let (r1, v1) = spec_log_all(v, ws, ws.len() as int);
            let (r2, v2) = spec_journal_commit(v1);
            let (r3, v3) = spec_journal_recover(v2);
            let want = redo_writes(v.disk, ws, 0);
            &&& r1 is Ok
            &&& r2 is Ok
            &&& r3 is Ok
            &&& v3.disk.len() == v.disk.len()
            &&& forall|b: int| 0 <= b < v.disk.len() && !in_records(v, b, ws.len() as int) ==> #[trigger] v3.disk[b] == want[b]
        }),
{
    let k = ws.len() as int;
    let js = v.sb.journal_start as int;
    lemma_log_all(v, ws, k);
    let (r1, v1) = spec_log_all(v, ws, k);
    let (r2, v2) = spec_journal_commit(v1);
    lemma_commit_entry();
    assert(v2.disk == v1.disk.update(js + k, commit_entry()));
    let d2 = v2.disk;
    assert forall|j: int| 0 <= j < k implies #[trigger] d2[js + j] == journal_entry(ws[j].0, ws[j].1) by {
        assert(d2[js + j] == v1.disk[js + j]);
    }
    assert forall|j: int| 0 <= j < k implies (#[trigger] ws[j]).1.len() == ONYFS_BLOCK_SIZE by {}
    lemma_scan(d2, js, v.sb.journal_size as int, ws, 0);
    lemma_replay(d2, js, ws, 0);
    assert forall|b: int| 0 <= b < d2.len() && !(js <= b <= js + k) implies #[trigger] d2[b] == v.disk[b] by {
        assert(!in_records(v, b, k - 1));
        assert(d2[b] == v1.disk[b]);
    }
    lemma_redo_agree(d2, v.disk, ws, 0, js, js + k);
}

} // verus!
