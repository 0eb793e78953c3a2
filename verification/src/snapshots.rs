//! The rules behind snapshots and backups: in which order snapshots are
//! listed, which backups are pruned, and when waiting for the game's
//! autosave to settle ends. Times and modification times come in as plain
//! integers; reading them is the caller's part.
use vstd::prelude::*;

verus! {

/// One snapshot file: its name, when it was last modified (nanoseconds from
/// the Unix epoch, negative before it) and its size in bytes.
#[derive(Clone, Debug)]
pub struct SnapshotInfo {
    pub name: String,
    pub modified: i128,
    pub size: u64,
}

/// How many safety backups are kept before the oldest are pruned.
pub const MAX_BACKUPS: usize = 20;

/// How often the save's modification time is polled while waiting, in ms.
pub const POLL_MS: u64 = 250;

/// How long the save must stay unmodified to count as settled, in ms.
pub const QUIET_MS: u64 = 1500;

/// How long the wait lasts at most, in ms.
pub const TIMEOUT_MS: u64 = 5000;

/// The order of modification times: an unknown time comes before every
/// known one, known times in their order.
pub open spec fn key_lt(a: Option<i128>, b: Option<i128>) -> bool {
    match (a, b) {
        (None, Some(_)) => true,
        (Some(x), Some(y)) => x < y,
        _ => false,
    }
}

/// File `i` comes before file `j`: by time (newest first or oldest first),
/// equal times in the order the files were given.
pub open spec fn precedes(keys: Seq<Option<i128>>, newest: bool, i: int, j: int) -> bool {
    if newest {
        key_lt(keys[j], keys[i]) || (keys[i] == keys[j] && i < j)
    } else {
        key_lt(keys[i], keys[j]) || (keys[i] == keys[j] && i < j)
    }
}

/// `s` lists every file index once, each before the ones it precedes.
pub open spec fn is_order(keys: Seq<Option<i128>>, newest: bool, s: Seq<usize>) -> bool {
    &&& s.len() == keys.len()
    &&& forall|a: int| 0 <= a < s.len() ==> #[trigger] s[a] < keys.len()
    &&& forall|i: int| 0 <= i < keys.len() ==> #[trigger] s.contains(i as usize)
    &&& forall|a: int, b: int|
        0 <= a < b < s.len() ==> precedes(keys, newest, #[trigger] s[a] as int, #[trigger] s[b] as int)
}

proof fn lemma_precedes_total(keys: Seq<Option<i128>>, newest: bool, i: int, j: int)
    requires
        i != j,
    ensures
        precedes(keys, newest, i, j) || precedes(keys, newest, j, i),
{
}

proof fn lemma_precedes_trans(keys: Seq<Option<i128>>, newest: bool, i: int, j: int, k: int)
    requires
        precedes(keys, newest, i, j),
        precedes(keys, newest, j, k),
    ensures
        precedes(keys, newest, i, k),
{
}

fn key_less(a: Option<i128>, b: Option<i128>) -> (r: bool)
    ensures
        r == key_lt(a, b),
{
    match (a, b) {
        (None, Some(_)) => true,
        (Some(x), Some(y)) => x < y,
        _ => false,
    }
}

/// Whether file `j`, which came later, goes before file `i`.
fn later_goes_first(keys: &Vec<Option<i128>>, newest: bool, i: usize, j: usize) -> (r: bool)
    requires
        i < j < keys.len(),
    ensures
        r == precedes(keys@, newest, j as int, i as int),
{
    if newest {
        key_less(keys[i], keys[j])
    } else {
        key_less(keys[j], keys[i])
    }
}

/// The file indices sorted by time, equal times kept in their given order.
fn sorted_order(keys: &Vec<Option<i128>>, newest: bool) -> (out: Vec<usize>)
    ensures
        is_order(keys@, newest, out@),
{
    let n = keys.len();
    let mut out: Vec<usize> = Vec::new();
    let mut k: usize = 0;
    while k < n
        invariant
            k <= n == keys.len(),
            out.len() == k,
            forall|a: int| 0 <= a < out.len() ==> #[trigger] out@[a] < k,
            forall|i: int| 0 <= i < k ==> #[trigger] out@.contains(i as usize),
            forall|a: int, b: int|
                0 <= a < b < out.len() ==> precedes(
                    keys@,
                    newest,
                    #[trigger] out@[a] as int,
                    #[trigger] out@[b] as int,
                ),
        decreases n - k,
    {
        // the first place whose file the new one goes before
        let mut p: usize = 0;
        while p < out.len() && !later_goes_first(keys, newest, out[p], k)
            invariant
                k < n == keys.len(),
                out.len() == k,
                p <= out.len(),
                forall|a: int| 0 <= a < out.len() ==> #[trigger] out@[a] < k,
                forall|q: int|
                    0 <= q < p ==> !precedes(keys@, newest, k as int, #[trigger] out@[q] as int),
            decreases out.len() - p,
        {
            p = p + 1;
        }
        let ghost old_out = out@;
        out.insert(p, k);
        proof {
            old_out.insert_ensures(p as int, k);
            assert forall|a: int| 0 <= a < out.len() implies #[trigger] out@[a] < k + 1 by {
                if a > p {
                    assert(out@[a] == old_out[a - 1]);
                }
            }
            assert forall|i: int| 0 <= i < k + 1 implies #[trigger] out@.contains(i as usize) by {
                if i == k {
                    assert(out@[p as int] == k);
                } else {
                    assert(old_out.contains(i as usize));
                    let a = choose|a: int| 0 <= a < old_out.len() && old_out[a] == i as usize;
                    if a < p {
                        assert(out@[a] == i as usize);
                    } else {
                        assert(out@[a + 1] == i as usize);
                    }
                }
            }
            assert forall|a: int, b: int| 0 <= a < b < out.len() implies precedes(
                keys@,
                newest,
                #[trigger] out@[a] as int,
                #[trigger] out@[b] as int,
            ) by {
                let x = out@[a] as int;
                let y = out@[b] as int;
                if b < p {
                    assert(x == old_out[a] && y == old_out[b]);
                } else if b == p {
                    assert(x == old_out[a]);
                    assert(!precedes(keys@, newest, k as int, x));
                    lemma_precedes_total(keys@, newest, k as int, x);
                } else if a == p {
                    assert(y == old_out[b - 1]);
                    assert(precedes(keys@, newest, k as int, old_out[p as int] as int));
                    if b - 1 > p {
                        assert(precedes(keys@, newest, old_out[p as int] as int, y));
                        lemma_precedes_trans(
                            keys@,
                            newest,
                            k as int,
                            old_out[p as int] as int,
                            y,
                        );
                    }
                } else if a < p {
                    assert(x == old_out[a] && y == old_out[b - 1]);
                } else {
                    assert(x == old_out[a - 1] && y == old_out[b - 1]);
                }
            }
        }
        k = k + 1;
    }
    out
}

/// The snapshots listed newest first: the indices of `modified`, sorted by
/// time from the newest, equal times in the order given.
pub fn newest_first(modified: &Vec<Option<i128>>) -> (out: Vec<usize>)
    ensures
        is_order(modified@, true, out@),
{
    sorted_order(modified, true)
}

/// The backups to delete, oldest first: none while there are at most
/// `MAX_BACKUPS`, else the oldest ones beyond that many (an unknown time
/// counts as the oldest; equal times go in the order given).
pub fn backups_to_prune(modified: &Vec<Option<i128>>) -> (r: Vec<usize>)
    ensures
        modified.len() <= MAX_BACKUPS ==> r.len() == 0,
        modified.len() > MAX_BACKUPS ==> r.len() == modified.len() - MAX_BACKUPS,
        forall|a: int| 0 <= a < r.len() ==> #[trigger] r@[a] < modified.len(),
        forall|a: int, b: int|
            0 <= a < b < r.len() ==> precedes(
                modified@,
                false,
                #[trigger] r@[a] as int,
                #[trigger] r@[b] as int,
            ),
        forall|i: int, a: int|
            #![trigger r@[a], r@.contains(i as usize)]
            0 <= i < modified.len() && 0 <= a < r.len() && !r@.contains(i as usize) ==> precedes(
                modified@,
                false,
                r@[a] as int,
                i,
            ),
{
    let n = modified.len();
    let mut r: Vec<usize> = Vec::new();
    if n <= MAX_BACKUPS {
        return r;
    }
    let order = sorted_order(modified, false);
    let remove = n - MAX_BACKUPS;
    let mut a: usize = 0;
    while a < remove
        invariant
            remove == n - MAX_BACKUPS <= n == modified.len(),
            is_order(modified@, false, order@),
            a <= remove,
            r@ == order@.take(a as int),
        decreases remove - a,
    {
        r.push(order[a]);
        a = a + 1;
        proof {
            assert(r@ =~= order@.take(a as int));
        }
    }
    proof {
        assert forall|i: int, x: int|
            #![trigger r@[x], r@.contains(i as usize)]
            0 <= i < n && 0 <= x < r.len() && !r@.contains(i as usize) implies precedes(
            modified@,
            false,
            r@[x] as int,
            i,
        ) by {
            assert(order@.contains(i as usize));
            let b = choose|b: int| 0 <= b < order.len() && order@[b] == i as usize;
            if b < remove {
                assert(r@[b] == i as usize);
            }
            assert(r@[x] == order@[x]);
        }
    }
    r
}

/// Milliseconds from `since` to `now`; none when the clock went back.
pub open spec fn elapsed(since: u64, now: u64) -> int {
    if now >= since {
        now - since
    } else {
        0
    }
}

/// Waiting for the game's autosave writes to settle: the modification time
/// last seen, when it last changed, and when the wait began (ms).
pub struct StableWait {
    pub last_mtime: Option<i128>,
    pub last_change: u64,
    pub start: u64,
}

fn elapsed_ms(since: u64, now: u64) -> (r: u64)
    ensures
        r == elapsed(since, now),
{
    if now >= since {
        now - since
    } else {
        0
    }
}

fn same_mtime(a: Option<i128>, b: Option<i128>) -> (r: bool)
    ensures
        r == (a == b),
{
    match (a, b) {
        (None, None) => true,
        (Some(x), Some(y)) => x == y,
        _ => false,
    }
}

impl StableWait {
    /// Begin waiting at `start`, with the modification time read then, taken
    /// as changed at `changed_at`.
    pub fn new(start: u64, mtime: Option<i128>, changed_at: u64) -> (w: Self)
        ensures
            w.start == start,
            w.last_mtime == mtime,
            w.last_change == changed_at,
    {
        StableWait { last_mtime: mtime, last_change: changed_at, start }
    }

    /// One poll, with the modification time read now and the clock: a new
    /// time restarts the quiet window; the wait is over once the file has
    /// been quiet for `QUIET_MS` or `TIMEOUT_MS` have passed since the start.
    pub fn observe(&mut self, mtime: Option<i128>, now: u64) -> (done: bool)
        ensures
            final(self).start == old(self).start,
            final(self).last_mtime == mtime,
            final(self).last_change == if mtime != old(self).last_mtime {
                now
            } else {
                old(self).last_change
            },
            done == (elapsed(final(self).last_change, now) >= QUIET_MS || elapsed(
                old(self).start,
                now,
            ) >= TIMEOUT_MS),
    {
        if !same_mtime(mtime, self.last_mtime) {
            self.last_mtime = mtime;
            self.last_change = now;
        }
        if elapsed_ms(self.last_change, now) >= QUIET_MS {
            return true;
        }
        elapsed_ms(self.start, now) >= TIMEOUT_MS
    }
}

} // verus!
