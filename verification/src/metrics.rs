//! The arithmetic of the resource metrics a worker reports: how much disk space is used
//! and how much there is, each device counted once.
use vstd::prelude::*;
use crate::text::{contains_string, str_eq};

verus! {

/// One mounted disk as the system lists it: its device name, its file system, and its
/// total and available space in bytes.
pub struct DiskInfo {
    pub name: String,
    pub file_system: String,
    pub total: u64,
    pub available: u64,
}

/// Whether disk `i` of `disks` is counted: a btrfs device may be mounted several times
/// (its subvolumes), so a btrfs disk counts only at the first listing of its device;
/// every other disk counts.
pub open spec fn counted(disks: Seq<DiskInfo>, i: int) -> bool {
    disks[i].file_system@ != "btrfs"@ || !btrfs_before(disks, i, disks[i].name@)
}

/// Whether a btrfs disk named `name` is listed before position `i`.
pub open spec fn btrfs_before(disks: Seq<DiskInfo>, i: int, name: Seq<char>) -> bool {
    exists|j: int| 0 <= j < i && disks[j].file_system@ == "btrfs"@ && #[trigger] disks[j].name@ == name
}

spec fn holds_name(v: Seq<String>, name: Seq<char>) -> bool {
    exists|k: int| 0 <= k < v.len() && #[trigger] v[k]@ == name
}

/// The used and total space of the counted disks of `disks`.
pub open spec fn disk_totals(disks: Seq<DiskInfo>) -> (int, int)
    decreases disks.len(),
{
    if disks.len() == 0 {
        (0, 0)
    } else {
        let rest = disk_totals(disks.drop_last());
        let d = disks.last();
        if counted(disks, disks.len() - 1) {
            (rest.0 + d.total - d.available, rest.1 + d.total)
        } else {
            rest
        }
    }
}

proof fn lemma_counted_prefix(disks: Seq<DiskInfo>, n: int, i: int)
    requires
        0 <= i < n <= disks.len(),
    ensures
        counted(disks.take(n), i) == counted(disks, i),
{
    assert forall|j: int| 0 <= j < i implies disks.take(n)[j] == disks[j] by {}
    assert(disks.take(n)[i] == disks[i]);
}

proof fn lemma_totals_grow(disks: Seq<DiskInfo>, n: int)
    requires
        0 <= n <= disks.len(),
        forall|i: int| 0 <= i < disks.len() ==> #[trigger] disks[i].available <= disks[i].total,
    ensures
        0 <= disk_totals(disks.take(n)).0 <= disk_totals(disks.take(n)).1 <= disk_totals(disks).1,
    decreases disks.len() - n,
{
    if n < disks.len() {
        lemma_totals_grow(disks, n + 1);
        let t = disks.take(n + 1);
        assert(t.drop_last() =~= disks.take(n));
        assert(t.last() == disks[n]);
        lemma_counted_prefix(disks, n + 1, n);
        let p = disks.take(n);
        assert forall|i: int| 0 <= i < p.len() implies #[trigger] p[i].available <= p[i].total by {
            assert(p[i] == disks[i]);
        }
        lemma_totals_nonneg(p);
    } else {
        assert(disks.take(n) =~= disks);
        lemma_totals_nonneg(disks);
    }
}

proof fn lemma_totals_nonneg(disks: Seq<DiskInfo>)
    requires
        forall|i: int| 0 <= i < disks.len() ==> #[trigger] disks[i].available <= disks[i].total,
    ensures
        0 <= disk_totals(disks).0 <= disk_totals(disks).1,
    decreases disks.len(),
{
    if disks.len() > 0 {
        let init = disks.drop_last();
        assert forall|i: int| 0 <= i < init.len() implies #[trigger] init[i].available <= init[i].total by {
            assert(init[i] == disks[i]);
        }
        lemma_totals_nonneg(init);
        assert(disks.last() == disks[disks.len() - 1]);
    }
}

/// The used and total disk space, in bytes, of the listed disks, each btrfs device
/// counted once. The caller has made sure that no disk has more available than total
/// space and that the total fits in 64 bits.
pub fn disk_usage(disks: &Vec<DiskInfo>) -> (r: (u64, u64))
    requires
        forall|i: int| 0 <= i < disks@.len() ==> #[trigger] disks@[i].available <= disks@[i].total,
        disk_totals(disks@).1 <= u64::MAX,
    ensures
        r.0 == disk_totals(disks@).0,
        r.1 == disk_totals(disks@).1,
{
    let mut used: u64 = 0;
    let mut total: u64 = 0;
    let mut seen: Vec<String> = Vec::new();
    let mut i: usize = 0;
    assert(disks@.take(0) =~= Seq::<DiskInfo>::empty());
    while i < disks.len()
        invariant
            i <= disks@.len(),
            forall|k: int| 0 <= k < disks@.len() ==> #[trigger] disks@[k].available <= disks@[k].total,
            disk_totals(disks@).1 <= u64::MAX,
            used == disk_totals(disks@.take(i as int)).0,
            total == disk_totals(disks@.take(i as int)).1,
            forall|n: Seq<char>| #[trigger] holds_name(seen@, n) <==> btrfs_before(disks@, i as int, n),
        decreases disks@.len() - i,
    {
        proof {
            lemma_totals_grow(disks@, i + 1);
            let t = disks@.take(i + 1);
            assert(t.drop_last() =~= disks@.take(i as int));
            assert(t.last() == disks@[i as int]);
            lemma_counted_prefix(disks@, i + 1, i as int);
            reveal_strlit("btrfs");
        }
        let d = &disks[i];
        let is_btrfs = str_eq(d.file_system.as_str(), "btrfs");
        let ghost before = seen@;
        let count = if !is_btrfs {
            true
        } else if contains_string(&seen, d.name.as_str()) {
            assert(holds_name(seen@, d.name@));
            false
        } else {
            seen.push(d.name.clone());
            true
        };
        proof {
            assert forall|n: Seq<char>| #[trigger] holds_name(seen@, n) <==> btrfs_before(disks@, i + 1, n) by {
                assert(holds_name(before, n) == btrfs_before(disks@, i as int, n));
                if holds_name(seen@, n) {
                    let k = choose|k: int| 0 <= k < seen@.len() && #[trigger] seen@[k]@ == n;
                    if k < before.len() {
                        assert(before[k] == seen@[k]);
                        assert(holds_name(before, n));
                        let j = choose|j: int| 0 <= j < i && disks@[j].file_system@ == "btrfs"@ && #[trigger] disks@[j].name@ == n;
                        assert(0 <= j < i + 1);
                    } else {
                        assert(disks@[i as int].name@ == n);
                    }
                }
                if btrfs_before(disks@, i + 1, n) {
                    let j = choose|j: int| 0 <= j < i + 1 && disks@[j].file_system@ == "btrfs"@ && #[trigger] disks@[j].name@ == n;
                    if j < i {
                        assert(btrfs_before(disks@, i as int, n));
                        let k = choose|k: int| 0 <= k < before.len() && #[trigger] before[k]@ == n;
                        assert(seen@[k] == before[k]);
                    } else if holds_name(before, n) {
                        let k = choose|k: int| 0 <= k < before.len() && #[trigger] before[k]@ == n;
                        assert(seen@[k] == before[k]);
                    } else {
                        assert(seen@[before.len() as int]@ == n);
                    }
                }
            }
            if is_btrfs {
                assert(holds_name(before, d.name@) == btrfs_before(disks@, i as int, d.name@));
            }
        }
        assert(count == counted(disks@, i as int));
        if count {
            used = used + (d.total - d.available);
            total = total + d.total;
        }
        i = i + 1;
    }
    assert(disks@.take(disks@.len() as int) =~= disks@);
    (used, total)
}

} // verus!
