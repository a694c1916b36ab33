//! The application's state: saved connections, the selected one, the mount table
//! and the rclone processes that serve the mounts.
use vstd::prelude::*;
use crate::model::{Connection, MountInfo, Bucket, MountConfig};
use crate::process_table::ProcessTable;

verus! {

// ---------------------------------------------------------------- connections

/// `i` is the first position of `s` whose connection has id `id`.
pub open spec fn is_first_with_id(s: Seq<Connection>, id: Seq<char>, i: int) -> bool {
    &&& 0 <= i < s.len()
    &&& s[i].id@ == id
    &&& forall|j: int| 0 <= j < i ==> s[j].id@ != id
}

/// Some connection of `s` has id `id`.
pub open spec fn has_id(s: Seq<Connection>, id: Seq<char>) -> bool {
    exists|i: int| 0 <= i < s.len() && #[trigger] s[i].id@ == id
}

/// The first connection of `s` with id `id`.
pub open spec fn lookup(s: Seq<Connection>, id: Seq<char>) -> Option<Connection> {
    if has_id(s, id) {
        Some(s[choose|i: int| is_first_with_id(s, id, i)])
    } else {
        None
    }
}

/// `s` after saving `c`: the first connection with the same id is replaced, or `c` is appended.
pub open spec fn upserted(s: Seq<Connection>, c: Connection) -> Seq<Connection> {
    if has_id(s, c.id@) {
        s.update(choose|i: int| is_first_with_id(s, c.id@, i), c)
    } else {
        s.push(c)
    }
}

/// `s` without the connections whose id is `id`, the others in their order.
pub open spec fn without_id(s: Seq<Connection>, id: Seq<char>) -> Seq<Connection>
    decreases s.len(),
{
    if s.len() == 0 {
        s
    } else if s.last().id@ == id {
        without_id(s.drop_last(), id)
    } else {
        without_id(s.drop_last(), id).push(s.last())
    }
}

/// If some connection has id `id`, exactly one position is the first.
pub proof fn lemma_first_with_id(s: Seq<Connection>, id: Seq<char>)
    requires
        has_id(s, id),
    ensures
        exists|i: int| is_first_with_id(s, id, i),
        forall|i: int, j: int| is_first_with_id(s, id, i) && is_first_with_id(s, id, j) ==> i == j,
    decreases s.len(),
{
    let k = choose|k: int| 0 <= k < s.len() && #[trigger] s[k].id@ == id;
    if has_id(s.drop_last(), id) {
        lemma_first_with_id(s.drop_last(), id);
        let i = choose|i: int| is_first_with_id(s.drop_last(), id, i);
        assert forall|j: int| 0 <= j < i implies s[j].id@ != id by {
            assert(s.drop_last()[j] == s[j]);
        }
        assert(s.drop_last()[i] == s[i]);
        assert(is_first_with_id(s, id, i));
    } else {
        assert forall|j: int| 0 <= j < s.len() - 1 implies s[j].id@ != id by {
            assert(s.drop_last()[j] == s[j]);
            if s[j].id@ == id {
                assert(s.drop_last()[j].id@ == id);
            }
        }
        assert(is_first_with_id(s, id, s.len() - 1));
    }
    assert forall|i: int, j: int| is_first_with_id(s, id, i) && is_first_with_id(s, id, j) implies i == j by {
        if i < j {
            assert(s[i].id@ != id);
        } else if j < i {
            assert(s[j].id@ != id);
        }
    }
}

// ---------------------------------------------------------------- state


/// Looking up in a sequence with one more connection at the end.
pub proof fn lemma_lookup_push(s: Seq<Connection>, x: Connection, id: Seq<char>)
    ensures
        lookup(s.push(x), id) == (if has_id(s, id) {
            lookup(s, id)
        } else if x.id@ == id {
            Some(x)
        } else {
            None::<Connection>
        }),
{
    let t = s.push(x);
    if has_id(s, id) {
        lemma_first_with_id(s, id);
        let i = choose|i: int| is_first_with_id(s, id, i);
        assert(t[i] == s[i]);
        assert forall|j: int| 0 <= j < i implies t[j].id@ != id by {
            assert(t[j] == s[j]);
        }
        assert(is_first_with_id(t, id, i));
        assert(has_id(t, id));
        lemma_first_with_id(t, id);
    } else if x.id@ == id {
        assert(t[s.len() as int] == x);
        assert forall|j: int| 0 <= j < s.len() implies t[j].id@ != id by {
            assert(t[j] == s[j]);
        }
        assert(is_first_with_id(t, id, s.len() as int));
        assert(has_id(t, id));
        lemma_first_with_id(t, id);
    } else {
        assert forall|j: int| 0 <= j < t.len() implies #[trigger] t[j].id@ != id by {
            if j < s.len() {
                assert(t[j] == s[j]);
            }
        }
    }
}

/// A saved connection is what selecting its id then finds.
pub proof fn lemma_saved_connection_is_found(s: Seq<Connection>, c: Connection)
    ensures
        lookup(upserted(s, c), c.id@) == Some(c),
{
    if has_id(s, c.id@) {
        lemma_first_with_id(s, c.id@);
        let i = choose|i: int| is_first_with_id(s, c.id@, i);
        let t = s.update(i, c);
        assert forall|j: int| 0 <= j < i implies t[j].id@ != c.id@ by {
            assert(t[j] == s[j]);
        }
        assert(is_first_with_id(t, c.id@, i));
        assert(has_id(t, c.id@));
        lemma_first_with_id(t, c.id@);
    } else {
        lemma_lookup_push(s, c, c.id@);
    }
}

/// Saving a connection changes neither what other ids find, nor the number of saved
/// connections unless its id is new, in which case there is one more.
pub proof fn lemma_save_keeps_others(s: Seq<Connection>, c: Connection, id: Seq<char>)
    requires
        id != c.id@,
    ensures
        lookup(upserted(s, c), id) == lookup(s, id),
        upserted(s, c).len() == s.len() + (if has_id(s, c.id@) { 0int } else { 1int }),
{
    if has_id(s, c.id@) {
        lemma_first_with_id(s, c.id@);
        let i = choose|i: int| is_first_with_id(s, c.id@, i);
        let t = s.update(i, c);
        if has_id(s, id) {
            lemma_first_with_id(s, id);
            let k = choose|k: int| is_first_with_id(s, id, k);
            assert(k != i);
            assert(t[k] == s[k]);
            assert forall|j: int| 0 <= j < k implies t[j].id@ != id by {
                if j != i {
                    assert(t[j] == s[j]);
                }
            }
            assert(is_first_with_id(t, id, k));
            assert(has_id(t, id));
            lemma_first_with_id(t, id);
        } else {
            assert forall|j: int| 0 <= j < t.len() implies #[trigger] t[j].id@ != id by {
                if j != i {
                    assert(t[j] == s[j]);
                }
            }
        }
    } else {
        lemma_lookup_push(s, c, id);
    }
}

/// Deleting an id leaves no connection with that id, and changes nothing that other ids find.
pub proof fn lemma_delete_connection(s: Seq<Connection>, id: Seq<char>, other: Seq<char>)
    requires
        other != id,
    ensures
        lookup(without_id(s, id), id) is None,
        lookup(without_id(s, id), other) == lookup(s, other),
    decreases s.len(),
{
    if s.len() == 0 {
        assert(!has_id(without_id(s, id), id));
        assert(!has_id(s, other));
    } else {
        lemma_delete_connection(s.drop_last(), id, other);
        assert(s =~= s.drop_last().push(s.last()));
        lemma_lookup_push(s.drop_last(), s.last(), other);
        let w = without_id(s.drop_last(), id);
        if s.last().id@ == id {
            assert(lookup(w, id) is None ==> !has_id(w, id));
        } else {
            lemma_lookup_push(w, s.last(), id);
            lemma_lookup_push(w, s.last(), other);
            assert(lookup(w, id) is None ==> !has_id(w, id));
            assert(lookup(w, other) is None ==> !has_id(w, other));
            assert(lookup(s.drop_last(), other) is None ==> !has_id(s.drop_last(), other));
        }
    }
}

/// No two mounts share a bucket or a drive.
pub open spec fn distinct_mounts(mounts: Seq<MountInfo>) -> bool {
    forall|i: int, j: int| 0 <= i < j < mounts.len() ==> {
        &&& (#[trigger] mounts[i]).bucket@ != (#[trigger] mounts[j]).bucket@
        &&& mounts[i].drive@ != mounts[j].drive@
    }
}

/// A mount that `prepare_mount` accepts keeps buckets and drives apart:
/// each bucket on one drive at most, each drive serving one bucket at most.
pub proof fn lemma_accepted_mount_keeps_distinct(mounts: Seq<MountInfo>, added: MountInfo)
    requires
        distinct_mounts(mounts),
        !is_mounted(mounts, added.bucket@),
        !drive_in_use(mounts, added.drive@),
    ensures
        distinct_mounts(mounts.push(added)),
{
    let t = mounts.push(added);
    assert forall|i: int, j: int| 0 <= i < j < t.len() implies {
        &&& (#[trigger] t[i]).bucket@ != (#[trigger] t[j]).bucket@
        &&& t[i].drive@ != t[j].drive@
    } by {
        assert(t[i] == mounts[i]);
        if j < mounts.len() {
            assert(t[j] == mounts[j]);
        } else {
            assert(t[j] == added);
            assert(mounts[i].bucket@ != added.bucket@);
            assert(mounts[i].drive@ != added.drive@);
        }
    }
}

// ---------------------------------------------------------------- mounts

/// Some mount is of bucket `bucket`.
pub open spec fn is_mounted(mounts: Seq<MountInfo>, bucket: Seq<char>) -> bool {
    exists|i: int| 0 <= i < mounts.len() && #[trigger] mounts[i].bucket@ == bucket
}

/// Some mount uses drive `drive`.
pub open spec fn drive_in_use(mounts: Seq<MountInfo>, drive: Seq<char>) -> bool {
    exists|i: int| 0 <= i < mounts.len() && #[trigger] mounts[i].drive@ == drive
}

/// `i` is the first mount of bucket `bucket`.
pub open spec fn is_first_mount(mounts: Seq<MountInfo>, bucket: Seq<char>, i: int) -> bool {
    &&& 0 <= i < mounts.len()
    &&& mounts[i].bucket@ == bucket
    &&& forall|j: int| 0 <= j < i ==> mounts[j].bucket@ != bucket
}

/// The mount table without the first mount of `bucket`, if there is one.
pub open spec fn without_mount(mounts: Seq<MountInfo>, bucket: Seq<char>) -> Seq<MountInfo> {
    if is_mounted(mounts, bucket) {
        mounts.remove(choose|i: int| is_first_mount(mounts, bucket, i))
    } else {
        mounts
    }
}

/// The mount table with the status of the first mount of `bucket` set to `status`.
pub open spec fn with_status(mounts: Seq<MountInfo>, bucket: Seq<char>, status: String) -> Seq<MountInfo> {
    if is_mounted(mounts, bucket) {
        let i = choose|i: int| is_first_mount(mounts, bucket, i);
        mounts.update(i, MountInfo { status: status, ..mounts[i] })
    } else {
        mounts
    }
}

/// How the buckets `names` are shown: each with the drive of its first mount, if any.
pub open spec fn bucket_listing(names: Seq<String>, mounts: Seq<MountInfo>, listing: Seq<Bucket>) -> bool {
    &&& listing.len() == names.len()
    &&& forall|k: int| 0 <= k < names.len() ==> {
        let b = #[trigger] listing[k];
        &&& b.name == names[k]
        &&& b.mounted == is_mounted(mounts, names[k]@)
        &&& b.drive == (if is_mounted(mounts, names[k]@) {
            Some(mounts[choose|i: int| is_first_mount(mounts, names[k]@, i)].drive)
        } else {
            None::<String>
        })
    }
}

/// The message that a mount which has been started is answered with.
pub open spec fn mounting_message(bucket: Seq<char>, drive: Seq<char>) -> Seq<char> {
    "正在挂载 "@ + bucket + " 到 "@ + drive + ":"@
}

/// If a mount of `bucket` exists, exactly one is the first.
pub proof fn lemma_first_mount(mounts: Seq<MountInfo>, bucket: Seq<char>)
    requires
        is_mounted(mounts, bucket),
    ensures
        exists|i: int| is_first_mount(mounts, bucket, i),
        forall|i: int, j: int| is_first_mount(mounts, bucket, i) && is_first_mount(mounts, bucket, j) ==> i == j,
    decreases mounts.len(),
{
    let s = mounts;
    if is_mounted(s.drop_last(), bucket) {
        lemma_first_mount(s.drop_last(), bucket);
        let i = choose|i: int| is_first_mount(s.drop_last(), bucket, i);
        assert forall|j: int| 0 <= j < i implies s[j].bucket@ != bucket by {
            assert(s.drop_last()[j] == s[j]);
        }
        assert(s.drop_last()[i] == s[i]);
        assert(is_first_mount(s, bucket, i));
    } else {
        assert forall|j: int| 0 <= j < s.len() - 1 implies s[j].bucket@ != bucket by {
            assert(s.drop_last()[j] == s[j]);
            if s[j].bucket@ == bucket {
                assert(s.drop_last()[j].bucket@ == bucket);
            }
        }
        let k = choose|k: int| 0 <= k < s.len() && #[trigger] s[k].bucket@ == bucket;
        assert(is_first_mount(s, bucket, s.len() - 1));
    }
    assert forall|i: int, j: int| is_first_mount(s, bucket, i) && is_first_mount(s, bucket, j) implies i == j by {
        if i < j {
            assert(s[i].bucket@ != bucket);
        } else if j < i {
            assert(s[j].bucket@ != bucket);
        }
    }
}

/// Where the first mount of `bucket` stands, if there is one.
fn first_mount(mounts: &Vec<MountInfo>, bucket: &String) -> (r: Option<usize>)
    ensures
        match r {
            Some(i) => is_first_mount(mounts@, bucket@, i as int),
            None => !is_mounted(mounts@, bucket@),
        },
{
    let n = mounts.len();
    let mut i: usize = 0;
    while i < n
        invariant
            n == mounts@.len(),
            i <= n,
            forall|j: int| 0 <= j < i ==> mounts@[j].bucket@ != bucket@,
        decreases n - i,
    {
        if mounts[i].bucket == *bucket {
            return Some(i);
        }
        i = i + 1;
    }
    None
}

/// Whether some mount uses drive `drive`.
fn uses_drive(mounts: &Vec<MountInfo>, drive: &String) -> (b: bool)
    ensures
        b == drive_in_use(mounts@, drive@),
{
    let n = mounts.len();
    let mut i: usize = 0;
    while i < n
        invariant
            n == mounts@.len(),
            i <= n,
            forall|j: int| 0 <= j < i ==> mounts@[j].drive@ != drive@,
        decreases n - i,
    {
        if mounts[i].drive == *drive {
            return true;
        }
        i = i + 1;
    }
    false
}

/// The lemmas on the mount table that the state's invariant rests on.
proof fn lemma_mounted_push(mounts: Seq<MountInfo>, added: MountInfo, k: Seq<char>)
    ensures
        is_mounted(mounts.push(added), k) <==> (is_mounted(mounts, k) || added.bucket@ == k),
        drive_in_use(mounts.push(added), k) <==> (drive_in_use(mounts, k) || added.drive@ == k),
{
    let t = mounts.push(added);
    if is_mounted(mounts, k) {
        let i = choose|i: int| 0 <= i < mounts.len() && #[trigger] mounts[i].bucket@ == k;
        assert(t[i] == mounts[i]);
    }
    if added.bucket@ == k {
        assert(t[mounts.len() as int] == added);
    }
    if is_mounted(t, k) {
        let i = choose|i: int| 0 <= i < t.len() && #[trigger] t[i].bucket@ == k;
        if i < mounts.len() {
            assert(t[i] == mounts[i]);
        }
    }
    if drive_in_use(mounts, k) {
        let i = choose|i: int| 0 <= i < mounts.len() && #[trigger] mounts[i].drive@ == k;
        assert(t[i] == mounts[i]);
    }
    if added.drive@ == k {
        assert(t[mounts.len() as int] == added);
    }
    if drive_in_use(t, k) {
        let i = choose|i: int| 0 <= i < t.len() && #[trigger] t[i].drive@ == k;
        if i < mounts.len() {
            assert(t[i] == mounts[i]);
        }
    }
}

/// Removing the mount of `bucket` from a table without repeated buckets leaves no mount
/// of it, keeps the table free of repeats, and keeps every other bucket's mount.
pub proof fn lemma_without_mount(mounts: Seq<MountInfo>, bucket: Seq<char>)
    requires
        distinct_mounts(mounts),
    ensures
        distinct_mounts(without_mount(mounts, bucket)),
        !is_mounted(without_mount(mounts, bucket), bucket),
        forall|k: Seq<char>| k != bucket ==> (is_mounted(without_mount(mounts, bucket), k) <==> is_mounted(mounts, k)),
{
    if is_mounted(mounts, bucket) {
        lemma_first_mount(mounts, bucket);
        let i = choose|i: int| is_first_mount(mounts, bucket, i);
        let w = mounts.remove(i);
        assert(w == without_mount(mounts, bucket));
        assert forall|a: int, b: int| 0 <= a < b < w.len() implies {
            &&& (#[trigger] w[a]).bucket@ != (#[trigger] w[b]).bucket@
            &&& w[a].drive@ != w[b].drive@
        } by {
            let a2 = if a < i { a } else { a + 1 };
            let b2 = if b < i { b } else { b + 1 };
            assert(w[a] == mounts[a2]);
            assert(w[b] == mounts[b2]);
        }
        assert(!is_mounted(w, bucket)) by {
            if is_mounted(w, bucket) {
                let j = choose|j: int| 0 <= j < w.len() && #[trigger] w[j].bucket@ == bucket;
                let j2 = if j < i { j } else { j + 1 };
                assert(w[j] == mounts[j2]);
                assert(mounts[i].bucket@ == bucket);
            }
        }
        assert forall|k: Seq<char>| k != bucket implies (is_mounted(w, k) <==> is_mounted(mounts, k)) by {
            if is_mounted(mounts, k) {
                let j = choose|j: int| 0 <= j < mounts.len() && #[trigger] mounts[j].bucket@ == k;
                assert(j != i);
                let j2 = if j < i { j } else { j - 1 };
                assert(w[j2] == mounts[j]);
            }
            if is_mounted(w, k) {
                let j = choose|j: int| 0 <= j < w.len() && #[trigger] w[j].bucket@ == k;
                let j2 = if j < i { j } else { j + 1 };
                assert(w[j] == mounts[j2]);
            }
        }
    }
}

/// Unmounting a bucket right after mounting it, when it was neither mounted nor served
/// before, gives back the mount table and the processes as they were.
pub proof fn lemma_unmount_undoes_mount<P>(mounts: Seq<MountInfo>, processes: Map<Seq<char>, P>, added: MountInfo, process: P)
    requires
        !is_mounted(mounts, added.bucket@),
        !processes.dom().contains(added.bucket@),
    ensures
        without_mount(mounts.push(added), added.bucket@) == mounts,
        processes.insert(added.bucket@, process).remove(added.bucket@) == processes,
{
    let t = mounts.push(added);
    let b = added.bucket@;
    lemma_mounted_push(mounts, added, b);
    assert forall|j: int| 0 <= j < mounts.len() implies t[j].bucket@ != b by {
        assert(t[j] == mounts[j]);
    }
    assert(is_first_mount(t, b, mounts.len() as int));
    lemma_first_mount(t, b);
    assert(t.remove(mounts.len() as int) =~= mounts);
    assert(processes.insert(b, process).remove(b) =~= processes);
}

/// What the watch of a mount does to the state touches that bucket only: setting its
/// status changes its first mount's status and nothing else of the table, and holding a
/// restarted process for it leaves every other bucket's process as it was.
pub proof fn lemma_watch_touches_only_its_bucket<P>(v: AppStateView<P>, bucket: Seq<char>, status: String, process: P)
    ensures
        with_status(v.mounts, bucket, status).len() == v.mounts.len(),
        forall|i: int| 0 <= i < v.mounts.len() ==> {
            &&& (#[trigger] with_status(v.mounts, bucket, status)[i]).bucket == v.mounts[i].bucket
            &&& with_status(v.mounts, bucket, status)[i].drive == v.mounts[i].drive
            &&& !is_first_mount(v.mounts, bucket, i) ==> with_status(v.mounts, bucket, status)[i] == v.mounts[i]
        },
        forall|k: Seq<char>| k != bucket ==> {
            &&& (#[trigger] v.processes.insert(bucket, process).dom().contains(k)) == v.processes.dom().contains(k)
            &&& v.processes.dom().contains(k) ==> v.processes.insert(bucket, process)[k] == v.processes[k]
        },
{
    if is_mounted(v.mounts, bucket) {
        lemma_first_mount(v.mounts, bucket);
    }
}

/// Setting a bucket's status is what reading the table back shows: the bucket's mount
/// (its first, should the table list it twice) carries the new status and keeps its
/// bucket and drive, every other mount stays as it was, and a bucket that is not mounted
/// changes nothing. In a table that keeps buckets apart, every mount of the bucket
/// carries the new status.
pub proof fn lemma_status_read_back(mounts: Seq<MountInfo>, bucket: Seq<char>, status: String)
    ensures
        with_status(mounts, bucket, status).len() == mounts.len(),
        forall|i: int|
            0 <= i < mounts.len() && mounts[i].bucket@ == bucket && (forall|j: int|
                0 <= j < i ==> mounts[j].bucket@ != bucket) ==> #[trigger] with_status(mounts, bucket, status)[i]
                == (MountInfo { bucket: mounts[i].bucket, drive: mounts[i].drive, status: status }),
        forall|i: int|
            0 <= i < mounts.len() && (mounts[i].bucket@ != bucket || exists|j: int|
                0 <= j < i && mounts[j].bucket@ == bucket) ==> #[trigger] with_status(mounts, bucket, status)[i]
                == mounts[i],
        !is_mounted(mounts, bucket) ==> with_status(mounts, bucket, status) == mounts,
        distinct_mounts(mounts) ==> forall|i: int|
            0 <= i < mounts.len() && mounts[i].bucket@ == bucket ==> (#[trigger] with_status(
                mounts,
                bucket,
                status,
            )[i]).status == status,
{
    if is_mounted(mounts, bucket) {
        lemma_first_mount(mounts, bucket);
        let f = choose|i: int| is_first_mount(mounts, bucket, i);
        assert forall|i: int|
            0 <= i < mounts.len() && mounts[i].bucket@ == bucket && (forall|j: int|
                0 <= j < i ==> mounts[j].bucket@ != bucket) implies #[trigger] with_status(mounts, bucket, status)[i]
                == (MountInfo { bucket: mounts[i].bucket, drive: mounts[i].drive, status: status }) by {
            assert(is_first_mount(mounts, bucket, i));
        }
        assert forall|i: int|
            0 <= i < mounts.len() && (mounts[i].bucket@ != bucket || exists|j: int|
                0 <= j < i && mounts[j].bucket@ == bucket) implies #[trigger] with_status(mounts, bucket, status)[i]
                == mounts[i] by {
            if i == f {
                let j = choose|j: int| 0 <= j < i && mounts[j].bucket@ == bucket;
                assert(mounts[j].bucket@ != bucket);
            }
        }
        if distinct_mounts(mounts) {
            assert forall|i: int| 0 <= i < mounts.len() && mounts[i].bucket@ == bucket implies (#[trigger] with_status(
                mounts,
                bucket,
                status,
            )[i]).status == status by {
                if i != f {
                    if i < f {
                        assert(mounts[i].bucket@ != bucket);
                    } else {
                        assert(mounts[f].bucket@ != mounts[i].bucket@);
                    }
                }
            }
        }
    }
}

/// Stopping `p` with `stop` can succeed.
pub open spec fn stops_cleanly<P, E, F: Fn(P) -> Result<(), E>>(stop: F, p: P) -> bool {
    exists|o: Result<(), E>| call_ensures(stop, (p,), o) && o is Ok
}

/// The mount table keeps buckets and drives apart, and a process is held only for a
/// mounted bucket. (A mounted bucket may hold none: its process was taken out to be
/// stopped, and stopping it failed.)
pub open spec fn consistent<P>(v: AppStateView<P>) -> bool {
    &&& distinct_mounts(v.mounts)
    &&& forall|k: Seq<char>|
        #![trigger v.processes.dom().contains(k)]
        #![trigger is_mounted(v.mounts, k)]
        v.processes.dom().contains(k) ==> is_mounted(v.mounts, k)
}

/// What the application knows, seen as mathematical values.
pub struct AppStateView<P> {
    pub connections: Seq<Connection>,
    pub current_connection: Option<Connection>,
    pub mounts: Seq<MountInfo>,
    pub processes: Map<Seq<char>, P>,
}

/// What the application knows: the saved connections, the selected one, the mounts,
/// and for each mounted bucket the rclone process (of type `P`) that serves it.
pub struct AppState<P> {
    connections: Vec<Connection>,
    current_connection: Option<Connection>,
    mounts: Vec<MountInfo>,
    rclone_processes: ProcessTable<P>,
}

impl<P> View for AppState<P> {
    type V = AppStateView<P>;

    open spec fn view(&self) -> AppStateView<P> {
        AppStateView {
            connections: self.connections_seq(),
            current_connection: self.current(),
            mounts: self.mounts_seq(),
            processes: self.process_map(),
        }
    }
}

/// The answer when no connection is selected.
pub open spec fn no_connection_message() -> Seq<char> {
    "未选择连接"@
}

/// The answer of a quick mount when no connection is selected.
pub open spec fn no_connection_quick_mount_message() -> Seq<char> {
    "未配置连接，请先在应用中添加连接"@
}

/// The answer when the bucket is mounted already.
pub open spec fn bucket_mounted_message() -> Seq<char> {
    "该 Bucket 已挂载"@
}

/// The answer when the drive is in use.
pub open spec fn drive_used_message() -> Seq<char> {
    "该盘符已被使用"@
}

impl<P> AppState<P> {
    #[verifier::type_invariant]
    spec fn mount_table_consistent(&self) -> bool {
        consistent(self@)
    }

    /// The saved connections.
    pub closed spec fn connections_seq(&self) -> Seq<Connection> {
        self.connections@
    }

    /// The selected connection.
    pub closed spec fn current(&self) -> Option<Connection> {
        self.current_connection
    }

    /// The mount table.
    pub closed spec fn mounts_seq(&self) -> Seq<MountInfo> {
        self.mounts@
    }

    /// The rclone process held for each bucket.
    pub closed spec fn process_map(&self) -> Map<Seq<char>, P> {
        self.rclone_processes@
    }

    /// A state with nothing saved, selected, mounted or running.
    pub fn new() -> (s: Self)
        ensures
            s@.connections.len() == 0,
            s@.current_connection is None,
            s@.mounts.len() == 0,
            s@.processes == Map::<Seq<char>, P>::empty(),
            consistent(s@),
    {
        let s = AppState {
            connections: Vec::new(),
            current_connection: None,
            mounts: Vec::new(),
            rclone_processes: ProcessTable::new(),
        };
        s
    }

    /// Moves the whole state out, leaving an empty one in its place.
    fn take_all(&mut self) -> (st: Self)
        ensures
            st == *old(self),
            consistent(st@),
    {
        proof {
            use_type_invariant(&*self);
        }
        let mut st = AppState::new();
        std::mem::swap(&mut st, self);
        st
    }

    /// Every state keeps its mount table consistent.
    pub fn is_consistent(&self) -> (b: bool)
        ensures
            b,
            consistent(self@),
    {
        proof {
            use_type_invariant(self);
        }
        true
    }

    /// The saved connections.
    pub fn connections(&self) -> (r: &Vec<Connection>)
        ensures
            r@ == self@.connections,
    {
        &self.connections
    }

    /// Replaces the saved connections by those read back from storage.
    pub fn load_connections(&mut self, loaded: Vec<Connection>)
        ensures
            final(self)@.connections == loaded@,
            final(self)@.current_connection == old(self)@.current_connection,
            final(self)@.mounts == old(self)@.mounts,
            final(self)@.processes == old(self)@.processes,
    {
        let AppState { connections: _, current_connection, mounts, rclone_processes } = self.take_all();
        *self = AppState { connections: loaded, current_connection, mounts, rclone_processes };
    }

    /// The endpoint and keys of the selected connection, or the answer that none is selected.
    pub fn current_credentials(&self) -> (r: Result<(String, String, String), String>)
        ensures
            match self@.current_connection {
                Some(c) => r == Ok::<(String, String, String), String>((c.endpoint, c.access_key, c.secret_key)),
                None => r is Err && r->Err_0@ == no_connection_message(),
            },
    {
        match &self.current_connection {
            Some(c) => Ok((c.endpoint.clone(), c.access_key.clone(), c.secret_key.clone())),
            None => Err(String::from_str("未选择连接")),
        }
    }

    /// The endpoint and keys of the selected connection, or the answer of a quick mount
    /// when none is selected.
    pub fn quick_mount_credentials(&self) -> (r: Result<(String, String, String), String>)
        ensures
            match self@.current_connection {
                Some(c) => r == Ok::<(String, String, String), String>((c.endpoint, c.access_key, c.secret_key)),
                None => r is Err && r->Err_0@ == no_connection_quick_mount_message(),
            },
    {
        match &self.current_connection {
            Some(c) => Ok((c.endpoint.clone(), c.access_key.clone(), c.secret_key.clone())),
            None => Err(String::from_str("未配置连接，请先在应用中添加连接")),
        }
    }

    /// Whether `bucket` is mounted.
    pub fn has_mount(&self, bucket: &String) -> (b: bool)
        ensures
            b == is_mounted(self@.mounts, bucket@),
    {
        first_mount(&self.mounts, bucket).is_some()
    }

    /// The buckets `bucket_names`, each marked with the drive of its first mount.
    pub fn list_buckets(&self, bucket_names: Vec<String>) -> (r: Vec<Bucket>)
        ensures
            bucket_listing(bucket_names@, self@.mounts, r@),
    {
        let mut out: Vec<Bucket> = Vec::new();
        let n = bucket_names.len();
        let mut k: usize = 0;
        while k < n
            invariant
                n == bucket_names@.len(),
                k <= n,
                bucket_listing(bucket_names@.take(k as int), self.mounts@, out@),
            decreases n - k,
        {
            let name = bucket_names[k].clone();
            let b = match first_mount(&self.mounts, &name) {
                Some(i) => {
                    proof {
                        lemma_first_mount(self.mounts@, name@);
                    }
                    Bucket { name, drive: Some(self.mounts[i].drive.clone()), mounted: true }
                },
                None => Bucket { name, drive: None, mounted: false },
            };
            out.push(b);
            k = k + 1;
            proof {
                assert forall|j: int| 0 <= j < k implies #[trigger] bucket_names@.take(k as int)[j] == bucket_names@[j] by {}
            }
        }
        proof {
            assert(bucket_names@.take(n as int) =~= bucket_names@);
        }
        out
    }

    /// Decides whether `bucket` may be mounted on `drive`: a connection must be selected,
    /// the bucket must not be mounted yet and the drive must be free. On success, what
    /// the mount needs.
    pub fn prepare_mount(&self, bucket: &String, drive: &String) -> (r: Result<MountConfig, String>)
        ensures
            self@.current_connection is None ==> r is Err && r->Err_0@ == no_connection_message(),
            self@.current_connection is Some && is_mounted(self@.mounts, bucket@) ==> r is Err && r->Err_0@
                == bucket_mounted_message(),
            self@.current_connection is Some && !is_mounted(self@.mounts, bucket@) && drive_in_use(self@.mounts, drive@)
                ==> r is Err && r->Err_0@ == drive_used_message(),
            r is Ok <==> (self@.current_connection is Some && !is_mounted(self@.mounts, bucket@) && !drive_in_use(
                self@.mounts,
                drive@,
            )),
            r is Ok ==> ({
                let c = self@.current_connection->0;
                let m = r->Ok_0;
                &&& m.endpoint == c.endpoint
                &&& m.access_key == c.access_key
                &&& m.secret_key == c.secret_key
                &&& m.bucket == *bucket
                &&& m.drive == *drive
            }),
    {
        let (endpoint, access_key, secret_key) = match self.current_credentials() {
            Ok(t) => t,
            Err(e) => {
                return Err(e);
            },
        };
        if first_mount(&self.mounts, bucket).is_some() {
            return Err(String::from_str("该 Bucket 已挂载"));
        }
        if uses_drive(&self.mounts, drive) {
            return Err(String::from_str("该盘符已被使用"));
        }
        Ok(MountConfig { endpoint, access_key, secret_key, bucket: bucket.clone(), drive: drive.clone() })
    }

    /// Records a mount that has been started, unless the bucket is mounted already or the
    /// drive is in use by then; a refused mount leaves the state as it was and hands the
    /// process back, with the answer. Otherwise `process` serves `bucket` from now on and
    /// the mount table gains `bucket` on `drive` with status `status`.
    pub fn add_mount(&mut self, bucket: String, drive: String, status: String, process: P) -> (r: Result<(), (String, P)>)
        ensures
            is_mounted(old(self)@.mounts, bucket@) ==> r is Err && r->Err_0.0@ == bucket_mounted_message(),
            !is_mounted(old(self)@.mounts, bucket@) && drive_in_use(old(self)@.mounts, drive@) ==> r is Err
                && r->Err_0.0@ == drive_used_message(),
            r is Ok <==> (!is_mounted(old(self)@.mounts, bucket@) && !drive_in_use(old(self)@.mounts, drive@)),
            r is Err ==> r->Err_0.1 == process && final(self)@ == old(self)@,
            r is Ok ==> final(self)@.processes == old(self)@.processes.insert(bucket@, process),
            r is Ok ==> final(self)@.mounts == old(self)@.mounts.push(MountInfo { bucket, drive, status }),
            final(self)@.connections == old(self)@.connections,
            final(self)@.current_connection == old(self)@.current_connection,
            consistent(final(self)@),
    {
        proof {
            use_type_invariant(&*self);
        }
        if first_mount(&self.mounts, &bucket).is_some() {
            return Err((String::from_str("该 Bucket 已挂载"), process));
        }
        if uses_drive(&self.mounts, &drive) {
            return Err((String::from_str("该盘符已被使用"), process));
        }
        let AppState { connections, current_connection, mut mounts, mut rclone_processes } = self.take_all();
        let ghost old_mounts = mounts@;
        let ghost old_procs = rclone_processes@;
        let key = bucket.clone();
        let _ = rclone_processes.insert(key, process);
        let added = MountInfo { bucket, drive, status };
        proof {
            lemma_accepted_mount_keeps_distinct(old_mounts, added);
            assert forall|k: Seq<char>| #![auto] rclone_processes@.dom().contains(k) ==> is_mounted(old_mounts.push(added), k) by {
                lemma_mounted_push(old_mounts, added, k);
            }
        }
        mounts.push(added);
        *self = AppState { connections, current_connection, mounts, rclone_processes };
        Ok(())
    }

    /// Records a mount started from the main window, unless the bucket is mounted already
    /// or the drive is in use by then (the state is then left as it was, and the process
    /// handed back with the answer). The mount is listed as "connected" when it reported
    /// that it is up (`up`), else as "mounting". The answer says which bucket goes to
    /// which drive.
    pub fn mount_bucket(&mut self, bucket: String, drive: String, up: bool, process: P) -> (r: Result<String, (String, P)>)
        ensures
            is_mounted(old(self)@.mounts, bucket@) ==> r is Err && r->Err_0.0@ == bucket_mounted_message(),
            !is_mounted(old(self)@.mounts, bucket@) && drive_in_use(old(self)@.mounts, drive@) ==> r is Err
                && r->Err_0.0@ == drive_used_message(),
            r is Ok <==> (!is_mounted(old(self)@.mounts, bucket@) && !drive_in_use(old(self)@.mounts, drive@)),
            r is Err ==> r->Err_0.1 == process && final(self)@ == old(self)@,
            r is Ok ==> final(self)@.processes == old(self)@.processes.insert(bucket@, process),
            r is Ok ==> final(self)@.mounts.len() == old(self)@.mounts.len() + 1,
            r is Ok ==> final(self)@.mounts.drop_last() == old(self)@.mounts,
            r is Ok ==> final(self)@.mounts.last().bucket == bucket,
            r is Ok ==> final(self)@.mounts.last().drive == drive,
            r is Ok ==> final(self)@.mounts.last().status@ == (if up { "connected"@ } else { "mounting"@ }),
            r is Ok ==> r->Ok_0@ == mounting_message(bucket@, drive@),
            final(self)@.connections == old(self)@.connections,
            final(self)@.current_connection == old(self)@.current_connection,
            consistent(final(self)@),
    {
        let mut message = String::from_str("正在挂载 ");
        message.append(bucket.as_str());
        message.append(" 到 ");
        message.append(drive.as_str());
        message.append(":");
        let status = if up { String::from_str("connected") } else { String::from_str("mounting") };
        match self.add_mount(bucket, drive, status, process) {
            Ok(()) => {
                proof {
                    assert(self@.mounts.drop_last() =~= old(self)@.mounts);
                }
                Ok(message)
            },
            Err(refused) => Err(refused),
        }
    }

    /// Unmounts `bucket`: its process, if one is held, is taken out of the state and
    /// handed to `stop`. When stopping succeeds, or no process was held, the bucket's mount
    /// leaves the table; when stopping fails, the answer is `stop`'s error and the mount
    /// table is left as it was.
    pub fn unmount_bucket<E, F: FnOnce(P) -> Result<(), E>>(&mut self, bucket: &String, stop: F) -> (r: Result<(), E>)
        requires
            old(self)@.processes.dom().contains(bucket@) ==> call_requires(stop, (old(self)@.processes[bucket@],)),
        ensures
            final(self)@.processes == old(self)@.processes.remove(bucket@),
            old(self)@.processes.dom().contains(bucket@) ==> call_ensures(stop, (old(self)@.processes[bucket@],), r),
            !old(self)@.processes.dom().contains(bucket@) ==> r is Ok,
            r is Ok ==> final(self)@.mounts == without_mount(old(self)@.mounts, bucket@) && !is_mounted(
                final(self)@.mounts,
                bucket@,
            ),
            r is Err ==> final(self)@.mounts == old(self)@.mounts,
            final(self)@.connections == old(self)@.connections,
            final(self)@.current_connection == old(self)@.current_connection,
            consistent(final(self)@),
    {
        let AppState { connections, current_connection, mut mounts, mut rclone_processes } = self.take_all();
        let ghost old_mounts = mounts@;
        let ghost old_procs = rclone_processes@;
        proof {
            lemma_without_mount(old_mounts, bucket@);
        }
        let taken = rclone_processes.remove(bucket);
        let r = match taken {
            Some(p) => stop(p),
            None => Ok(()),
        };
        if r.is_ok() {
            match first_mount(&mounts, bucket) {
                Some(i) => {
                    proof {
                        lemma_first_mount(old_mounts, bucket@);
                    }
                    let _ = mounts.remove(i);
                },
                None => {},
            }
            assert(mounts@ == without_mount(old_mounts, bucket@));
        }
        proof {
            assert forall|k: Seq<char>| #[trigger] rclone_processes@.dom().contains(k) implies is_mounted(mounts@, k) by {
                assert(old_procs.dom().contains(k));
            }
        }
        *self = AppState { connections, current_connection, mounts, rclone_processes };
        r
    }

    /// Unmounts every bucket: every process is taken out of the state and handed to `stop`
    /// in turn. When every stop succeeds the mount table is emptied; at the first failure
    /// the answer is that error, the processes not yet stopped are let go, and the mount
    /// table is left as it was.
    pub fn unmount_all<E, F: Fn(P) -> Result<(), E>>(&mut self, stop: F) -> (r: Result<(), E>)
        requires
            forall|k: Seq<char>| #[trigger] old(self)@.processes.dom().contains(k) ==> call_requires(
                stop,
                (old(self)@.processes[k],),
            ),
        ensures
            final(self)@.processes == Map::<Seq<char>, P>::empty(),
            r is Ok ==> final(self)@.mounts.len() == 0,
            r is Ok ==> forall|k: Seq<char>| #[trigger] old(self)@.processes.dom().contains(k) ==> stops_cleanly(
                stop,
                old(self)@.processes[k],
            ),
            r is Err ==> final(self)@.mounts == old(self)@.mounts,
            r is Err ==> exists|k: Seq<char>| #[trigger] old(self)@.processes.dom().contains(k) && call_ensures(
                stop,
                (old(self)@.processes[k],),
                r,
            ),
            final(self)@.connections == old(self)@.connections,
            final(self)@.current_connection == old(self)@.current_connection,
            consistent(final(self)@),
    {
        let AppState { connections, current_connection, mounts, mut rclone_processes } = self.take_all();
        let ghost procs = rclone_processes@;
        assert(procs == old(self)@.processes);
        let mut pairs = rclone_processes.drain();
        let ghost all = pairs@;
        let n = pairs.len();
        let mut done: usize = 0;
        let mut result: Result<(), E> = Ok(());
        while pairs.len() > 0
            invariant_except_break
                done + pairs@.len() == n,
                n == all.len(),
                forall|i: int| 0 <= i < pairs@.len() ==> pairs@[i] == all[done + i],
                forall|i: int| 0 <= i < n ==> procs.dom().contains(#[trigger] all[i].0@) && procs[all[i].0@] == all[i].1,
                forall|k: Seq<char>| #[trigger] procs.dom().contains(k) ==> call_requires(stop, (procs[k],)),
                forall|i: int| 0 <= i < done ==> stops_cleanly(stop, #[trigger] all[i].1),
                result is Ok,
            ensures
                result is Ok ==> done == n && forall|i: int| 0 <= i < n ==> stops_cleanly(stop, #[trigger] all[i].1),
                result is Err ==> exists|i: int| 0 <= i < n && call_ensures(stop, (#[trigger] all[i].1,), result),
            decreases pairs@.len(),
        {
            let (_, p) = pairs.remove(0);
            proof {
                assert(procs.dom().contains(all[done as int].0@));
            }
            let ghost pv = p;
            assert(pv == all[done as int].1);
            let outcome = stop(p);
            if outcome.is_err() {
                result = outcome;
                assert(call_ensures(stop, (all[done as int].1,), result));
                break;
            }
            proof {
                assert(call_ensures(stop, (all[done as int].1,), outcome) && outcome is Ok);
                assert forall|i: int| 0 <= i < done + 1 implies stops_cleanly(stop, #[trigger] all[i].1) by {
                    if i == done {
                        assert(call_ensures(stop, (all[i].1,), outcome) && outcome is Ok);
                    }
                }
            }
            done = done + 1;
        }
        proof {
            if result is Ok {
                assert forall|k: Seq<char>| #[trigger] procs.dom().contains(k) implies stops_cleanly(stop, procs[k]) by {
                    let i = choose|i: int| 0 <= i < n && all[i].0@ == k;
                    assert(procs[all[i].0@] == all[i].1);
                }
            } else {
                let i = choose|i: int| 0 <= i < n && call_ensures(stop, (#[trigger] all[i].1,), result);
                assert(procs.dom().contains(all[i].0@) && call_ensures(stop, (procs[all[i].0@],), result));
                assert(old(self)@.processes.dom().contains(all[i].0@));
            }
        }
        let mounts = if result.is_ok() { Vec::new() } else { mounts };
        *self = AppState { connections, current_connection, mounts, rclone_processes };
        result
    }

    /// Forgets every mount and takes out every rclone process, with its bucket, so that
    /// the processes can be stopped: each bucket that was served comes back once, with
    /// its process.
    pub fn cleanup_mounts(&mut self) -> (r: Vec<(String, P)>)
        ensures
            final(self)@.processes == Map::<Seq<char>, P>::empty(),
            final(self)@.mounts.len() == 0,
            forall|i: int, j: int| 0 <= i < j < r@.len() ==> (#[trigger] r@[i]).0@ != (#[trigger] r@[j]).0@,
            forall|i: int| 0 <= i < r@.len() ==> old(self)@.processes.dom().contains(#[trigger] r@[i].0@)
                && old(self)@.processes[r@[i].0@] == r@[i].1,
            forall|k: Seq<char>| #[trigger] old(self)@.processes.dom().contains(k) ==> exists|i: int|
                0 <= i < r@.len() && r@[i].0@ == k,
            final(self)@.connections == old(self)@.connections,
            final(self)@.current_connection == old(self)@.current_connection,
            consistent(final(self)@),
    {
        let AppState { connections, current_connection, mounts: _, mut rclone_processes } = self.take_all();
        let r = rclone_processes.drain();
        let mounts: Vec<MountInfo> = Vec::new();
        *self = AppState { connections, current_connection, mounts, rclone_processes };
        r
    }

    /// A copy of the mount table.
    pub fn get_mount_status(&self) -> (r: Vec<MountInfo>)
        ensures
            r@ == self@.mounts,
    {
        let mut out: Vec<MountInfo> = Vec::new();
        let n = self.mounts.len();
        let mut i: usize = 0;
        while i < n
            invariant
                n == self.mounts@.len(),
                i <= n,
                out@ == self.mounts@.take(i as int),
            decreases n - i,
        {
            out.push(self.mounts[i].clone());
            i = i + 1;
            proof {
                assert(out@ =~= self.mounts@.take(i as int));
            }
        }
        proof {
            assert(self.mounts@.take(n as int) =~= self.mounts@);
        }
        out
    }

    /// Sets the status of the first mount of `bucket`; without such a mount nothing changes.
    pub fn set_mount_status(&mut self, bucket: &String, status: String)
        ensures
            final(self)@.mounts == with_status(old(self)@.mounts, bucket@, status),
            final(self)@.processes == old(self)@.processes,
            final(self)@.connections == old(self)@.connections,
            final(self)@.current_connection == old(self)@.current_connection,
            consistent(final(self)@),
    {
        let AppState { connections, current_connection, mut mounts, rclone_processes } = self.take_all();
        let ghost old_mounts = mounts@;
        let ghost procs = rclone_processes@;
        assert(consistent(AppStateView { connections: connections@, current_connection, mounts: old_mounts, processes: procs }));
        match first_mount(&mounts, bucket) {
            Some(i) => {
                proof {
                    lemma_first_mount(old_mounts, bucket@);
                }
                let m = MountInfo { bucket: mounts[i].bucket.clone(), drive: mounts[i].drive.clone(), status };
                mounts.set(i, m);
            },
            None => {},
        }
        proof {
            assert(mounts@.len() == old_mounts.len());
            assert(forall|j: int| 0 <= j < mounts@.len() ==> #[trigger] mounts@[j].bucket == old_mounts[j].bucket
                && mounts@[j].drive == old_mounts[j].drive);
            assert forall|a: int, b: int| 0 <= a < b < mounts@.len() implies {
                &&& (#[trigger] mounts@[a]).bucket@ != (#[trigger] mounts@[b]).bucket@
                &&& mounts@[a].drive@ != mounts@[b].drive@
            } by {
                assert(old_mounts[a].bucket@ != old_mounts[b].bucket@);
            }
            assert forall|k: Seq<char>| #![auto] procs.dom().contains(k) ==> is_mounted(mounts@, k) by {
                if is_mounted(mounts@, k) {
                    let j = choose|j: int| 0 <= j < mounts@.len() && #[trigger] mounts@[j].bucket@ == k;
                    assert(old_mounts[j].bucket@ == k);
                    assert(is_mounted(old_mounts, k));
                }
                if is_mounted(old_mounts, k) {
                    let j = choose|j: int| 0 <= j < old_mounts.len() && #[trigger] old_mounts[j].bucket@ == k;
                    assert(mounts@[j].bucket@ == k);
                }
            }
        }
        *self = AppState { connections, current_connection, mounts, rclone_processes };
    }

    /// Holds `process`, an rclone started again for `bucket`, in place of the process held
    /// for it, which is handed back. When no process is held for `bucket` (it was unmounted,
    /// or its process was taken out to be stopped), nothing changes and `process` is handed
    /// back instead.
    pub fn replace_process(&mut self, bucket: String, process: P) -> (r: Result<P, P>)
        ensures
            old(self)@.processes.dom().contains(bucket@) ==> r == Ok::<P, P>(old(self)@.processes[bucket@])
                && final(self)@.processes == old(self)@.processes.insert(bucket@, process)
                && final(self)@.mounts == old(self)@.mounts,
            !old(self)@.processes.dom().contains(bucket@) ==> r == Err::<P, P>(process) && final(self)@ == old(self)@,
            final(self)@.connections == old(self)@.connections,
            final(self)@.current_connection == old(self)@.current_connection,
            consistent(final(self)@),
    {
        let AppState { connections, current_connection, mounts, mut rclone_processes } = self.take_all();
        let ghost old_procs = rclone_processes@;
        let r = rclone_processes.replace(bucket, process);
        proof {
            assert(rclone_processes@.dom() =~= old_procs.dom());
        }
        *self = AppState { connections, current_connection, mounts, rclone_processes };
        r
    }

    /// Saves `connection`: it takes the place of the first saved connection with the
    /// same id, or is appended when there is none.
    pub fn save_connection(&mut self, connection: Connection)
        ensures
            final(self)@.connections == upserted(old(self)@.connections, connection),
            final(self)@.current_connection == old(self)@.current_connection,
            final(self)@.mounts == old(self)@.mounts,
            final(self)@.processes == old(self)@.processes,
    {
        let AppState { mut connections, current_connection, mounts, rclone_processes } = self.take_all();
        let ghost s = connections@;
        let n = connections.len();
        let mut i: usize = 0;
        let mut found = false;
        while i < n
            invariant_except_break
                n == connections.len(),
                connections@ == s,
                i <= n,
                !found,
                forall|j: int| 0 <= j < i ==> s[j].id@ != connection.id@,
            ensures
                n == connections.len(),
                connections@ == s,
                i <= n,
                found ==> i < n && is_first_with_id(s, connection.id@, i as int),
                !found ==> i == n && forall|j: int| 0 <= j < n ==> s[j].id@ != connection.id@,
            decreases n - i,
        {
            if connections[i].id == connection.id {
                found = true;
                break;
            }
            i = i + 1;
        }
        if found {
            proof {
                lemma_first_with_id(s, connection.id@);
            }
            connections.set(i, connection);
        } else {
            connections.push(connection);
        }
        *self = AppState { connections, current_connection, mounts, rclone_processes };
    }

    /// Removes every saved connection whose id is `id`; the others keep their order.
    pub fn delete_connection(&mut self, id: &String)
        ensures
            final(self)@.connections == without_id(old(self)@.connections, id@),
            final(self)@.current_connection == old(self)@.current_connection,
            final(self)@.mounts == old(self)@.mounts,
            final(self)@.processes == old(self)@.processes,
    {
        let AppState { connections, current_connection, mounts, rclone_processes } = self.take_all();
        let mut kept: Vec<Connection> = Vec::new();
        let n = connections.len();
        let mut i: usize = 0;
        while i < n
            invariant
                n == connections.len(),
                i <= n,
                kept@ == without_id(connections@.take(i as int), id@),
            decreases n - i,
        {
            let c = connections[i].clone();
            proof {
                assert(connections@.take(i + 1).drop_last() =~= connections@.take(i as int));
            }
            if c.id != *id {
                kept.push(c);
            }
            i = i + 1;
        }
        proof {
            assert(connections@.take(n as int) =~= connections@);
        }
        *self = AppState { connections: kept, current_connection, mounts, rclone_processes };
    }

    /// Selects the first saved connection with id `id`, or none when no saved connection
    /// has that id.
    pub fn set_current_connection(&mut self, id: &String)
        ensures
            final(self)@.current_connection == lookup(old(self)@.connections, id@),
            final(self)@.connections == old(self)@.connections,
            final(self)@.mounts == old(self)@.mounts,
            final(self)@.processes == old(self)@.processes,
    {
        let AppState { connections, current_connection: _, mounts, rclone_processes } = self.take_all();
        let n = connections.len();
        let mut i: usize = 0;
        let mut selected: Option<Connection> = None;
        while i < n
            invariant_except_break
                n == connections.len(),
                i <= n,
                selected is None,
                forall|j: int| 0 <= j < i ==> connections@[j].id@ != id@,
            ensures
                selected == lookup(connections@, id@),
            decreases n - i,
        {
            if connections[i].id == *id {
                proof {
                    assert(is_first_with_id(connections@, id@, i as int));
                    lemma_first_with_id(connections@, id@);
                }
                selected = Some(connections[i].clone());
                break;
            }
            i = i + 1;
        }
        *self = AppState { connections, current_connection: selected, mounts, rclone_processes };
    }

    /// The buckets of the mount table, in its order.
    pub fn mounted_buckets(&self) -> (r: Vec<String>)
        ensures
            r@.len() == self@.mounts.len(),
            forall|i: int| 0 <= i < r@.len() ==> #[trigger] r@[i] == self@.mounts[i].bucket,
    {
        let mut out: Vec<String> = Vec::new();
        let n = self.mounts.len();
        let mut i: usize = 0;
        while i < n
            invariant
                n == self.mounts@.len(),
                i <= n,
                out@.len() == i,
                forall|j: int| 0 <= j < i ==> #[trigger] out@[j] == self.mounts@[j].bucket,
            decreases n - i,
        {
            out.push(self.mounts[i].bucket.clone());
            i = i + 1;
        }
        out
    }

    /// The drives of the mount table, in its order.
    pub fn mounted_drives(&self) -> (r: Vec<String>)
        ensures
            r@.len() == self@.mounts.len(),
            forall|i: int| 0 <= i < r@.len() ==> #[trigger] r@[i] == self@.mounts[i].drive,
    {
        let mut out: Vec<String> = Vec::new();
        let n = self.mounts.len();
        let mut i: usize = 0;
        while i < n
            invariant
                n == self.mounts@.len(),
                i <= n,
                out@.len() == i,
                forall|j: int| 0 <= j < i ==> #[trigger] out@[j] == self.mounts@[j].drive,
            decreases n - i,
        {
            out.push(self.mounts[i].drive.clone());
            i = i + 1;
        }
        out
    }
}

} // verus!
