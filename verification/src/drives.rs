//! "Quick mount": which buckets still need a drive, and which drive letters they get.
use vstd::prelude::*;
use crate::text::{chars_of, push_char};

verus! {

/// The code of the first drive letter handed out, `'D'`.
pub open spec fn first_letter() -> int {
    68
}

/// The code of the last drive letter, `'Z'`.
pub open spec fn last_letter() -> int {
    90
}

/// The codes of the letters from `from` up to `'Z'` that are not in `used`, ascending.
pub open spec fn free_letters_from(used: Seq<char>, from: int) -> Seq<int>
    decreases last_letter() + 1 - from,
{
    if from > last_letter() {
        Seq::empty()
    } else if used.contains(from as char) {
        free_letters_from(used, from + 1)
    } else {
        seq![from] + free_letters_from(used, from + 1)
    }
}

/// The free drive letters: those from `'D'` to `'Z'` that are not in `used`, ascending.
pub open spec fn free_letters(used: Seq<char>) -> Seq<int> {
    free_letters_from(used, first_letter())
}

/// The free letters from `from` on lie between `from` and `'Z'`, are not in use, ascend
/// strictly, and include every letter of that range that is not in use.
pub proof fn lemma_free_letters_from(used: Seq<char>, from: int)
    requires
        first_letter() <= from <= last_letter() + 1,
    ensures
        forall|i: int| 0 <= i < free_letters_from(used, from).len() ==> {
            let c = #[trigger] free_letters_from(used, from)[i];
            &&& from <= c <= last_letter()
            &&& !used.contains(c as char)
        },
        forall|i: int, j: int| 0 <= i < j < free_letters_from(used, from).len()
            ==> #[trigger] free_letters_from(used, from)[i] < #[trigger] free_letters_from(used, from)[j],
        forall|c: int| from <= c <= last_letter() && !used.contains(c as char)
            ==> #[trigger] free_letters_from(used, from).contains(c),
    decreases last_letter() + 1 - from,
{
    if from <= last_letter() {
        lemma_free_letters_from(used, from + 1);
        let rest = free_letters_from(used, from + 1);
        if !used.contains(from as char) {
            let s = free_letters_from(used, from);
            assert(s == seq![from] + rest);
            assert forall|i: int| 0 <= i < s.len() implies {
                let c = #[trigger] s[i];
                &&& from <= c <= last_letter()
                &&& !used.contains(c as char)
            } by {
                if i > 0 {
                    assert(s[i] == rest[i - 1]);
                }
            }
            assert forall|i: int, j: int| 0 <= i < j < s.len() implies #[trigger] s[i] < #[trigger] s[j] by {
                assert(s[j] == rest[j - 1]);
                if i > 0 {
                    assert(s[i] == rest[i - 1]);
                }
            }
            assert forall|c: int| from <= c <= last_letter() && !used.contains(c as char) implies #[trigger] s.contains(c) by {
                if c == from {
                    assert(s[0] == from);
                } else {
                    assert(rest.contains(c));
                    let k = choose|k: int| 0 <= k < rest.len() && rest[k] == c;
                    assert(s[k + 1] == c);
                }
            }
        } else {
            assert forall|c: int| from <= c <= last_letter() && !used.contains(c as char) implies #[trigger] free_letters_from(used, from).contains(c) by {
                assert(c != from);
            }
        }
    }
}

/// The first character of each non-empty drive name, in order.
pub open spec fn used_letters(drives: Seq<String>) -> Seq<char>
    decreases drives.len(),
{
    if drives.len() == 0 {
        Seq::empty()
    } else if drives.last()@.len() == 0 {
        used_letters(drives.drop_last())
    } else {
        used_letters(drives.drop_last()).push(drives.last()@[0])
    }
}

/// The bucket names of `names` that are not in `mounted`, in their order.
pub open spec fn unmounted(names: Seq<String>, mounted: Seq<String>) -> Seq<String>
    decreases names.len(),
{
    if names.len() == 0 {
        Seq::empty()
    } else if (exists|i: int| 0 <= i < mounted.len() && #[trigger] mounted[i]@ == names.last()@) {
        unmounted(names.drop_last(), mounted)
    } else {
        unmounted(names.drop_last(), mounted).push(names.last())
    }
}

/// The drive name made of the single letter with code `code`.
pub open spec fn drive_name(code: int) -> Seq<char> {
    seq![code as char]
}

/// Which buckets get which drives, and the first bucket left without one.
#[derive(Debug, PartialEq, Eq)]
pub struct QuickMountPlan {
    pub assignments: Vec<(String, String)>,
    pub exhausted: Option<String>,
}

/// `plan` hands the buckets `todo`, in order, the letters `free`, in order, as long as
/// letters last, and names the first bucket for which none is left.
pub open spec fn plans(todo: Seq<String>, free: Seq<int>, plan: QuickMountPlan) -> bool {
    let m = if free.len() < todo.len() { free.len() as int } else { todo.len() as int };
    &&& plan.assignments@.len() == m
    &&& forall|k: int| 0 <= k < m ==> {
        &&& (#[trigger] plan.assignments@[k]).0 == todo[k]
        &&& plan.assignments@[k].1@ == drive_name(free[k])
    }
    &&& plan.exhausted == (if m < todo.len() { Some(todo[m]) } else { None::<String> })
}

/// The answer when every listed bucket is mounted already.
pub open spec fn nothing_to_mount_message() -> Seq<char> {
    "没有可挂载的 Bucket（全部已挂载）"@
}

/// Whether `c` is among `cs`.
fn has_char(cs: &Vec<char>, c: char) -> (b: bool)
    ensures
        b == cs@.contains(c),
{
    let n = cs.len();
    let mut i: usize = 0;
    while i < n
        invariant
            n == cs@.len(),
            i <= n,
            forall|j: int| 0 <= j < i ==> cs@[j] != c,
        decreases n - i,
    {
        if cs[i] == c {
            assert(cs@[i as int] == c);
            return true;
        }
        i = i + 1;
    }
    false
}

/// The first letter of each non-empty drive name in `drives`.
pub fn drive_letters(drives: &Vec<String>) -> (r: Vec<char>)
    ensures
        r@ == used_letters(drives@),
{
    let mut out: Vec<char> = Vec::new();
    let n = drives.len();
    let mut i: usize = 0;
    while i < n
        invariant
            n == drives@.len(),
            i <= n,
            out@ == used_letters(drives@.take(i as int)),
        decreases n - i,
    {
        let cs = chars_of(drives[i].as_str());
        proof {
            assert(drives@.take(i + 1).drop_last() =~= drives@.take(i as int));
            assert(drives@.take(i + 1).last() == drives@[i as int]);
        }
        if cs.len() > 0 {
            out.push(cs[0]);
        }
        i = i + 1;
    }
    proof {
        assert(drives@.take(n as int) =~= drives@);
    }
    out
}

/// The names of `names` that are not in `mounted`, in their order.
pub fn unmounted_buckets(names: &Vec<String>, mounted: &Vec<String>) -> (r: Vec<String>)
    ensures
        r@ == unmounted(names@, mounted@),
{
    let mut out: Vec<String> = Vec::new();
    let n = names.len();
    let mut i: usize = 0;
    while i < n
        invariant
            n == names@.len(),
            i <= n,
            out@ == unmounted(names@.take(i as int), mounted@),
        decreases n - i,
    {
        proof {
            assert(names@.take(i + 1).drop_last() =~= names@.take(i as int));
            assert(names@.take(i + 1).last() == names@[i as int]);
        }
        let mut found = false;
        let mut j: usize = 0;
        while j < mounted.len()
            invariant
                j <= mounted@.len(),
                i < names@.len(),
                found == (exists|k: int| 0 <= k < j && #[trigger] mounted@[k]@ == names@[i as int]@),
            decreases mounted@.len() - j,
        {
            if mounted[j] == names[i] {
                found = true;
            }
            j = j + 1;
        }
        if !found {
            out.push(names[i].clone());
        }
        i = i + 1;
    }
    proof {
        assert(names@.take(n as int) =~= names@);
    }
    out
}

/// Plans a quick mount of the listed buckets `names`: those not in `mounted` get, in
/// order, the free drive letters in ascending order (from `'D'` to `'Z'`, skipping each
/// letter that begins a drive in `drives`), until the free letters run out. Fails when
/// every listed bucket is mounted.
pub fn plan_quick_mount(names: &Vec<String>, mounted: &Vec<String>, drives: &Vec<String>) -> (r: Result<QuickMountPlan, String>)
    ensures
        unmounted(names@, mounted@).len() == 0 <==> r is Err,
        r is Err ==> r->Err_0@ == nothing_to_mount_message(),
        r is Ok ==> plans(unmounted(names@, mounted@), free_letters(used_letters(drives@)), r->Ok_0),
{
    let todo = unmounted_buckets(names, mounted);
    if todo.len() == 0 {
        return Err(String::from_str("没有可挂载的 Bucket（全部已挂载）"));
    }
    let used = drive_letters(drives);
    let ghost free = free_letters(used@);
    let mut assignments: Vec<(String, String)> = Vec::new();
    let mut exhausted: Option<String> = None;
    let n = todo.len();
    let mut next: u8 = 68;
    let mut k: usize = 0;
    while k < n
        invariant_except_break
            n == todo@.len(),
            k <= n,
            k <= free.len(),
            68 <= next <= 91,
            free_letters_from(used@, next as int) == free.skip(k as int),
            assignments@.len() == k,
            forall|j: int| 0 <= j < k ==> {
                &&& (#[trigger] assignments@[j]).0 == todo@[j]
                &&& assignments@[j].1@ == drive_name(free[j])
            },
            exhausted is None,
        ensures
            k <= n,
            k <= free.len(),
            exhausted is Some ==> k < n && exhausted == Some(todo@[k as int]) && free.len() == k,
            exhausted is None ==> k == n,
            assignments@.len() == k,
            forall|j: int| 0 <= j < k ==> {
                &&& (#[trigger] assignments@[j]).0 == todo@[j]
                &&& assignments@[j].1@ == drive_name(free[j])
            },
        decreases n - k,
    {
        while next <= 90 && has_char(&used, next as char)
            invariant
                68 <= next <= 91,
                free_letters_from(used@, next as int) == free.skip(k as int),
            decreases 91 - next,
        {
            next = next + 1;
        }
        if next > 90 {
            proof {
                assert(free.skip(k as int).len() == 0);
            }
            exhausted = Some(todo[k].clone());
            break;
        }
        proof {
            let rest = free_letters_from(used@, next + 1);
            assert(free.skip(k as int) == seq![next as int] + rest);
            assert(free.skip(k as int)[0] == free[k as int]);
            assert(free.skip(k + 1) =~= free.skip(k as int).skip(1));
            assert((seq![next as int] + rest).skip(1) =~= rest);
        }
        let mut drive = String::new();
        push_char(&mut drive, next as char);
        proof {
            assert(drive@ =~= drive_name(next as int));
        }
        assignments.push((todo[k].clone(), drive));
        next = next + 1;
        k = k + 1;
    }
    Ok(QuickMountPlan { assignments, exhausted })
}

/// The message for a bucket left without a drive letter.
pub fn drives_exhausted_message(bucket: &String) -> (r: String)
    ensures
        r@ == "盘符已用尽，无法挂载 "@ + bucket@,
{
    let mut r = String::from_str("盘符已用尽，无法挂载 ");
    r.append(bucket.as_str());
    r
}

/// Every bucket that still needs a drive is one of the listed buckets and is not mounted.
pub proof fn lemma_unmounted_not_mounted(names: Seq<String>, mounted: Seq<String>, k: int)
    requires
        0 <= k < unmounted(names, mounted).len(),
    ensures
        names.contains(unmounted(names, mounted)[k]),
        forall|i: int| 0 <= i < mounted.len() ==> #[trigger] mounted[i]@ != unmounted(names, mounted)[k]@,
    decreases names.len(),
{
    let u = unmounted(names, mounted);
    let prev = unmounted(names.drop_last(), mounted);
    if k < prev.len() {
        lemma_unmounted_not_mounted(names.drop_last(), mounted, k);
        assert(u[k] == prev[k]);
        let i = choose|i: int| 0 <= i < names.drop_last().len() && names.drop_last()[i] == prev[k];
        assert(names[i] == prev[k]);
    } else {
        assert(u[k] == names.last());
        assert(names[names.len() - 1] == names.last());
    }
}

/// Quick mount hands each bucket a free drive letter from `'D'` to `'Z'`: no letter that
/// begins a drive in use, no letter twice, and letters in ascending order; every bucket
/// that gets one is listed and not mounted; and a bucket is left without a letter only
/// when every free letter has been handed out.
pub proof fn lemma_quick_mount_plan(names: Seq<String>, mounted: Seq<String>, drives: Seq<String>, plan: QuickMountPlan)
    requires
        plans(unmounted(names, mounted), free_letters(used_letters(drives)), plan),
    ensures
        forall|j: int, k: int| 0 <= j < k < plan.assignments@.len()
            ==> #[trigger] plan.assignments@[j].1@ != #[trigger] plan.assignments@[k].1@,
        forall|k: int| 0 <= k < plan.assignments@.len() ==> {
            let d = (#[trigger] plan.assignments@[k]).1@;
            &&& d.len() == 1
            &&& first_letter() <= d[0] as int <= last_letter()
            &&& !used_letters(drives).contains(d[0])
            &&& names.contains(plan.assignments@[k].0)
            &&& forall|i: int| 0 <= i < mounted.len() ==> #[trigger] mounted[i]@ != plan.assignments@[k].0@
        },
        plan.exhausted is Some ==> forall|c: int| #![trigger used_letters(drives).contains(c as char)] first_letter() <= c <= last_letter() && !used_letters(drives).contains(c as char)
            ==> exists|k: int| 0 <= k < plan.assignments@.len() && #[trigger] plan.assignments@[k].1@ == drive_name(c),
{
    let used = used_letters(drives);
    let free = free_letters(used);
    lemma_free_letters_from(used, first_letter());
    assert forall|j: int, k: int| 0 <= j < k < plan.assignments@.len()
        implies #[trigger] plan.assignments@[j].1@ != #[trigger] plan.assignments@[k].1@ by {
        assert(free[j] < free[k]);
        assert(plan.assignments@[j].1@[0] == free[j] as char);
        assert(plan.assignments@[k].1@[0] == free[k] as char);
        assert((free[j] as char) as int == free[j]);
        assert((free[k] as char) as int == free[k]);
    }
    assert forall|k: int| 0 <= k < plan.assignments@.len() implies {
        let d = (#[trigger] plan.assignments@[k]).1@;
        &&& d.len() == 1
        &&& first_letter() <= d[0] as int <= last_letter()
        &&& !used.contains(d[0])
        &&& names.contains(plan.assignments@[k].0)
        &&& forall|i: int| 0 <= i < mounted.len() ==> #[trigger] mounted[i]@ != plan.assignments@[k].0@
    } by {
        let c = free[k];
        assert(((c as char) as int) == c);
        lemma_unmounted_not_mounted(names, mounted, k);
    }
    if plan.exhausted is Some {
        assert forall|c: int| #![trigger used.contains(c as char)] first_letter() <= c <= last_letter() && !used.contains(c as char)
            implies exists|k: int| 0 <= k < plan.assignments@.len() && #[trigger] plan.assignments@[k].1@ == drive_name(c) by {
            assert(free.contains(c));
            let k = choose|k: int| 0 <= k < free.len() && free[k] == c;
            assert(plan.assignments@[k].1@ == drive_name(c));
        }
    }
}

/// Every listed bucket whose name equals the name of no mounted bucket still needs a
/// drive: it is among the buckets that quick mount hands letters to.
pub proof fn lemma_unmounted_complete(names: Seq<String>, mounted: Seq<String>, k: int)
    requires
        0 <= k < names.len(),
        forall|i: int| 0 <= i < mounted.len() ==> #[trigger] mounted[i]@ != names[k]@,
    ensures
        unmounted(names, mounted).contains(names[k]),
    decreases names.len(),
{
    let u = unmounted(names, mounted);
    if k == names.len() - 1 {
        assert(names.last() == names[k]);
        assert(!(exists|i: int| 0 <= i < mounted.len() && #[trigger] mounted[i]@ == names.last()@));
        assert(u.last() == names[k]);
        assert(u[u.len() - 1] == names[k]);
    } else {
        assert(names.drop_last()[k] == names[k]);
        lemma_unmounted_complete(names.drop_last(), mounted, k);
        let prev = unmounted(names.drop_last(), mounted);
        let j = choose|j: int| 0 <= j < prev.len() && prev[j] == names[k];
        assert(u[j] == prev[j]);
    }
}

/// A quick mount whose letters did not run out gives a letter to every listed bucket
/// whose name equals the name of no mounted bucket.
pub proof fn lemma_quick_mount_covers_unmounted(
    names: Seq<String>,
    mounted: Seq<String>,
    drives: Seq<String>,
    plan: QuickMountPlan,
    k: int,
)
    requires
        plans(unmounted(names, mounted), free_letters(used_letters(drives)), plan),
        plan.exhausted is None,
        0 <= k < names.len(),
        forall|i: int| 0 <= i < mounted.len() ==> #[trigger] mounted[i]@ != names[k]@,
    ensures
        exists|j: int| 0 <= j < plan.assignments@.len() && (#[trigger] plan.assignments@[j]).0 == names[k],
{
    lemma_unmounted_complete(names, mounted, k);
    let u = unmounted(names, mounted);
    let j = choose|j: int| 0 <= j < u.len() && u[j] == names[k];
    assert(plan.assignments@[j].0 == u[j]);
}

} // verus!
