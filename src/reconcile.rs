//! Which input hostnames the inventory knows, and which it does not.
use vstd::prelude::*;
use crate::hostnames::seq_views;

verus! {

/// A device as the inventory describes it.
pub struct DeviceRecord {
    pub device_id: String,
    /// Absent where the inventory has no hostname recorded for the device.
    pub hostname: Option<String>,
}

/// How an input hostname set compares with the devices that were found.
pub struct ReconciliationResult {
    pub matched_count: usize,
    pub total_count: usize,
    pub matched_hostnames: Vec<String>,
    pub unmatched_hostnames: Vec<String>,
}

/// Some record of `recs` carries the hostname `h`.
pub open spec fn resolved_name(recs: Seq<DeviceRecord>, h: Seq<char>) -> bool {
    exists|k: int|
        0 <= k < recs.len() && recs[k].hostname is Some && recs[k].hostname->0@ == h
}

/// The entries of `input` that some record carries, in input order.
pub open spec fn matched_of(input: Seq<Seq<char>>, recs: Seq<DeviceRecord>) -> Seq<Seq<char>>
    decreases input.len(),
{
    if input.len() == 0 {
        Seq::empty()
    } else if resolved_name(recs, input.last()) {
        matched_of(input.drop_last(), recs).push(input.last())
    } else {
        matched_of(input.drop_last(), recs)
    }
}

/// The entries of `input` that no record carries, in input order.
pub open spec fn unmatched_of(input: Seq<Seq<char>>, recs: Seq<DeviceRecord>) -> Seq<Seq<char>>
    decreases input.len(),
{
    if input.len() == 0 {
        Seq::empty()
    } else if resolved_name(recs, input.last()) {
        unmatched_of(input.drop_last(), recs)
    } else {
        unmatched_of(input.drop_last(), recs).push(input.last())
    }
}

/// `r` is the reconciliation of `input` against `recs`.
pub open spec fn reconciled(input: Seq<String>, recs: Seq<DeviceRecord>, r: ReconciliationResult) -> bool {
    &&& seq_views(r.matched_hostnames@) == matched_of(seq_views(input), recs)
    &&& seq_views(r.unmatched_hostnames@) == unmatched_of(seq_views(input), recs)
    &&& r.matched_count == r.matched_hostnames.len()
    &&& r.total_count == input.len()
}

/// Every input entry lands in exactly one of the two lists.
pub proof fn lemma_partition_counts(input: Seq<Seq<char>>, recs: Seq<DeviceRecord>)
    ensures
        matched_of(input, recs).len() + unmatched_of(input, recs).len() == input.len(),
    decreases input.len(),
{
    if input.len() > 0 {
        lemma_partition_counts(input.drop_last(), recs);
    }
}

/// Both lists hold input entries only, and only matched ones are carried by
/// a record that has a hostname.
pub proof fn lemma_partition_members(input: Seq<Seq<char>>, recs: Seq<DeviceRecord>)
    ensures
        forall|h: Seq<char>| #[trigger]
            matched_of(input, recs).contains(h) ==> input.contains(h) && resolved_name(recs, h),
        forall|h: Seq<char>| #[trigger]
            unmatched_of(input, recs).contains(h) ==> input.contains(h) && !resolved_name(
                recs,
                h,
            ),
    decreases input.len(),
{
    if input.len() > 0 {
        let t = input.drop_last();
        lemma_partition_members(t, recs);
        assert forall|h: Seq<char>| t.contains(h) implies input.contains(h) by {
            let k = choose|k: int| 0 <= k < t.len() && t[k] == h;
            assert(input[k] == h);
        }
        let x = input.last();
        assert(input[input.len() - 1] == x);
        assert(input.contains(x));
        let mt = matched_of(t, recs);
        let ut = unmatched_of(t, recs);
        if resolved_name(recs, x) {
            assert(matched_of(input, recs) == mt.push(x));
            assert(unmatched_of(input, recs) == ut);
            assert forall|h: Seq<char>| #[trigger] mt.push(x).contains(h) implies mt.contains(h)
                || h == x by {
                let k = choose|k: int| 0 <= k < mt.len() + 1 && mt.push(x)[k] == h;
                if k < mt.len() {
                    assert(mt[k] == h);
                }
            }
        } else {
            assert(matched_of(input, recs) == mt);
            assert(unmatched_of(input, recs) == ut.push(x));
            assert forall|h: Seq<char>| #[trigger] ut.push(x).contains(h) implies ut.contains(h)
                || h == x by {
                let k = choose|k: int| 0 <= k < ut.len() + 1 && ut.push(x)[k] == h;
                if k < ut.len() {
                    assert(ut[k] == h);
                }
            }
        }
    }
}

/// A record without a hostname changes neither list.
pub proof fn lemma_nameless_record_ignored(
    input: Seq<Seq<char>>,
    recs: Seq<DeviceRecord>,
    rec: DeviceRecord,
)
    requires
        rec.hostname is None,
    ensures
        matched_of(input, recs.push(rec)) == matched_of(input, recs),
        unmatched_of(input, recs.push(rec)) == unmatched_of(input, recs),
    decreases input.len(),
{
    if input.len() > 0 {
        let x = input.last();
        let more = recs.push(rec);
        lemma_nameless_record_ignored(input.drop_last(), recs, rec);
        if resolved_name(more, x) {
            let k = choose|k: int|
                0 <= k < more.len() && more[k].hostname is Some && more[k].hostname->0@ == x;
            assert(k < recs.len());
            assert(more[k] == recs[k]);
        }
        if resolved_name(recs, x) {
            let k = choose|k: int|
                0 <= k < recs.len() && recs[k].hostname is Some && recs[k].hostname->0@ == x;
            assert(more[k] == recs[k]);
        }
    }
}

/// Whether some record of `recs` carries the hostname `h`.
pub fn is_resolved(recs: &Vec<DeviceRecord>, h: &String) -> (r: bool)
    ensures
        r == resolved_name(recs@, h@),
{
    let mut k: usize = 0;
    while k < recs.len()
        invariant
            k <= recs.len(),
            forall|m: int|
                0 <= m < k ==> !(recs@[m].hostname is Some && recs@[m].hostname->0@ == h@),
        decreases recs.len() - k,
    {
        match &recs[k].hostname {
            Some(name) => {
                if *name == *h {
                    return true;
                }
            },
            None => {},
        }
        k = k + 1;
    }
    false
}

/// Splits the input hostnames into those some resolved record carries and
/// those none does. Records without a hostname count toward neither.
pub fn reconcile(input: &Vec<String>, resolved: &Vec<DeviceRecord>) -> (r: ReconciliationResult)
    ensures
        reconciled(input@, resolved@, r),
        r.matched_count + r.unmatched_hostnames.len() == r.total_count,
{
    let ghost hs = seq_views(input@);
    let mut matched: Vec<String> = Vec::new();
    let mut unmatched: Vec<String> = Vec::new();
    let mut i: usize = 0;
    while i < input.len()
        invariant
            i <= input.len(),
            hs == seq_views(input@),
            seq_views(matched@) == matched_of(hs.take(i as int), resolved@),
            seq_views(unmatched@) == unmatched_of(hs.take(i as int), resolved@),
            matched.len() + unmatched.len() == i,
        decreases input.len() - i,
    {
        let ghost t = hs.take(i as int + 1);
        assert(t.drop_last() =~= hs.take(i as int));
        assert(t.last() == input@[i as int]@);
        if is_resolved(resolved, &input[i]) {
            matched.push(input[i].clone());
        } else {
            unmatched.push(input[i].clone());
        }
        assert(seq_views(matched@) =~= matched_of(t, resolved@));
        assert(seq_views(unmatched@) =~= unmatched_of(t, resolved@));
        i = i + 1;
    }
    assert(hs.take(input.len() as int) =~= hs);
    let matched_count = matched.len();
    ReconciliationResult {
        matched_count,
        total_count: input.len(),
        matched_hostnames: matched,
        unmatched_hostnames: unmatched,
    }
}

} // verus!
