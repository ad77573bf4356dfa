//! The revisions known for each date: a map from date strings to sets of
//! revision numbers, kept in integer-keyed buckets.

use vstd::prelude::*;
use std::collections::hash_map::DefaultHasher;
use std::collections::{HashMap, HashSet};
use std::hash::Hasher;
use vstd::std_specs::hash::DefaultHasherAdditionalSpecFns;
use vstd::utf8::encode_utf8;
use crate::text::same_text;

verus! {

/// The bucket of a date: the hash of its UTF-8 bytes.
pub open spec fn date_hash(date: Seq<char>) -> u64 {
    <DefaultHasher as DefaultHasherAdditionalSpecFns>::spec_finish(
        Seq::<Seq<u8>>::empty().push(encode_utf8(date)),
    )
}

fn date_key(date: &str) -> (k: u64)
    ensures
        k == date_hash(date@),
{
    let mut h = DefaultHasher::new();
    h.write(date.as_bytes());
    h.finish()
}

/// The revisions of one date.
pub struct DateEntry {
    date: String,
    revs: HashSet<u64>,
}

/// The revision numbers known for each date.
pub struct DateRevisions {
    buckets: HashMap<u64, Vec<DateEntry>>,
    model: Ghost<Map<Seq<char>, Set<u64>>>,
}

/// The set of revisions that `m` holds for `date`, empty when it holds none.
pub open spec fn revs_of(m: Map<Seq<char>, Set<u64>>, date: Seq<char>) -> Set<u64> {
    if m.contains_key(date) {
        m[date]
    } else {
        Set::empty()
    }
}

/// Each entry of bucket `b` belongs in bucket `h`, agrees with `m`, and
/// holds a date that no other entry of the bucket holds.
spec fn bucket_ok(b: Seq<DateEntry>, h: u64, m: Map<Seq<char>, Set<u64>>) -> bool {
    &&& forall|i: int|
        0 <= i < b.len() ==> {
            &&& date_hash(#[trigger] b[i].date@) == h
            &&& m.contains_key(b[i].date@)
            &&& m[b[i].date@] == b[i].revs@
        }
    &&& forall|i: int, j: int| 0 <= i < j < b.len() ==> #[trigger] b[i].date@ != #[trigger] b[j].date@
}

/// Bucket `b` holds `date` with the revisions `revs`.
spec fn bucket_has(b: Seq<DateEntry>, date: Seq<char>, revs: Set<u64>) -> bool {
    exists|i: int| 0 <= i < b.len() && #[trigger] b[i].date@ == date && b[i].revs@ == revs
}

impl View for DateRevisions {
    type V = Map<Seq<char>, Set<u64>>;

    closed spec fn view(&self) -> Map<Seq<char>, Set<u64>> {
        self.model@
    }
}

/// Finds the entry of `date` in `bucket`.
fn find_entry(bucket: &Vec<DateEntry>, date: &str) -> (r: usize)
    ensures
        r <= bucket@.len(),
        r < bucket@.len() ==> bucket@[r as int].date@ == date@,
        r == bucket@.len() ==> forall|i: int| 0 <= i < bucket@.len() ==> bucket@[i].date@ != date@,
{
    let mut i: usize = 0;
    while i < bucket.len()
        invariant
            i <= bucket@.len(),
            forall|j: int| 0 <= j < i ==> bucket@[j].date@ != date@,
        decreases bucket@.len() - i,
    {
        if same_text(bucket[i].date.as_str(), date) {
            return i;
        }
        i = i + 1;
    }
    i
}

impl DateRevisions {
    /// The buckets agree with the map of dates.
    pub closed spec fn wf(&self) -> bool {
        &&& forall|d: Seq<char>| #[trigger]
            self.model@.contains_key(d) ==> {
                &&& self.buckets@.contains_key(date_hash(d))
                &&& bucket_has(self.buckets@[date_hash(d)]@, d, self.model@[d])
            }
        &&& forall|h: u64| #[trigger]
            self.buckets@.contains_key(h) ==> bucket_ok(self.buckets@[h]@, h, self.model@)
    }

    /// No dates and no revisions.
    pub fn new() -> (r: Self)
        ensures
            r.wf(),
            r@ == Map::<Seq<char>, Set<u64>>::empty(),
    {
        DateRevisions { buckets: HashMap::new(), model: Ghost(Map::empty()) }
    }

    /// Records revision `rev` for `date`.
    pub fn add(&mut self, date: &str, rev: u64)
        requires
            old(self).wf(),
        ensures
            final(self).wf(),
            final(self)@ == old(self)@.insert(date@, revs_of(old(self)@, date@).insert(rev)),
    {
        let h = date_key(date);
        let ghost m0 = self.model@;
        let ghost new_revs = revs_of(m0, date@).insert(rev);
        let ghost m1 = m0.insert(date@, new_revs);
        let mut bucket = match self.buckets.remove(&h) {
            Some(b) => b,
            None => Vec::new(),
        };
        let ghost b0 = bucket@;
        assert(bucket_ok(b0, h, m0)) by {
            if b0.len() > 0 {
                assert(old(self).buckets@.contains_key(h));
            }
        }
        let i = find_entry(&bucket, date);
        if i < bucket.len() {
            let mut e = bucket.remove(i);
            e.revs.insert(rev);
            bucket.insert(i, e);
        } else {
            let mut revs = HashSet::new();
            revs.insert(rev);
            bucket.push(DateEntry { date: date.to_owned(), revs });
        }
        proof {
            let b1 = bucket@;
            assert(m0.contains_key(date@) ==> i < b0.len()) by {
                if m0.contains_key(date@) {
                    let k = choose|k: int| 0 <= k < b0.len() && #[trigger] b0[k].date@ == date@ && b0[k].revs@ == m0[date@];
                    assert(b0[k].date@ == date@);
                }
            }
            assert(b1.len() == (if i < b0.len() { b0.len() } else { b0.len() + 1 }));
            assert forall|j: int| 0 <= j < b1.len() && j != i implies b1[j] == b0[j] by {}
            assert(b1[i as int].date@ == date@);
            assert(b1[i as int].revs@ == new_revs);
            assert(bucket_ok(b1, h, m1));
            assert(bucket_has(b1, date@, new_revs));
        }
        self.buckets.insert(h, bucket);
        self.model = Ghost(m1);
        proof {
            assert forall|d: Seq<char>| #[trigger] self.model@.contains_key(d) implies {
                &&& self.buckets@.contains_key(date_hash(d))
                &&& bucket_has(self.buckets@[date_hash(d)]@, d, self.model@[d])
            } by {
                if d != date@ {
                    assert(m0.contains_key(d));
                    let hd = date_hash(d);
                    assert(old(self).buckets@.contains_key(hd));
                    let ob = old(self).buckets@[hd]@;
                    let k = choose|k: int| 0 <= k < ob.len() && #[trigger] ob[k].date@ == d && ob[k].revs@ == m0[d];
                    if hd == h {
                        assert(ob == b0);
                        let b1 = self.buckets@[h]@;
                        assert(b1[k].date@ == d);
                    }
                }
            }
            assert forall|hh: u64| #[trigger] self.buckets@.contains_key(hh) implies bucket_ok(self.buckets@[hh]@, hh, self.model@) by {
                if hh != h {
                    let ob = old(self).buckets@[hh]@;
                    assert(bucket_ok(ob, hh, m0));
                    assert forall|j: int| 0 <= j < ob.len() implies m1.contains_key(#[trigger] ob[j].date@) && m1[ob[j].date@] == ob[j].revs@ by {
                        assert(date_hash(ob[j].date@) == hh);
                    }
                }
            }
        }
    }

    /// Whether any revision is known for `date`.
    pub fn has_date(&self, date: &str) -> (r: bool)
        requires
            self.wf(),
        ensures
            r == self@.contains_key(date@),
    {
        match self.lookup(date, 0) {
            Some(_) => true,
            None => false,
        }
    }

    /// Whether `rev` is a revision of `date`; `None` when the date is unknown.
    pub fn lookup(&self, date: &str, rev: u64) -> (r: Option<bool>)
        requires
            self.wf(),
        ensures
            r == (if self@.contains_key(date@) {
                Some(self@[date@].contains(rev))
            } else {
                None::<bool>
            }),
    {
        let h = date_key(date);
        match self.buckets.get(&h) {
            None => {
                assert(!self@.contains_key(date@));
                None
            },
            Some(bucket) => {
                let i = find_entry(bucket, date);
                assert(bucket_ok(bucket@, h, self@));
                if i < bucket.len() {
                    Some(bucket[i].revs.contains(&rev))
                } else {
                    proof {
                        if self@.contains_key(date@) {
                            let k = choose|k: int| 0 <= k < bucket@.len() && #[trigger] bucket@[k].date@ == date@ && bucket@[k].revs@ == self@[date@];
                            assert(bucket@[k].date@ == date@);
                        }
                    }
                    None
                }
            },
        }
    }
}


/// A revision recorded for a date is known for that date, and the revisions
/// of every other date stay as they were.
pub proof fn law_added_revision_is_known(
    m: Map<Seq<char>, Set<u64>>,
    date: Seq<char>,
    rev: u64,
    other: Seq<char>,
)
    requires
        other != date,
    ensures
        revs_of(m.insert(date, revs_of(m, date).insert(rev)), date).contains(rev),
        revs_of(m.insert(date, revs_of(m, date).insert(rev)), other) == revs_of(m, other),
{
}

} // verus!
