//! The set of denied domains, held in an approximate membership filter: every
//! inserted name is found, and a rare other name may be found too.
use vstd::prelude::*;

verus! {

#[verifier::external_type_specification]
#[verifier::external_body]
#[verifier::reject_recursive_types(B)]
#[verifier::reject_recursive_types(S)]
pub struct ExFilter<B, S>(qfilter::Filter<B, S>);

#[verifier::external_type_specification]
#[verifier::external_body]
pub struct ExStableBuildHasher(qfilter::StableBuildHasher);

#[verifier::external_type_specification]
#[verifier::external_body]
pub struct ExFilterError(qfilter::Error);

/// The strings that `contains` reports present in a filter: every string
/// inserted into it, and the rare false positives.
pub uninterp spec fn filter_reports(f: qfilter::Filter) -> Set<Seq<char>>;

/// The number of items a filter holds (`Filter::len`).
pub uninterp spec fn filter_len(f: qfilter::Filter) -> nat;

/// The number of items a filter takes before it is full (`Filter::capacity`).
pub uninterp spec fn filter_capacity(f: qfilter::Filter) -> nat;

/// Relies on qfilter::Filter::contains, whose answer depends only on the
/// filter's contents and the string's hash.
#[verifier::external_body]
fn filter_contains(f: &qfilter::Filter, s: &str) -> (r: bool)
    ensures
        r == filter_reports(*f).contains(s@),
{
    f.contains(s)
}

/// Relies on qfilter::Filter::insert: it fails only when the filter holds as
/// many items as its capacity; after a success the string is reported present;
/// success or not, no string reported present before stops being so (a failed
/// insert leaves the fingerprints as they were), the count grows by at most
/// one, and the capacity does not shrink.
#[verifier::external_body]
fn filter_insert(f: &mut qfilter::Filter, s: &str) -> (r: Result<bool, qfilter::Error>)
    ensures
        filter_len(*old(f)) < filter_capacity(*old(f)) ==> r is Ok,
        r is Ok ==> filter_reports(*final(f)).contains(s@),
        filter_reports(*old(f)).subset_of(filter_reports(*final(f))),
        filter_len(*final(f)) <= filter_len(*old(f)) + 1,
        filter_capacity(*final(f)) >= filter_capacity(*old(f)),
{
    f.insert(s)
}

/// Building the set failed: the filter ran out of room.
#[derive(Debug, Clone, Copy, PartialEq, Eq, Structural)]
pub enum FilterBuildError {
    CapacityExceeded,
}

/// The denied domains. Built once, then only read.
pub struct DomainSet {
    set: qfilter::Filter,
    entries: Ghost<Set<Seq<char>>>,
}

impl DomainSet {
    /// The names inserted so far.
    pub closed spec fn entries(&self) -> Set<Seq<char>> {
        self.entries@
    }

    /// The names that `contains` reports present.
    pub closed spec fn reported(&self) -> Set<Seq<char>> {
        filter_reports(self.set)
    }

    /// The number of items the filter holds.
    pub closed spec fn count(&self) -> nat {
        filter_len(self.set)
    }

    /// The number of items the filter takes before it is full.
    pub closed spec fn capacity(&self) -> nat {
        filter_capacity(self.set)
    }

    /// The filter has room for one more item.
    pub open spec fn has_room(&self) -> bool {
        self.count() < self.capacity()
    }

    /// Every inserted name is reported present.
    pub open spec fn wf(&self) -> bool {
        self.entries().subset_of(self.reported())
    }

    /// A set with no entries yet, held in `set` (an empty filter sized for
    /// the entries to come).
    pub fn new(set: qfilter::Filter) -> (r: Self)
        ensures
            r.wf(),
            r.entries() == Set::<Seq<char>>::empty(),
            r.reported() == filter_reports(set),
            r.count() == filter_len(set),
            r.capacity() == filter_capacity(set),
    {
        DomainSet { set, entries: Ghost(Set::empty()) }
    }

    /// Adds `s`. Succeeds whenever the filter has room; on failure the entries
    /// are as they were.
    pub fn insert(&mut self, s: &str) -> (r: Result<(), FilterBuildError>)
        requires
            old(self).wf(),
        ensures
            final(self).wf(),
            r is Ok ==> final(self).entries() == old(self).entries().insert(s@),
            r is Err ==> final(self).entries() == old(self).entries(),
            old(self).has_room() ==> r is Ok,
            old(self).reported().subset_of(final(self).reported()),
            final(self).count() <= old(self).count() + 1,
            final(self).capacity() >= old(self).capacity(),
    {
        match filter_insert(&mut self.set, s) {
            Ok(_) => {
                self.entries = Ghost(self.entries@.insert(s@));
                Ok(())
            },
            Err(_) => Err(FilterBuildError::CapacityExceeded),
        }
    }

    /// Whether `s` is reported present: true for every inserted name.
    pub fn contains(&self, s: &str) -> (r: bool)
        ensures
            r == self.reported().contains(s@),
            self.wf() && self.entries().contains(s@) ==> r,
    {
        filter_contains(&self.set, s)
    }
}

/// The names of `entries`.
pub open spec fn entry_names(entries: Seq<String>) -> Set<Seq<char>> {
    Set::new(|s: Seq<char>| exists|i: int| 0 <= i < entries.len() && #[trigger] entries[i]@ == s)
}

/// Inserts each of `entries`, in order, into `set` (an empty filter sized for
/// them). Succeeds whenever the filter has room for all of them.
pub fn build(set: qfilter::Filter, entries: &Vec<String>) -> (r: Result<
    DomainSet,
    FilterBuildError,
>)
    ensures
        filter_len(set) + entries@.len() <= filter_capacity(set) ==> r is Ok,
        r matches Ok(ds) ==> ds.wf() && ds.entries() == entry_names(entries@),
        r matches Ok(ds) ==> forall|i: int|
            0 <= i < entries@.len() ==> ds.reported().contains(#[trigger] entries@[i]@),
{
    let ghost sized = filter_len(set) + entries@.len() <= filter_capacity(set);
    let mut ds = DomainSet::new(set);
    let mut i: usize = 0;
    while i < entries.len()
        invariant
            i <= entries@.len(),
            ds.wf(),
            ds.entries() == entry_names(entries@.subrange(0, i as int)),
            sized == (filter_len(set) + entries@.len() <= filter_capacity(set)),
            sized ==> ds.count() + (entries@.len() - i) <= ds.capacity(),
        decreases entries@.len() - i,
    {
        let r = ds.insert(entries[i].as_str());
        if r.is_err() {
            return Err(FilterBuildError::CapacityExceeded);
        }
        proof {
            let prev = entries@.subrange(0, i as int);
            let next = entries@.subrange(0, i + 1);
            assert forall|s: Seq<char>| entry_names(next).contains(s) <==> entry_names(prev).insert(
                entries@[i as int]@,
            ).contains(s) by {
                if entry_names(next).contains(s) {
                    let k = choose|k: int| 0 <= k < next.len() && #[trigger] next[k]@ == s;
                    if k < i {
                        assert(prev[k]@ == s);
                    }
                }
                if entry_names(prev).contains(s) {
                    let k = choose|k: int| 0 <= k < prev.len() && #[trigger] prev[k]@ == s;
                    assert(next[k]@ == s);
                }
                if s == entries@[i as int]@ {
                    assert(next[i as int]@ == s);
                }
            }
            assert(entry_names(next) =~= entry_names(prev).insert(entries@[i as int]@));
        }
        i = i + 1;
    }
    assert(entries@.subrange(0, i as int) =~= entries@);
    assert forall|k: int| 0 <= k < entries@.len() implies ds.reported().contains(
        #[trigger] entries@[k]@,
    ) by {
        assert(entry_names(entries@).contains(entries@[k]@));
    }
    Ok(ds)
}

/// No false negatives: every name inserted into a well-formed set is reported
/// present by `contains`.
pub proof fn lemma_no_false_negatives(ds: &DomainSet, s: Seq<char>)
    requires
        ds.wf(),
        ds.entries().contains(s),
    ensures
        ds.reported().contains(s),
{
}

} // verus!

