//! Suffix matching: a domain is blocked when it, or any domain it lies
//! under, is reported present in the denied set.
use vstd::prelude::*;
use crate::filter::DomainSet;

verus! {

/// Position `i` of `d` starts a label: it is the start of `d` or follows a dot.
pub open spec fn is_label_start(d: Seq<char>, i: int) -> bool {
    0 <= i <= d.len() && (i == 0 || d[i - 1] == '.')
}

/// The suffix of `d` from position `i`.
pub open spec fn suffix_from(d: Seq<char>, i: int) -> Seq<char> {
    d.subrange(i, d.len() as int)
}

/// `d` is non-empty and one of its label suffixes (`d` itself, its parent,
/// ..., its top-level label) is in `listed`.
pub open spec fn blocked_by(d: Seq<char>, listed: Set<Seq<char>>) -> bool {
    d.len() > 0 && exists|i: int| is_label_start(d, i) && #[trigger] listed.contains(suffix_from(d, i))
}

/// Whether `domain` or one of its parent domains is reported present in
/// `denylist`. The suffixes are tried from the top-level label down to the
/// whole name.
pub fn in_denylist(domain: &str, denylist: &DomainSet) -> (r: bool)
    ensures
        r == blocked_by(domain@, denylist.reported()),
{
    let n = domain.unicode_len();
    if n == 0 {
        return false;
    }
    let mut i: usize = n;
    loop
        invariant
            n == domain@.len(),
            n > 0,
            i <= n,
            forall|j: int|
                i < j <= n && is_label_start(domain@, j) ==> !denylist.reported().contains(
                    #[trigger] suffix_from(domain@, j),
                ),
        decreases i,
    {
        if i == 0 || domain.get_char(i - 1) == '.' {
            let suffix = domain.substring_char(i, n);
            if denylist.contains(suffix) {
                assert(is_label_start(domain@, i as int));
                assert(denylist.reported().contains(suffix_from(domain@, i as int)));
                return true;
            }
        }
        if i == 0 {
            return false;
        }
        i = i - 1;
    }
}

/// A domain is blocked when it, or a domain it lies under, was inserted into
/// the denied set.
pub proof fn lemma_listed_suffix_blocks(ds: &DomainSet, d: Seq<char>, i: int)
    requires
        ds.wf(),
        d.len() > 0,
        is_label_start(d, i),
        ds.entries().contains(suffix_from(d, i)),
    ensures
        blocked_by(d, ds.reported()),
{
}

/// A domain none of whose suffixes was inserted is blocked only through a
/// false positive of the filter: a suffix reported present that was never
/// inserted.
pub proof fn lemma_unlisted_blocked_only_by_false_positive(ds: &DomainSet, d: Seq<char>)
    requires
        ds.wf(),
        forall|i: int| is_label_start(d, i) ==> !ds.entries().contains(#[trigger] suffix_from(d, i)),
        blocked_by(d, ds.reported()),
    ensures
        exists|i: int|
            is_label_start(d, i) && ds.reported().contains(#[trigger] suffix_from(d, i))
                && !ds.entries().contains(suffix_from(d, i)),
{
    let i = choose|i: int| is_label_start(d, i) && #[trigger] ds.reported().contains(suffix_from(d, i));
    assert(!ds.entries().contains(suffix_from(d, i)));
}

} // verus!
