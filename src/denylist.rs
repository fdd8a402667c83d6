//! Denylist text: each line, with its comment cut off, trimmed and lowercased,
//! gives one entry unless nothing is left of it.
use vstd::prelude::*;

verus! {

/// What `str::trim` leaves of a text.
pub uninterp spec fn trimmed(s: Seq<char>) -> Seq<char>;

/// What `str::to_lowercase` makes of a text.
pub uninterp spec fn lowercased(s: Seq<char>) -> Seq<char>;

/// Relies on str::trim, which removes leading and trailing white space; the
/// result depends on the text alone.
#[verifier::external_body]
fn trim_text(s: &str) -> (r: &str)
    ensures
        r@ == trimmed(s@),
{
    s.trim()
}

/// Relies on str::to_lowercase, whose result depends on the text alone.
#[verifier::external_body]
fn lowercase_text(s: &str) -> (r: String)
    ensures
        r@ == lowercased(s@),
{
    s.to_lowercase()
}

/// The part of `line` before its first `#`, or all of it when it has none.
pub open spec fn before_comment(line: Seq<char>) -> Seq<char> {
    if exists|i: int| 0 <= i < line.len() && line[i] == '#' {
        let k = choose|k: int|
            0 <= k < line.len() && line[k] == '#' && forall|j: int| 0 <= j < k ==> line[j] != '#';
        line.subrange(0, k)
    } else {
        line
    }
}

/// The entry that a denylist line gives, if any.
pub open spec fn line_entry(line: Seq<char>) -> Option<Seq<char>> {
    let e = lowercased(trimmed(before_comment(line)));
    if e.len() == 0 {
        None
    } else {
        Some(e)
    }
}

/// The entries that `lines` give, in order.
pub open spec fn entries_of(lines: Seq<Seq<char>>) -> Seq<Seq<char>>
    decreases lines.len(),
{
    if lines.len() == 0 {
        Seq::empty()
    } else {
        match line_entry(lines.last()) {
            Some(e) => entries_of(lines.drop_last()).push(e),
            None => entries_of(lines.drop_last()),
        }
    }
}

/// Cuts `line` at its first `#`.
pub fn strip_comment(line: &str) -> (r: &str)
    ensures
        r@ == before_comment(line@),
{
    let n = line.unicode_len();
    let mut i: usize = 0;
    while i < n
        invariant
            n == line@.len(),
            i <= n,
            forall|j: int| 0 <= j < i ==> line@[j] != '#',
        decreases n - i,
    {
        if line.get_char(i) == '#' {
            let ghost k = choose|k: int|
                0 <= k < line@.len() && line@[k] == '#' && forall|j: int|
                    0 <= j < k ==> line@[j] != '#';
            assert(k == i) by {
                if k < i {
                    assert(line@[k] != '#');
                } else if k > i {
                    assert(line@[i as int] != '#');
                }
            }
            return line.substring_char(0, i);
        }
        i = i + 1;
    }
    assert(line@.subrange(0, n as int) =~= line@);
    line.substring_char(0, n)
}

/// The entry that a denylist line gives: its text before any `#`, trimmed
/// and lowercased, unless that is empty.
pub fn normalize_line(line: &str) -> (r: Option<String>)
    ensures
        r matches Some(e) ==> line_entry(line@) == Some(e@),
        r is None ==> line_entry(line@) is None,
{
    entry_from_text(lowercase_text(trim_text(strip_comment(line))))
}

/// The entry that already trimmed and lowercased `text` gives: `text`
/// itself, unless it is empty.
pub fn entry_from_text(text: String) -> (r: Option<String>)
    ensures
        r matches Some(e) ==> e@ == text@ && text@.len() > 0,
        r is None <==> text@.len() == 0,
{
    if text.as_str().unicode_len() == 0 {
        None
    } else {
        Some(text)
    }
}

/// The entries of the denylist `lines`, in order.
pub fn denylist_entries(lines: &Vec<String>) -> (r: Vec<String>)
    ensures
        r@.map_values(|e: String| e@) == entries_of(lines@.map_values(|l: String| l@)),
{
    let mut entries: Vec<String> = Vec::new();
    let mut i: usize = 0;
    while i < lines.len()
        invariant
            i <= lines@.len(),
            entries@.map_values(|e: String| e@) == entries_of(
                lines@.subrange(0, i as int).map_values(|l: String| l@),
            ),
        decreases lines@.len() - i,
    {
        let entry = normalize_line(lines[i].as_str());
        proof {
            let prev = lines@.subrange(0, i as int).map_values(|l: String| l@);
            let next = lines@.subrange(0, i + 1).map_values(|l: String| l@);
            assert(next.drop_last() =~= prev);
            assert(next.last() == lines@[i as int]@);
        }
        match entry {
            Some(e) => {
                entries.push(e);
                assert(entries@.map_values(|e: String| e@) =~= entries_of(
                    lines@.subrange(0, i as int).map_values(|l: String| l@),
                ).push(e@));
            },
            None => {},
        }
        i = i + 1;
    }
    assert(lines@.subrange(0, i as int) =~= lines@);
    entries
}

} // verus!
