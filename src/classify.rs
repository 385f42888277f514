//! Predicates that tell what kind of line a line of the journal is.

use vstd::prelude::*;

verus! {

/// `p` is a prefix of `s`.
pub open spec fn has_prefix(s: Seq<char>, p: Seq<char>) -> bool {
    p.len() <= s.len() && s.subrange(0, p.len() as int) == p
}

/// Whether `line` begins with `prefix`, compared character by character.
pub fn starts_with(line: &str, prefix: &str) -> (r: bool)
    ensures
        r == has_prefix(line@, prefix@),
{
    let n = line.unicode_len();
    let k = prefix.unicode_len();
    if k > n {
        return false;
    }
    let mut i: usize = 0;
    while i < k
        invariant
            k == prefix@.len(),
            n == line@.len(),
            k <= n,
            i <= k,
            forall|j: int| 0 <= j < i ==> line@[j] == prefix@[j],
        decreases k - i,
    {
        if line.get_char(i) != prefix.get_char(i) {
            assert(line@.subrange(0, k as int)[i as int] != prefix@[i as int]);
            return false;
        }
        i = i + 1;
    }
    assert(line@.subrange(0, k as int) =~= prefix@);
    true
}

/// Whether `line` is exactly `text`.
pub fn same_text(line: &str, text: &str) -> (r: bool)
    ensures
        r == (line@ == text@),
{
    let r = line.unicode_len() == text.unicode_len() && starts_with(line, text);
    assert(line@.subrange(0, line@.len() as int) =~= line@);
    r
}

/// A header line: it begins with the header marker `#`.
pub open spec fn header_line(l: Seq<char>) -> bool {
    l.len() > 0 && l[0] == '#'
}

/// An item entry: a line that begins with a dash and a space.
pub open spec fn item_line(l: Seq<char>) -> bool {
    has_prefix(l, "- "@)
}

pub open spec fn milestone_header(l: Seq<char>) -> bool {
    l == "# Milestones"@
}

pub open spec fn backlog_header(l: Seq<char>) -> bool {
    l == "# Backlog"@
}

pub open spec fn week_header(l: Seq<char>) -> bool {
    has_prefix(l, "# Weekly"@)
}

pub open spec fn day_header(l: Seq<char>) -> bool {
    has_prefix(l, "## Monday"@) || has_prefix(l, "## Tuesday"@) || has_prefix(l, "## Wednesday"@)
        || has_prefix(l, "## Thursday"@) || has_prefix(l, "## Friday"@) || has_prefix(
        l,
        "## Saturday"@,
    ) || has_prefix(l, "## Sunday"@)
}

/// Whether `line` begins with the header marker.
pub fn is_header(line: &str) -> (r: bool)
    ensures
        r == header_line(line@),
{
    line.unicode_len() > 0 && line.get_char(0) == '#'
}

pub fn is_item_entry(line: &str) -> (r: bool)
    ensures
        r == item_line(line@),
{
    starts_with(line, "- ")
}

pub fn is_milestone_header(line: &str) -> (r: bool)
    ensures
        r == milestone_header(line@),
{
    same_text(line, "# Milestones")
}

pub fn is_backlog_header(line: &str) -> (r: bool)
    ensures
        r == backlog_header(line@),
{
    same_text(line, "# Backlog")
}

pub fn is_week_header(line: &str) -> (r: bool)
    ensures
        r == week_header(line@),
{
    starts_with(line, "# Weekly")
}

/// A level-two header that names a day of the week; any text may follow the name.
pub fn is_day_header(line: &str) -> (r: bool)
    ensures
        r == day_header(line@),
{
    starts_with(line, "## Monday") || starts_with(line, "## Tuesday") || starts_with(
        line,
        "## Wednesday",
    ) || starts_with(line, "## Thursday") || starts_with(line, "## Friday") || starts_with(
        line,
        "## Saturday",
    ) || starts_with(line, "## Sunday")
}

} // verus!
