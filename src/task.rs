//! Task records and the task line grammar `- [Status] [Category] Title`.

use vstd::prelude::*;
use crate::date::Date;
use crate::error::JournalError;
use vstd::std_specs::iter::IteratorSpec;

verus! {

/// A task: a status and a category word, a free-form title, and its date.
#[derive(Debug, Clone)]
pub struct Task {
    pub status: String,
    pub category: String,
    pub title: String,
    pub date: Date,
}

/// What a task holds, as mathematical values.
pub struct TaskModel {
    pub status: Seq<char>,
    pub category: Seq<char>,
    pub title: Seq<char>,
    pub date: Date,
}

impl View for Task {
    type V = TaskModel;

    open spec fn view(&self) -> TaskModel {
        TaskModel {
            status: self.status@,
            category: self.category@,
            title: self.title@,
            date: self.date,
        }
    }
}

pub open spec fn is_letter(c: char) -> bool {
    ('A' <= c && c <= 'Z') || ('a' <= c && c <= 'z')
}

/// The end of the run of ASCII letters that starts at `i`.
pub open spec fn letters_end(s: Seq<char>, i: int) -> int
    decreases s.len() - i,
{
    if 0 <= i < s.len() && is_letter(s[i]) {
        letters_end(s, i + 1)
    } else {
        i
    }
}

/// The task pattern matches `s` starting at position `p`: a dash and a space, a
/// bracketed word of letters, a space, a second bracketed word of letters, a space,
/// and a nonempty title without a line feed up to the end.
pub open spec fn matches_at(s: Seq<char>, p: int) -> bool {
    let e1 = letters_end(s, p + 3);
    let e2 = letters_end(s, e1 + 3);
    &&& 0 <= p
    &&& p + 3 <= s.len()
    &&& s[p] == '-' && s[p + 1] == ' ' && s[p + 2] == '['
    &&& e1 > p + 3
    &&& e1 + 3 <= s.len()
    &&& s[e1] == ']' && s[e1 + 1] == ' ' && s[e1 + 2] == '['
    &&& e2 > e1 + 3
    &&& e2 + 2 < s.len()
    &&& s[e2] == ']' && s[e2 + 1] == ' '
    &&& forall|k: int| e2 + 2 <= k < s.len() ==> s[k] != '\n'
}

/// The leftmost position, from `p` on, where the task pattern matches.
pub open spec fn first_match_from(s: Seq<char>, p: int) -> Option<int>
    decreases s.len() - p,
{
    if p < 0 || p >= s.len() {
        None
    } else if matches_at(s, p) {
        Some(p)
    } else {
        first_match_from(s, p + 1)
    }
}

/// Status, category and title of a task line, taken from the leftmost match of the
/// task pattern; `None` when the line does not match.
pub open spec fn task_fields(s: Seq<char>) -> Option<(Seq<char>, Seq<char>, Seq<char>)> {
    match first_match_from(s, 0) {
        Some(p) => {
            let e1 = letters_end(s, p + 3);
            let e2 = letters_end(s, e1 + 3);
            Some((s.subrange(p + 3, e1), s.subrange(e1 + 3, e2), s.subrange(e2 + 2, s.len() as int)))
        },
        None => None,
    }
}

/// What decoding the line gives for the date `year`-`month`-`day`.
pub open spec fn decode_spec(s: Seq<char>, year: i32, month: u32, day: u32) -> Result<
    TaskModel,
    JournalError,
> {
    match task_fields(s) {
        None => Err(JournalError::MalformedTaskLine),
        Some(f) => if (Date { year, month, day }).valid() {
            Ok(TaskModel { status: f.0, category: f.1, title: f.2, date: Date { year, month, day } })
        } else {
            Err(JournalError::InvalidDate)
        },
    }
}

/// The characters of `s`, in order.
pub fn chars_of(s: &str) -> (r: Vec<char>)
    ensures
        r@ == s@,
{
    broadcast use vstd::string::group_string_axioms;

    let mut out: Vec<char> = Vec::new();
    let mut it = s.chars();
    loop
        invariant
            it.remaining() == s@.subrange(out@.len() as int, s@.len() as int),
            out@ == s@.subrange(0, out@.len() as int),
            out@.len() <= s@.len(),
        ensures
            out@ == s@,
        decreases s@.len() - out@.len(),
    {
        match it.next() {
            Some(c) => {
                out.push(c);
            },
            None => {
                assert(out@ =~= s@);
                break ;
            },
        }
    }
    out
}

pub proof fn lemma_letters_end_bounds(s: Seq<char>, i: int)
    requires
        0 <= i,
    ensures
        i <= letters_end(s, i),
        i <= s.len() ==> letters_end(s, i) <= s.len(),
        forall|k: int| i <= k < letters_end(s, i) ==> is_letter(#[trigger] s[k]),
        letters_end(s, i) < s.len() ==> !is_letter(s[letters_end(s, i)]),
    decreases s.len() - i,
{
    if 0 <= i < s.len() && is_letter(s[i]) {
        lemma_letters_end_bounds(s, i + 1);
    }
}

fn scan_letters(cs: &Vec<char>, i: usize) -> (r: usize)
    requires
        i <= cs@.len(),
    ensures
        r == letters_end(cs@, i as int),
        i <= r <= cs@.len(),
{
    let mut j = i;
    while j < cs.len() && (('A' <= cs[j] && cs[j] <= 'Z') || ('a' <= cs[j] && cs[j] <= 'z'))
        invariant
            i <= j <= cs@.len(),
            letters_end(cs@, j as int) == letters_end(cs@, i as int),
        decreases cs@.len() - j,
    {
        j = j + 1;
    }
    j
}

fn pattern_at(cs: &Vec<char>, p: usize) -> (r: Option<(usize, usize)>)
    requires
        p < cs@.len(),
    ensures
        r is Some <==> matches_at(cs@, p as int),
        r matches Some(e) ==> e.0 == letters_end(cs@, p + 3) && e.1 == letters_end(
            cs@,
            letters_end(cs@, p + 3) + 3,
        ),
{
    let n = cs.len();
    if n - p < 3 || cs[p] != '-' || cs[p + 1] != ' ' || cs[p + 2] != '[' {
        return None;
    }
    let e1 = scan_letters(cs, p + 3);
    if e1 == p + 3 || n - e1 < 3 || cs[e1] != ']' || cs[e1 + 1] != ' ' || cs[e1 + 2] != '[' {
        return None;
    }
    let e2 = scan_letters(cs, e1 + 3);
    if e2 == e1 + 3 || n - e2 < 3 || cs[e2] != ']' || cs[e2 + 1] != ' ' {
        return None;
    }
    let mut k = e2 + 2;
    while k < n
        invariant
            e2 + 2 <= k <= n,
            n == cs@.len(),
            e1 == letters_end(cs@, p + 3),
            e2 == letters_end(cs@, e1 + 3),
            forall|j: int| e2 + 2 <= j < k ==> cs@[j] != '\n',
        decreases n - k,
    {
        if cs[k] == '\n' {
            assert(!matches_at(cs@, p as int)) by {
                if matches_at(cs@, p as int) {
                    assert(cs@[k as int] != '\n');
                }
            }
            return None;
        }
        k = k + 1;
    }
    Some((e1, e2))
}

/// Decodes a task line: `- [Status] [Category] Title`, with letters only in status and
/// category. The date is the one given, not read from the line.
pub fn decode_task(line: &str, year: i32, month: u32, day: u32) -> (r: Result<Task, JournalError>)
    ensures
        match r {
            Ok(t) => decode_spec(line@, year, month, day) == Ok::<TaskModel, JournalError>(t@),
            Err(e) => decode_spec(line@, year, month, day) == Err::<TaskModel, JournalError>(e),
        },
{
    let cs = chars_of(line);
    let n = cs.len();
    let mut p: usize = 0;
    let mut found: Option<(usize, usize)> = None;
    while p < n
        invariant
            n == cs@.len(),
            cs@ == line@,
            p <= n,
            found is None ==> first_match_from(line@, 0) == first_match_from(line@, p as int),
            found matches Some(e) ==> p < n && first_match_from(line@, 0) == Some(p as int)
                && matches_at(line@, p as int)
                && e.0 == letters_end(line@, p + 3) && e.1 == letters_end(
                line@,
                letters_end(line@, p + 3) + 3,
            ),
        ensures
            found is None ==> first_match_from(line@, 0) is None,
            found matches Some(e) ==> p < n && first_match_from(line@, 0) == Some(p as int)
                && matches_at(line@, p as int) && e.0 == letters_end(line@, p + 3) && e.1
                == letters_end(line@, letters_end(line@, p + 3) + 3),
        decreases n - p + (if found is None { 1int } else { 0int }),
    {
        found = pattern_at(&cs, p);
        if found.is_some() {
            break ;
        }
        assert(first_match_from(line@, p as int) == first_match_from(line@, p + 1));
        p = p + 1;
    }
    match found {
        None => Err(JournalError::MalformedTaskLine),
        Some((e1, e2)) => {
            let date = Date::new(year, month, day);
            if !date.is_valid() {
                return Err(JournalError::InvalidDate);
            }
            proof {
                lemma_letters_end_bounds(line@, p + 3);
                lemma_letters_end_bounds(line@, e1 + 3);
            }
            let status = line.substring_char(p + 3, e1).to_owned();
            let category = line.substring_char(e1 + 3, e2).to_owned();
            let title = line.substring_char(e2 + 2, n).to_owned();
            Ok(Task { status, category, title, date })
        },
    }
}

} // verus!
