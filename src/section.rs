//! Reading one section: its header says what kind it is, its item entries say
//! what it holds.

use vstd::prelude::*;
use crate::classify::{
    backlog_header, day_header, is_backlog_header, is_day_header, is_item_entry,
    is_milestone_header, is_week_header, item_line, milestone_header, week_header,
};
use crate::date::Date;
use crate::error::JournalError;
use crate::segment::texts;
use crate::task::{decode_spec, decode_task, Task, TaskModel};

verus! {

/// What one section holds.
pub enum FileSection {
    Milestones(Vec<String>),
    Backlog(Vec<Task>),
    Week(Vec<Task>),
    Day(Date, Vec<Task>),
    Unrecognized,
}

pub enum SectionModel {
    Milestones(Seq<Seq<char>>),
    Backlog(Seq<TaskModel>),
    Week(Seq<TaskModel>),
    Day(Date, Seq<TaskModel>),
    Unrecognized,
}

pub open spec fn string_views(v: Seq<String>) -> Seq<Seq<char>> {
    v.map_values(|s: String| s@)
}

pub open spec fn task_views(v: Seq<Task>) -> Seq<TaskModel> {
    v.map_values(|t: Task| t@)
}

impl View for FileSection {
    type V = SectionModel;

    open spec fn view(&self) -> SectionModel {
        match self {
            FileSection::Milestones(v) => SectionModel::Milestones(string_views(v@)),
            FileSection::Backlog(v) => SectionModel::Backlog(task_views(v@)),
            FileSection::Week(v) => SectionModel::Week(task_views(v@)),
            FileSection::Day(d, v) => SectionModel::Day(*d, task_views(v@)),
            FileSection::Unrecognized => SectionModel::Unrecognized,
        }
    }
}

/// The item entries among lines `b` up to `i`, verbatim.
pub open spec fn items_upto(ls: Seq<Seq<char>>, b: int, i: int) -> Seq<Seq<char>>
    decreases i - b,
{
    if i <= b {
        Seq::empty()
    } else if item_line(ls[i - 1]) {
        items_upto(ls, b, i - 1).push(ls[i - 1])
    } else {
        items_upto(ls, b, i - 1)
    }
}

/// The item entries among lines `b` up to `i`, each decoded as a task on the given
/// date; the first that fails to decode gives the error.
pub open spec fn tasks_upto(ls: Seq<Seq<char>>, b: int, i: int, year: i32, month: u32, day: u32) -> Result<
    Seq<TaskModel>,
    JournalError,
>
    decreases i - b,
{
    if i <= b {
        Ok(Seq::empty())
    } else {
        match tasks_upto(ls, b, i - 1, year, month, day) {
            Err(e) => Err(e),
            Ok(ts) => if item_line(ls[i - 1]) {
                match decode_spec(ls[i - 1], year, month, day) {
                    Ok(t) => Ok(ts.push(t)),
                    Err(e) => Err(e),
                }
            } else {
                Ok(ts)
            },
        }
    }
}

pub open spec fn is_digit(c: char) -> bool {
    '0' <= c && c <= '9'
}

pub open spec fn digit_value(c: char) -> u32 {
    (c as u32 - '0' as u32) as u32
}

/// White space as `char::is_whitespace` has it.
pub open spec fn is_white(c: char) -> bool {
    c == ' ' || ('\t' <= c && c <= '\r') || c == '\u{85}' || c == '\u{a0}' || c == '\u{1680}' || (
    '\u{2000}' <= c && c <= '\u{200a}') || c == '\u{2028}' || c == '\u{2029}' || c == '\u{202f}'
        || c == '\u{205f}' || c == '\u{3000}'
}

/// The day of the month at the end of a day header: its last two characters, with
/// white space trimmed, read as an unsigned decimal number (a leading `+` allowed).
pub open spec fn day_number(h: Seq<char>) -> Option<u32> {
    if h.len() < 2 {
        None
    } else {
        let a = h[h.len() - 2];
        let b = h[h.len() - 1];
        if is_digit(a) && is_digit(b) {
            Some((10 * digit_value(a) + digit_value(b)) as u32)
        } else if (a == '+' || is_white(a)) && is_digit(b) {
            Some(digit_value(b))
        } else if is_digit(a) && is_white(b) {
            Some(digit_value(a))
        } else {
            None
        }
    }
}

/// What the section of lines `b` up to `e` holds, or why it cannot be read.
pub open spec fn section_spec(ls: Seq<Seq<char>>, b: int, e: int, year: i32, month: u32) -> Result<
    SectionModel,
    JournalError,
> {
    let h = ls[b];
    if milestone_header(h) {
        Ok(SectionModel::Milestones(items_upto(ls, b, e)))
    } else if backlog_header(h) {
        match tasks_upto(ls, b, e, year, month, 1) {
            Ok(ts) => Ok(SectionModel::Backlog(ts)),
            Err(x) => Err(x),
        }
    } else if week_header(h) {
        match tasks_upto(ls, b, e, year, month, 1) {
            Ok(ts) => Ok(SectionModel::Week(ts)),
            Err(x) => Err(x),
        }
    } else if day_header(h) {
        match day_number(h) {
            None => Err(JournalError::InvalidDayHeader),
            Some(d) => if !(Date { year, month, day: d }).valid() {
                Err(JournalError::InvalidDayHeader)
            } else {
                match tasks_upto(ls, b, e, year, month, d) {
                    Ok(ts) => Ok(SectionModel::Day(Date { year, month, day: d }, ts)),
                    Err(x) => Err(x),
                }
            },
        }
    } else {
        Ok(SectionModel::Unrecognized)
    }
}

proof fn lemma_tasks_error_stays(
    ls: Seq<Seq<char>>,
    b: int,
    i: int,
    e: int,
    year: i32,
    month: u32,
    day: u32,
)
    requires
        b <= i <= e,
        tasks_upto(ls, b, i, year, month, day) is Err,
    ensures
        tasks_upto(ls, b, e, year, month, day) == tasks_upto(ls, b, i, year, month, day),
    decreases e - i,
{
    if e > i {
        lemma_tasks_error_stays(ls, b, i, e - 1, year, month, day);
    }
}

fn parse_milestones(lines: &[&str], b: usize, e: usize) -> (r: FileSection)
    requires
        b < e <= lines@.len(),
    ensures
        r@ == SectionModel::Milestones(items_upto(texts(lines@), b as int, e as int)),
{
    let ghost ls = texts(lines@);
    let mut milestones: Vec<String> = Vec::new();
    let mut i = b;
    while i < e
        invariant
            b <= i <= e <= lines@.len(),
            ls == texts(lines@),
            string_views(milestones@) == items_upto(ls, b as int, i as int),
        decreases e - i,
    {
        let line = lines[i];
        assert(ls[i as int] == line@);
        if is_item_entry(line) {
            let ghost before = milestones@;
            milestones.push(line.to_owned());
            assert(string_views(milestones@) =~= string_views(before).push(line@));
            assert(string_views(milestones@) =~= items_upto(ls, b as int, i + 1));
        }
        i = i + 1;
    }
    FileSection::Milestones(milestones)
}

/// Decodes every item entry of lines `b` up to `e` as a task on the given date.
fn parse_tasks(lines: &[&str], b: usize, e: usize, year: i32, month: u32, day: u32) -> (r: Result<
    Vec<Task>,
    JournalError,
>)
    requires
        b < e <= lines@.len(),
    ensures
        match r {
            Ok(ts) => tasks_upto(texts(lines@), b as int, e as int, year, month, day) == Ok::<
                Seq<TaskModel>,
                JournalError,
            >(task_views(ts@)),
            Err(x) => tasks_upto(texts(lines@), b as int, e as int, year, month, day) == Err::<
                Seq<TaskModel>,
                JournalError,
            >(x),
        },
{
    let ghost ls = texts(lines@);
    let mut tasks: Vec<Task> = Vec::new();
    let mut i = b;
    assert(task_views(tasks@) =~= Seq::<TaskModel>::empty());
    while i < e
        invariant
            b <= i <= e <= lines@.len(),
            ls == texts(lines@),
            tasks_upto(ls, b as int, i as int, year, month, day) == Ok::<
                Seq<TaskModel>,
                JournalError,
            >(task_views(tasks@)),
        decreases e - i,
    {
        let line = lines[i];
        assert(ls[i as int] == line@);
        if is_item_entry(line) {
            match decode_task(line, year, month, day) {
                Ok(t) => {
                    let ghost before = tasks@;
                    tasks.push(t);
                    assert(task_views(tasks@) =~= task_views(before).push(t@));
                },
                Err(x) => {
                    proof {
                        lemma_tasks_error_stays(ls, b as int, i + 1, e as int, year, month, day);
                    }
                    return Err(x);
                },
            }
        }
        i = i + 1;
    }
    Ok(tasks)
}

fn parse_backlog(lines: &[&str], b: usize, e: usize, year: i32, month: u32) -> (r: Result<
    FileSection,
    JournalError,
>)
    requires
        b < e <= lines@.len(),
    ensures
        match r {
            Ok(s) => tasks_upto(texts(lines@), b as int, e as int, year, month, 1) matches Ok(ts)
                && s@ == SectionModel::Backlog(ts),
            Err(x) => tasks_upto(texts(lines@), b as int, e as int, year, month, 1) == Err::<
                Seq<TaskModel>,
                JournalError,
            >(x),
        },
{
    let tasks = parse_tasks(lines, b, e, year, month, 1)?;
    Ok(FileSection::Backlog(tasks))
}

fn parse_week(lines: &[&str], b: usize, e: usize, year: i32, month: u32) -> (r: Result<
    FileSection,
    JournalError,
>)
    requires
        b < e <= lines@.len(),
    ensures
        match r {
            Ok(s) => tasks_upto(texts(lines@), b as int, e as int, year, month, 1) matches Ok(ts)
                && s@ == SectionModel::Week(ts),
            Err(x) => tasks_upto(texts(lines@), b as int, e as int, year, month, 1) == Err::<
                Seq<TaskModel>,
                JournalError,
            >(x),
        },
{
    let tasks = parse_tasks(lines, b, e, year, month, 1)?;
    Ok(FileSection::Week(tasks))
}

fn digit(c: char) -> (r: bool)
    ensures
        r == is_digit(c),
{
    '0' <= c && c <= '9'
}

fn white(c: char) -> (r: bool)
    ensures
        r == is_white(c),
{
    c == ' ' || ('\t' <= c && c <= '\r') || c == '\u{85}' || c == '\u{a0}' || c == '\u{1680}' || (
    '\u{2000}' <= c && c <= '\u{200a}') || c == '\u{2028}' || c == '\u{2029}' || c == '\u{202f}'
        || c == '\u{205f}' || c == '\u{3000}'
}

/// Reads the day of the month from the end of a day header.
pub fn parse_day_number(header: &str) -> (r: Option<u32>)
    ensures
        r == day_number(header@),
{
    let n = header.unicode_len();
    if n < 2 {
        return None;
    }
    let a = header.get_char(n - 2);
    let b = header.get_char(n - 1);
    if digit(a) && digit(b) {
        Some(10 * (a as u32 - '0' as u32) + (b as u32 - '0' as u32))
    } else if (a == '+' || white(a)) && digit(b) {
        Some(b as u32 - '0' as u32)
    } else if digit(a) && white(b) {
        Some(a as u32 - '0' as u32)
    } else {
        None
    }
}

fn parse_day(lines: &[&str], b: usize, e: usize, year: i32, month: u32) -> (r: Result<
    FileSection,
    JournalError,
>)
    requires
        b < e <= lines@.len(),
    ensures
        match day_number(lines@[b as int]@) {
            None => r == Err::<FileSection, JournalError>(JournalError::InvalidDayHeader),
            Some(d) => if !(Date { year, month, day: d }).valid() {
                r == Err::<FileSection, JournalError>(JournalError::InvalidDayHeader)
            } else {
                match r {
                    Ok(s) => tasks_upto(texts(lines@), b as int, e as int, year, month, d) matches Ok(
                        ts,
                    ) && s@ == SectionModel::Day(Date { year, month, day: d }, ts),
                    Err(x) => tasks_upto(texts(lines@), b as int, e as int, year, month, d)
                        == Err::<Seq<TaskModel>, JournalError>(x),
                }
            },
        },
{
    let day = match parse_day_number(lines[b]) {
        Some(d) => d,
        None => {
            return Err(JournalError::InvalidDayHeader);
        },
    };
    let date = Date::new(year, month, day);
    if !date.is_valid() {
        return Err(JournalError::InvalidDayHeader);
    }
    let tasks = parse_tasks(lines, b, e, year, month, day)?;
    Ok(FileSection::Day(date, tasks))
}

/// Reads the section of lines `b` up to `e`, whose first line is its header.
pub fn parse_section(lines: &[&str], b: usize, e: usize, year: i32, month: u32) -> (r: Result<
    FileSection,
    JournalError,
>)
    requires
        b < e <= lines@.len(),
    ensures
        match r {
            Ok(s) => section_spec(texts(lines@), b as int, e as int, year, month) == Ok::<
                SectionModel,
                JournalError,
            >(s@),
            Err(x) => section_spec(texts(lines@), b as int, e as int, year, month) == Err::<
                SectionModel,
                JournalError,
            >(x),
        },
{
    let header = lines[b];
    assert(texts(lines@)[b as int] == header@);
    if is_milestone_header(header) {
        Ok(parse_milestones(lines, b, e))
    } else if is_backlog_header(header) {
        parse_backlog(lines, b, e, year, month)
    } else if is_week_header(header) {
        parse_week(lines, b, e, year, month)
    } else if is_day_header(header) {
        parse_day(lines, b, e, year, month)
    } else {
        Ok(FileSection::Unrecognized)
    }
}

} // verus!
