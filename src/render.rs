//! Writing a journal back out as text, rebuilding its tree from the stored positions.

use vstd::prelude::*;
use vstd::string::StringExecFns;
use crate::date::{weekday_of, Date};
use crate::journal::{DayModel, Journal, JournalDay, JournalModel, JournalWeek, WeekModel};
use crate::section::string_views;
use crate::task::{Task, TaskModel};

verus! {

/// A task as a line: `- [status] [category] title`.
pub open spec fn task_line(t: TaskModel) -> Seq<char> {
    "- ["@ + t.status + "] ["@ + t.category + "] "@ + t.title
}

pub open spec fn weekday_name(i: int) -> Seq<char> {
    if i == 0 {
        "Monday"@
    } else if i == 1 {
        "Tuesday"@
    } else if i == 2 {
        "Wednesday"@
    } else if i == 3 {
        "Thursday"@
    } else if i == 4 {
        "Friday"@
    } else if i == 5 {
        "Saturday"@
    } else {
        "Sunday"@
    }
}

pub open spec fn digit_char(n: int) -> char {
    if n == 0 {
        '0'
    } else if n == 1 {
        '1'
    } else if n == 2 {
        '2'
    } else if n == 3 {
        '3'
    } else if n == 4 {
        '4'
    } else if n == 5 {
        '5'
    } else if n == 6 {
        '6'
    } else if n == 7 {
        '7'
    } else if n == 8 {
        '8'
    } else {
        '9'
    }
}

/// The decimal digits of `n`, without leading zeros.
pub open spec fn decimal(n: nat) -> Seq<char>
    decreases n,
{
    if n < 10 {
        seq![digit_char(n as int)]
    } else {
        decimal(n / 10).push(digit_char((n % 10) as int))
    }
}

/// The header of a day: `## Weekday, day-of-month`.
pub open spec fn day_title(d: Date) -> Seq<char> {
    "## "@ + weekday_name(weekday_of(d.year as int, d.month as int, d.day as int)) + ", "@
        + decimal(d.day as nat)
}

pub open spec fn goal_lines(j: JournalModel, w: WeekModel, k: int) -> Seq<Seq<char>>
    decreases k,
{
    if k <= 0 {
        Seq::empty()
    } else {
        goal_lines(j, w, k - 1).push(task_line(j.goals[w.goal_indices[k - 1] as int]))
    }
}

pub open spec fn task_lines(j: JournalModel, d: DayModel, k: int) -> Seq<Seq<char>>
    decreases k,
{
    if k <= 0 {
        Seq::empty()
    } else {
        task_lines(j, d, k - 1).push(task_line(j.tasks[d.task_indices[k - 1] as int]))
    }
}

/// A day: a blank line, its header, and its tasks.
pub open spec fn day_block(j: JournalModel, d: DayModel) -> Seq<Seq<char>> {
    seq![""@, day_title(d.date)] + task_lines(j, d, d.task_indices.len() as int)
}

pub open spec fn days_lines(j: JournalModel, w: WeekModel, k: int) -> Seq<Seq<char>>
    decreases k,
{
    if k <= 0 {
        Seq::empty()
    } else {
        days_lines(j, w, k - 1) + day_block(j, j.days[w.day_indices[k - 1] as int])
    }
}

/// A week: a blank line, the weekly goals header, its goals, then each of its days.
pub open spec fn week_block(j: JournalModel, w: WeekModel) -> Seq<Seq<char>> {
    seq![""@, "# Weekly Goals"@] + goal_lines(j, w, w.goal_indices.len() as int) + days_lines(
        j,
        w,
        w.day_indices.len() as int,
    )
}

pub open spec fn weeks_lines(j: JournalModel, k: int) -> Seq<Seq<char>>
    decreases k,
{
    if k <= 0 {
        Seq::empty()
    } else {
        weeks_lines(j, k - 1) + week_block(j, j.weeks[k - 1])
    }
}

/// The lines of the document of a journal: milestones, backlog, then the weeks.
pub open spec fn render_lines(j: JournalModel) -> Seq<Seq<char>> {
    seq!["# Milestones"@] + j.milestones + seq![""@, "# Backlog"@] + j.backlog.map_values(
        |t: TaskModel| task_line(t),
    ) + weeks_lines(j, j.weeks.len() as int)
}

/// The lines joined into text, each ended by a line feed.
pub open spec fn join_lines(ls: Seq<Seq<char>>) -> Seq<char>
    decreases ls.len(),
{
    if ls.len() == 0 {
        Seq::empty()
    } else {
        join_lines(ls.drop_last()) + ls.last() + seq!['\n']
    }
}

impl Task {
    /// The task as a line of the document.
    pub fn render(&self) -> (r: String)
        ensures
            r@ == task_line(self@),
    {
        let mut s = "- [".to_owned();
        s.append(self.status.as_str());
        s.append("] [");
        s.append(self.category.as_str());
        s.append("] ");
        s.append(self.title.as_str());
        s
    }
}

fn weekday_word(i: u32) -> (r: &'static str)
    requires
        i < 7,
    ensures
        r@ == weekday_name(i as int),
{
    if i == 0 {
        "Monday"
    } else if i == 1 {
        "Tuesday"
    } else if i == 2 {
        "Wednesday"
    } else if i == 3 {
        "Thursday"
    } else if i == 4 {
        "Friday"
    } else if i == 5 {
        "Saturday"
    } else {
        "Sunday"
    }
}

fn digit_text(n: u32) -> (r: &'static str)
    requires
        n < 10,
    ensures
        r@ == seq![digit_char(n as int)],
{
    proof {
        reveal_strlit("0");
        reveal_strlit("1");
        reveal_strlit("2");
        reveal_strlit("3");
        reveal_strlit("4");
        reveal_strlit("5");
        reveal_strlit("6");
        reveal_strlit("7");
        reveal_strlit("8");
        reveal_strlit("9");
    }
    let r = if n == 0 {
        "0"
    } else if n == 1 {
        "1"
    } else if n == 2 {
        "2"
    } else if n == 3 {
        "3"
    } else if n == 4 {
        "4"
    } else if n == 5 {
        "5"
    } else if n == 6 {
        "6"
    } else if n == 7 {
        "7"
    } else if n == 8 {
        "8"
    } else {
        "9"
    };
    assert(r@ =~= seq![digit_char(n as int)]);
    r
}

/// `n` in decimal.
pub fn decimal_text(n: u32) -> (r: String)
    ensures
        r@ == decimal(n as nat),
    decreases n,
{
    if n < 10 {
        digit_text(n).to_owned()
    } else {
        let mut s = decimal_text(n / 10);
        s.append(digit_text(n % 10));
        assert(s@ =~= decimal((n / 10) as nat).push(digit_char((n % 10) as int)));
        s
    }
}

/// The header line of a day with the given date.
pub fn day_header_text(d: Date) -> (r: String)
    requires
        d.valid(),
    ensures
        r@ == day_title(d),
{
    let mut s = "## ".to_owned();
    s.append(weekday_word(d.weekday()));
    s.append(", ");
    let num = decimal_text(d.day);
    s.append(num.as_str());
    s
}

fn push_text(out: &mut Vec<String>, s: &str)
    ensures
        string_views(final(out)@) == string_views(old(out)@).push(s@),
{
    let ghost before = out@;
    out.push(s.to_owned());
    assert(string_views(out@) =~= string_views(before).push(s@));
}

impl Journal {
    fn write_goals(&self, w: &JournalWeek, out: &mut Vec<String>)
        requires
            forall|k: int|
                0 <= k < w.goal_indices@.len() ==> #[trigger] w.goal_indices@[k]
                    < self.goals@.len(),
        ensures
            string_views(final(out)@) == string_views(old(out)@) + goal_lines(
                self@,
                w@,
                w.goal_indices@.len() as int,
            ),
    {
        let ghost start = out@;
        let mut k: usize = 0;
        assert(string_views(out@) =~= string_views(start) + goal_lines(self@, w@, 0));
        while k < w.goal_indices.len()
            invariant
                k <= w.goal_indices@.len(),
                forall|i: int|
                    0 <= i < w.goal_indices@.len() ==> #[trigger] w.goal_indices@[i]
                        < self.goals@.len(),
                string_views(out@) == string_views(start) + goal_lines(self@, w@, k as int),
            decreases w.goal_indices@.len() - k,
        {
            let g = w.goal_indices[k];
            let line = self.goals[g].render();
            push_text(out, line.as_str());
            k = k + 1;
            assert(string_views(out@) =~= string_views(start) + goal_lines(self@, w@, k as int));
        }
    }

    fn write_day(&self, d: &JournalDay, out: &mut Vec<String>)
        requires
            d.date.valid(),
            forall|k: int|
                0 <= k < d.task_indices@.len() ==> #[trigger] d.task_indices@[k]
                    < self.tasks@.len(),
        ensures
            string_views(final(out)@) == string_views(old(out)@) + day_block(self@, d@),
    {
        let ghost before = out@;
        push_text(out, "");
        let title = day_header_text(d.date);
        push_text(out, title.as_str());
        let ghost start = out@;
        assert(string_views(start) =~= string_views(before) + seq![""@, day_title(d.date)]);
        let mut k: usize = 0;
        assert(string_views(out@) =~= string_views(start) + task_lines(self@, d@, 0));
        while k < d.task_indices.len()
            invariant
                k <= d.task_indices@.len(),
                forall|i: int|
                    0 <= i < d.task_indices@.len() ==> #[trigger] d.task_indices@[i]
                        < self.tasks@.len(),
                string_views(out@) == string_views(start) + task_lines(self@, d@, k as int),
            decreases d.task_indices@.len() - k,
        {
            let t = d.task_indices[k];
            let line = self.tasks[t].render();
            push_text(out, line.as_str());
            k = k + 1;
            assert(string_views(out@) =~= string_views(start) + task_lines(self@, d@, k as int));
        }
        assert(string_views(out@) =~= string_views(before) + day_block(self@, d@));
    }

    fn write_week(&self, w: &JournalWeek, out: &mut Vec<String>)
        requires
            self.wf(),
            forall|k: int|
                0 <= k < w.goal_indices@.len() ==> #[trigger] w.goal_indices@[k]
                    < self.goals@.len(),
            forall|k: int|
                0 <= k < w.day_indices@.len() ==> #[trigger] w.day_indices@[k] < self.days@.len(),
        ensures
            string_views(final(out)@) == string_views(old(out)@) + week_block(self@, w@),
    {
        let ghost before = out@;
        push_text(out, "");
        push_text(out, "# Weekly Goals");
        self.write_goals(w, out);
        let ghost start = out@;
        assert(string_views(start) =~= string_views(before) + seq![""@, "# Weekly Goals"@]
            + goal_lines(self@, w@, w.goal_indices@.len() as int));
        let mut k: usize = 0;
        assert(string_views(out@) =~= string_views(start) + days_lines(self@, w@, 0));
        while k < w.day_indices.len()
            invariant
                self.wf(),
                k <= w.day_indices@.len(),
                forall|i: int|
                    0 <= i < w.day_indices@.len() ==> #[trigger] w.day_indices@[i]
                        < self.days@.len(),
                string_views(out@) == string_views(start) + days_lines(self@, w@, k as int),
            decreases w.day_indices@.len() - k,
        {
            let di = w.day_indices[k];
            let day = &self.days[di];
            assert(self@.days[di as int] == day@);
            assert(day.date.valid());
            assert forall|i: int| 0 <= i < day.task_indices@.len() implies #[trigger] day.task_indices@[i]
                < self.tasks@.len() by {
                assert(self@.days[di as int].task_indices[i] < self@.tasks.len());
            }
            self.write_day(day, out);
            k = k + 1;
            assert(string_views(out@) =~= string_views(start) + days_lines(self@, w@, k as int));
        }
        assert(string_views(out@) =~= string_views(before) + week_block(self@, w@));
    }

    /// The lines of the document: the milestones, the backlog, and each week with its
    /// goals and its days, the tree rebuilt from the stored positions.
    pub fn to_lines(&self) -> (r: Vec<String>)
        requires
            self.wf(),
        ensures
            string_views(r@) == render_lines(self@),
    {
        let mut out: Vec<String> = Vec::new();
        push_text(&mut out, "# Milestones");
        let mut i: usize = 0;
        assert(string_views(out@) =~= seq!["# Milestones"@] + self@.milestones.subrange(0, 0));
        while i < self.milestones.len()
            invariant
                i <= self.milestones@.len(),
                string_views(out@) == seq!["# Milestones"@] + self@.milestones.subrange(0, i as int),
            decreases self.milestones@.len() - i,
        {
            push_text(&mut out, self.milestones[i].as_str());
            i = i + 1;
            assert(string_views(out@) =~= seq!["# Milestones"@] + self@.milestones.subrange(0, i as int));
        }
        push_text(&mut out, "");
        push_text(&mut out, "# Backlog");
        let ghost head = seq!["# Milestones"@] + self@.milestones + seq![""@, "# Backlog"@];
        assert(string_views(out@) =~= head);
        let ghost tl = self@.backlog.map_values(|t: TaskModel| task_line(t));
        i = 0;
        assert(string_views(out@) =~= head + tl.subrange(0, 0));
        while i < self.backlog.len()
            invariant
                i <= self.backlog@.len(),
                tl == self@.backlog.map_values(|t: TaskModel| task_line(t)),
                string_views(out@) == head + tl.subrange(0, i as int),
            decreases self.backlog@.len() - i,
        {
            let line = self.backlog[i].render();
            push_text(&mut out, line.as_str());
            i = i + 1;
            assert(string_views(out@) =~= head + tl.subrange(0, i as int));
        }
        assert(tl.subrange(0, i as int) =~= tl);
        let ghost start = out@;
        i = 0;
        assert(string_views(out@) =~= string_views(start) + weeks_lines(self@, 0));
        while i < self.weeks.len()
            invariant
                self.wf(),
                i <= self.weeks@.len(),
                string_views(out@) == string_views(start) + weeks_lines(self@, i as int),
            decreases self.weeks@.len() - i,
        {
            let w = &self.weeks[i];
            assert(self@.weeks[i as int] == w@);
            assert forall|k: int| 0 <= k < w.goal_indices@.len() implies #[trigger] w.goal_indices@[k]
                < self.goals@.len() by {
                assert(self@.weeks[i as int].goal_indices[k] < self@.goals.len());
            }
            assert forall|k: int| 0 <= k < w.day_indices@.len() implies #[trigger] w.day_indices@[k]
                < self.days@.len() by {
                assert(self@.weeks[i as int].day_indices[k] < self@.days.len());
            }
            self.write_week(w, &mut out);
            i = i + 1;
            assert(string_views(out@) =~= string_views(start) + weeks_lines(self@, i as int));
        }
        assert(string_views(out@) =~= render_lines(self@));
        out
    }

    /// The text of the document: each line of `to_lines` followed by a line feed.
    pub fn serialize(&self) -> (r: String)
        requires
            self.wf(),
        ensures
            r@ == join_lines(render_lines(self@)),
    {
        let lines = self.to_lines();
        let mut text = String::new();
        let mut i: usize = 0;
        assert(string_views(lines@).subrange(0, 0) =~= Seq::<Seq<char>>::empty());
        while i < lines.len()
            invariant
                i <= lines@.len(),
                string_views(lines@) == render_lines(self@),
                text@ == join_lines(string_views(lines@).subrange(0, i as int)),
            decreases lines@.len() - i,
        {
            text.append(lines[i].as_str());
            text.append("\n");
            proof {
                reveal_strlit("\n");
                assert(string_views(lines@).subrange(0, i + 1).drop_last() =~= string_views(
                    lines@,
                ).subrange(0, i as int));
            }
            i = i + 1;
        }
        assert(string_views(lines@).subrange(0, i as int) =~= string_views(lines@));
        text
    }
}

} // verus!
