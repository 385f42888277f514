//! Reading back what was written: the lemmas that relate building, section by
//! section, to documents put together from pieces.

use vstd::prelude::*;
use crate::classify::{has_prefix, backlog_header, day_header, header_line, item_line, milestone_header, week_header};
use crate::date::{weekday_of, Date};
use crate::render::{
    day_title, days_lines, decimal, digit_char, goal_lines, render_lines, task_line, task_lines,
    weekday_name,
    weeks_lines,
};
use crate::task::{
    decode_spec, first_match_from, is_letter, lemma_letters_end_bounds, letters_end, matches_at,
    TaskModel,
};
use crate::error::JournalError;
use crate::journal::{
    add_section, build_from, build_spec, empty_journal, index_range, lemma_add_section_wf, run, DayModel, JournalModel, WeekModel};
use crate::section::{SectionModel, day_number, digit_value, is_digit, items_upto, section_spec, tasks_upto};
use crate::segment::{header_positions, lemma_header_positions, lemma_sections_partition, sections_of};

verus! {

pub open spec fn shift(s: Seq<int>, d: int) -> Seq<int> {
    s.map_values(|x: int| x + d)
}

pub open spec fn shift_pairs(s: Seq<(int, int)>, d: int) -> Seq<(int, int)> {
    s.map_values(|p: (int, int)| (p.0 + d, p.1 + d))
}

/// Goes on with `f` after a success.
pub open spec fn and_then(r: Result<JournalModel, JournalError>, f: spec_fn(JournalModel) -> Result<
    JournalModel,
    JournalError,
>) -> Result<JournalModel, JournalError> {
    match r {
        Ok(j) => f(j),
        Err(x) => Err(x),
    }
}

proof fn lemma_positions_prefix(ls1: Seq<Seq<char>>, ls2: Seq<Seq<char>>, n: int)
    requires
        0 <= n <= ls1.len(),
        n <= ls2.len(),
        ls1.subrange(0, n) == ls2.subrange(0, n),
    ensures
        header_positions(ls1, n) == header_positions(ls2, n),
    decreases n,
{
    if n > 0 {
        assert(ls1[n - 1] == ls1.subrange(0, n)[n - 1]);
        assert(ls2[n - 1] == ls2.subrange(0, n)[n - 1]);
        assert(ls1.subrange(0, n - 1) =~= ls1.subrange(0, n).subrange(0, n - 1));
        assert(ls2.subrange(0, n - 1) =~= ls2.subrange(0, n).subrange(0, n - 1));
        lemma_positions_prefix(ls1, ls2, n - 1);
    }
}

proof fn lemma_positions_concat(a: Seq<Seq<char>>, b: Seq<Seq<char>>, k: int)
    requires
        0 <= k <= b.len(),
    ensures
        header_positions(a + b, a.len() + k) == header_positions(a, a.len() as int) + shift(
            header_positions(b, k),
            a.len() as int,
        ),
    decreases k,
{
    if k == 0 {
        assert((a + b).subrange(0, a.len() as int) =~= a.subrange(0, a.len() as int));
        lemma_positions_prefix(a + b, a, a.len() as int);
        assert(shift(header_positions(b, 0), a.len() as int) =~= Seq::<int>::empty());
        assert(header_positions(a, a.len() as int) + Seq::<int>::empty() =~= header_positions(
            a,
            a.len() as int,
        ));
    } else {
        lemma_positions_concat(a, b, k - 1);
        assert((a + b)[a.len() + k - 1] == b[k - 1]);
        assert(header_positions(a + b, a.len() + k) =~= header_positions(a, a.len() as int) + shift(
            header_positions(b, k),
            a.len() as int,
        ));
    }
}

/// Sections of a document whose second part starts with a header: those of the first
/// part, then those of the second, moved along.
proof fn lemma_sections_concat(a: Seq<Seq<char>>, b: Seq<Seq<char>>)
    requires
        b.len() > 0,
        header_line(b[0]),
    ensures
        sections_of(a + b) == sections_of(a) + shift_pairs(sections_of(b), a.len() as int),
{
    let n = a.len() as int;
    lemma_positions_concat(a, b, b.len() as int);
    let ha = header_positions(a, n);
    let hb = header_positions(b, b.len() as int);
    let h = header_positions(a + b, (a + b).len() as int);
    assert(h == ha + shift(hb, n));
    lemma_header_positions(b, b.len() as int);
    let j0 = choose|j: int| 0 <= j < hb.len() && hb[j] == 0;
    if j0 > 0 {
        assert(hb[0] < hb[j0]);
    }
    assert(hb[0] == 0);
    assert(sections_of(a + b) =~= sections_of(a) + shift_pairs(sections_of(b), n));
}

proof fn lemma_items_local(
    ls1: Seq<Seq<char>>,
    b1: int,
    ls2: Seq<Seq<char>>,
    b2: int,
    len: int,
    i: int,
)
    requires
        0 <= b1,
        0 <= b2,
        0 <= i <= len,
        b1 + len <= ls1.len(),
        b2 + len <= ls2.len(),
        ls1.subrange(b1, b1 + len) == ls2.subrange(b2, b2 + len),
    ensures
        items_upto(ls1, b1, b1 + i) == items_upto(ls2, b2, b2 + i),
        forall|year: i32, month: u32, day: u32|
            #[trigger] tasks_upto(ls1, b1, b1 + i, year, month, day) == tasks_upto(
                ls2,
                b2,
                b2 + i,
                year,
                month,
                day,
            ),
    decreases i,
{
    if i > 0 {
        lemma_items_local(ls1, b1, ls2, b2, len, i - 1);
        assert(ls1[b1 + i - 1] == ls1.subrange(b1, b1 + len)[i - 1]);
        assert(ls2[b2 + i - 1] == ls2.subrange(b2, b2 + len)[i - 1]);
        assert forall|year: i32, month: u32, day: u32|
            #[trigger] tasks_upto(ls1, b1, b1 + i, year, month, day) == tasks_upto(
                ls2,
                b2,
                b2 + i,
                year,
                month,
                day,
            ) by {
            assert(tasks_upto(ls1, b1, b1 + i - 1, year, month, day) == tasks_upto(
                ls2,
                b2,
                b2 + i - 1,
                year,
                month,
                day,
            ));
        }
    }
}

/// A section reads the same wherever its lines stand.
proof fn lemma_section_local(
    ls1: Seq<Seq<char>>,
    b1: int,
    ls2: Seq<Seq<char>>,
    b2: int,
    len: int,
    year: i32,
    month: u32,
)
    requires
        0 <= b1,
        0 <= b2,
        0 < len,
        b1 + len <= ls1.len(),
        b2 + len <= ls2.len(),
        ls1.subrange(b1, b1 + len) == ls2.subrange(b2, b2 + len),
    ensures
        section_spec(ls1, b1, b1 + len, year, month) == section_spec(
            ls2,
            b2,
            b2 + len,
            year,
            month,
        ),
{
    lemma_items_local(ls1, b1, ls2, b2, len, len);
    assert(ls1[b1] == ls1.subrange(b1, b1 + len)[0]);
    assert(ls2[b2] == ls2.subrange(b2, b2 + len)[0]);
}

/// A line that is no item entry, added at the end of a section, changes nothing.
proof fn lemma_section_extend(ls: Seq<Seq<char>>, b: int, e: int, year: i32, month: u32)
    requires
        0 <= b < e < ls.len(),
        !item_line(ls[e]),
    ensures
        section_spec(ls, b, e + 1, year, month) == section_spec(ls, b, e, year, month),
{
    assert(items_upto(ls, b, e + 1) == items_upto(ls, b, e));
    assert forall|y: i32, m: u32, d: u32|
        #[trigger] tasks_upto(ls, b, e + 1, y, m, d) == tasks_upto(ls, b, e, y, m, d) by {
        reveal_with_fuel(tasks_upto, 2);
    }
}

proof fn lemma_build_congruent(
    j0: JournalModel,
    ls1: Seq<Seq<char>>,
    s1: Seq<(int, int)>,
    ls2: Seq<Seq<char>>,
    s2: Seq<(int, int)>,
    k: int,
    year: i32,
    month: u32,
)
    requires
        0 <= k <= s1.len(),
        k <= s2.len(),
        forall|i: int|
            0 <= i < k ==> section_spec(ls1, (#[trigger] s1[i]).0, s1[i].1, year, month)
                == section_spec(ls2, s2[i].0, s2[i].1, year, month),
    ensures
        build_from(j0, ls1, s1, k, year, month) == build_from(j0, ls2, s2, k, year, month),
    decreases k,
{
    if k > 0 {
        lemma_build_congruent(j0, ls1, s1, ls2, s2, k - 1, year, month);
        assert(section_spec(ls1, s1[k - 1].0, s1[k - 1].1, year, month) == section_spec(
            ls2,
            s2[k - 1].0,
            s2[k - 1].1,
            year,
            month,
        ));
    }
}

proof fn lemma_build_split(
    j0: JournalModel,
    ls: Seq<Seq<char>>,
    s1: Seq<(int, int)>,
    s2: Seq<(int, int)>,
    k: int,
    year: i32,
    month: u32,
)
    requires
        0 <= k <= s2.len(),
    ensures
        build_from(j0, ls, s1 + s2, s1.len() + k, year, month) == and_then(
            build_from(j0, ls, s1, s1.len() as int, year, month),
            |j1: JournalModel| build_from(j1, ls, s2, k, year, month),
        ),
    decreases k,
{
    if k == 0 {
        assert forall|i: int| 0 <= i < s1.len() implies section_spec(
            ls,
            (#[trigger] (s1 + s2)[i]).0,
            (s1 + s2)[i].1,
            year,
            month,
        ) == section_spec(ls, s1[i].0, s1[i].1, year, month) by {
            assert((s1 + s2)[i] == s1[i]);
        }
        lemma_build_congruent(j0, ls, s1 + s2, ls, s1, s1.len() as int, year, month);
    } else {
        lemma_build_split(j0, ls, s1, s2, k - 1, year, month);
        assert((s1 + s2)[s1.len() + k - 1] == s2[k - 1]);
    }
}

proof fn lemma_sections_bounds(a: Seq<Seq<char>>)
    ensures
        forall|i: int|
            0 <= i < sections_of(a).len() ==> 0 <= (#[trigger] sections_of(a)[i]).0
                < sections_of(a)[i].1 <= a.len(),
{
    let ha = header_positions(a, a.len() as int);
    if ha.len() > 0 {
        lemma_header_positions(a, a.len() as int);
        assert(header_line(a[ha[0]]));
        lemma_sections_partition(a);
    }
}

/// Building a document whose second part starts with a header: build the first part,
/// then go on with the second.
proof fn lemma_run_concat(j0: JournalModel, a: Seq<Seq<char>>, b: Seq<Seq<char>>, year: i32, month: u32)
    requires
        b.len() > 0,
        header_line(b[0]),
    ensures
        run(j0, a + b, year, month) == and_then(
            run(j0, a, year, month),
            |j1: JournalModel| run(j1, b, year, month),
        ),
{
    let n = a.len() as int;
    let sa = sections_of(a);
    let sb = sections_of(b);
    let ab = a + b;
    lemma_sections_concat(a, b);
    lemma_sections_bounds(a);
    lemma_sections_bounds(b);
    let moved = shift_pairs(sb, n);
    assert(sections_of(ab) == sa + moved);
    lemma_build_split(j0, ab, sa, moved, sb.len() as int, year, month);
    assert forall|i: int| 0 <= i < sa.len() implies section_spec(
        ab,
        (#[trigger] sa[i]).0,
        sa[i].1,
        year,
        month,
    ) == section_spec(a, sa[i].0, sa[i].1, year, month) by {
        assert(ab.subrange(sa[i].0, sa[i].1) =~= a.subrange(sa[i].0, sa[i].1));
        lemma_section_local(ab, sa[i].0, a, sa[i].0, sa[i].1 - sa[i].0, year, month);
    }
    lemma_build_congruent(j0, ab, sa, a, sa, sa.len() as int, year, month);
    match run(j0, a, year, month) {
        Ok(j1) => {
            assert forall|i: int| 0 <= i < sb.len() implies section_spec(
                ab,
                (#[trigger] moved[i]).0,
                moved[i].1,
                year,
                month,
            ) == section_spec(b, sb[i].0, sb[i].1, year, month) by {
                assert(ab.subrange(sb[i].0 + n, sb[i].1 + n) =~= b.subrange(sb[i].0, sb[i].1));
                lemma_section_local(ab, sb[i].0 + n, b, sb[i].0, sb[i].1 - sb[i].0, year, month);
            }
            lemma_build_congruent(j1, ab, moved, b, sb, sb.len() as int, year, month);
        },
        Err(_) => {},
    }
}

/// A last line that is neither a header nor an item entry changes nothing.
proof fn lemma_run_blank(j0: JournalModel, a: Seq<Seq<char>>, x: Seq<char>, year: i32, month: u32)
    requires
        !header_line(x),
        !item_line(x),
    ensures
        run(j0, a + seq![x], year, month) == run(j0, a, year, month),
{
    let n = a.len() as int;
    let ax = a + seq![x];
    lemma_positions_concat(a, seq![x], 1);
    assert(header_positions(seq![x], 1) == header_positions(seq![x], 0));
    assert(shift(header_positions(seq![x], 1), n) =~= Seq::<int>::empty());
    assert(header_positions(ax, n + 1) =~= header_positions(a, n));
    let sa = sections_of(a);
    let sx = sections_of(ax);
    lemma_sections_bounds(a);
    assert(sx.len() == sa.len());
    assert forall|i: int| 0 <= i < sx.len() implies section_spec(
        ax,
        (#[trigger] sx[i]).0,
        sx[i].1,
        year,
        month,
    ) == section_spec(a, sa[i].0, sa[i].1, year, month) by {
        assert(ax.subrange(sa[i].0, sa[i].1) =~= a.subrange(sa[i].0, sa[i].1));
        lemma_section_local(ax, sa[i].0, a, sa[i].0, sa[i].1 - sa[i].0, year, month);
        if i == sx.len() - 1 {
            assert(ax[n] == x);
            lemma_section_extend(ax, sa[i].0, n, year, month);
        }
    }
    lemma_build_congruent(j0, ax, sx, a, sa, sa.len() as int, year, month);
}

proof fn lemma_single_positions(ls: Seq<Seq<char>>, i: int)
    requires
        1 <= i <= ls.len(),
        header_line(ls[0]),
        forall|k: int| 1 <= k < ls.len() ==> !header_line(#[trigger] ls[k]),
    ensures
        header_positions(ls, i) == seq![0int],
    decreases i,
{
    if i > 1 {
        lemma_single_positions(ls, i - 1);
    } else {
        assert(header_positions(ls, 0) == Seq::<int>::empty());
        assert(header_positions(ls, 1) =~= seq![0int]);
    }
}

/// A document that is one section: building it adds that section.
proof fn lemma_run_single(j0: JournalModel, ls: Seq<Seq<char>>, year: i32, month: u32)
    requires
        ls.len() > 0,
        header_line(ls[0]),
        forall|k: int| 1 <= k < ls.len() ==> !header_line(#[trigger] ls[k]),
    ensures
        run(j0, ls, year, month) == match section_spec(ls, 0, ls.len() as int, year, month) {
            Ok(s) => add_section(j0, s),
            Err(x) => Err(x),
        },
{
    lemma_single_positions(ls, ls.len() as int);
    assert(sections_of(ls) =~= seq![(0int, ls.len() as int)]);
    assert(build_from(j0, ls, sections_of(ls), 0, year, month) == Ok::<JournalModel, JournalError>(j0));
}

/// A task that can be written as a line and read back: status and category are
/// nonempty words of letters, the title is nonempty and holds no line feed.
pub open spec fn task_ok(t: TaskModel) -> bool {
    &&& t.status.len() > 0
    &&& forall|i: int| 0 <= i < t.status.len() ==> is_letter(#[trigger] t.status[i])
    &&& t.category.len() > 0
    &&& forall|i: int| 0 <= i < t.category.len() ==> is_letter(#[trigger] t.category[i])
    &&& t.title.len() > 0
    &&& forall|i: int| 0 <= i < t.title.len() ==> #[trigger] t.title[i] != '\n'
    &&& t.date.valid()
}

proof fn lemma_letters_run(s: Seq<char>, i: int, k: int)
    requires
        0 <= i <= k < s.len(),
        forall|j: int| i <= j < k ==> is_letter(#[trigger] s[j]),
        !is_letter(s[k]),
    ensures
        letters_end(s, i) == k,
    decreases k - i,
{
    if i < k {
        lemma_letters_run(s, i + 1, k);
    }
}

/// A task written as a line reads back as the same task.
proof fn lemma_task_line(t: TaskModel)
    requires
        task_ok(t),
    ensures
        decode_spec(task_line(t), t.date.year, t.date.month, t.date.day) == Ok::<
            TaskModel,
            JournalError,
        >(t),
        item_line(task_line(t)),
        !header_line(task_line(t)),
{
    reveal_strlit("- [");
    reveal_strlit("] [");
    reveal_strlit("] ");
    reveal_strlit("- ");
    let s = task_line(t);
    let st = t.status;
    let ca = t.category;
    let e1: int = 3 + st.len() as int;
    let e2: int = e1 + 3 + ca.len() as int;
    assert(s =~= seq!['-', ' ', '['] + st + seq![']', ' ', '['] + ca + seq![']', ' '] + t.title);
    assert forall|j: int| 3 <= j < e1 implies is_letter(#[trigger] s[j]) by {
        assert(s[j] == st[j - 3]);
    }
    assert(s[e1] == ']');
    lemma_letters_run(s, 3, e1);
    assert forall|j: int| e1 + 3 <= j < e2 implies is_letter(#[trigger] s[j]) by {
        assert(s[j] == ca[j - e1 - 3]);
    }
    assert(s[e2] == ']');
    lemma_letters_run(s, e1 + 3, e2);
    assert forall|k: int| e2 + 2 <= k < s.len() implies s[k] != '\n' by {
        assert(s[k] == t.title[k - e2 - 2]);
    }
    assert(matches_at(s, 0));
    assert(s.subrange(3, e1) =~= st);
    assert(s.subrange(e1 + 3, e2) =~= ca);
    assert(s.subrange(e2 + 2, s.len() as int) =~= t.title);
    assert(s.subrange(0, 2) =~= "- "@);
}

pub open spec fn blank() -> Seq<char> {
    ""@
}

proof fn lemma_fixed_headers()
    ensures
        header_line("# Milestones"@),
        milestone_header("# Milestones"@),
        header_line("# Backlog"@),
        !milestone_header("# Backlog"@),
        backlog_header("# Backlog"@),
        header_line("# Weekly Goals"@),
        !milestone_header("# Weekly Goals"@),
        !backlog_header("# Weekly Goals"@),
        week_header("# Weekly Goals"@),
        !header_line(blank()),
        !item_line(blank()),
        !item_line("# Milestones"@),
        !item_line("# Backlog"@),
        !item_line("# Weekly Goals"@),
{
    reveal_strlit("# Milestones");
    reveal_strlit("# Backlog");
    reveal_strlit("# Weekly Goals");
    reveal_strlit("# Weekly");
    reveal_strlit("");
    reveal_strlit("- ");
    assert("# Weekly Goals"@.subrange(0, 8) =~= "# Weekly"@);
    assert("# Milestones"@.subrange(0, 2)[0] != "- "@[0]);
    assert("# Backlog"@.subrange(0, 2)[0] != "- "@[0]);
    assert("# Weekly Goals"@.subrange(0, 2)[0] != "- "@[0]);
}

proof fn lemma_digit(n: int)
    requires
        0 <= n < 10,
    ensures
        is_digit(digit_char(n)),
        digit_value(digit_char(n)) == n,
{
}

/// A day header as written names a weekday and ends in its day of the month.
proof fn lemma_day_title(d: Date)
    requires
        d.day <= 99,
    ensures
        header_line(day_title(d)),
        !milestone_header(day_title(d)),
        !backlog_header(day_title(d)),
        !week_header(day_title(d)),
        day_header(day_title(d)),
        day_number(day_title(d)) == Some(d.day),
        !item_line(day_title(d)),
{
    reveal_strlit("## ");
    reveal_strlit(", ");
    reveal_strlit("# Milestones");
    reveal_strlit("# Backlog");
    reveal_strlit("# Weekly");
    reveal_strlit("- ");
    let w = weekday_of(d.year as int, d.month as int, d.day as int);
    let name = weekday_name(w);
    let s = day_title(d);
    let dec = decimal(d.day as nat);
    assert(s =~= seq!['#', '#', ' '] + name + seq![',', ' '] + dec);
    assert(s[1] == '#');
    assert("# Milestones"@[1] == ' ');
    assert("# Backlog"@[1] == ' ');
    assert(!has_prefix(s, "# Weekly"@)) by {
        if "# Weekly"@.len() <= s.len() {
            assert(s.subrange(0, 8)[1] == s[1]);
        }
    }
    assert(s.subrange(0, 2) != "- "@) by {
        assert(s.subrange(0, 2)[0] != "- "@[0]);
    }
    reveal_strlit("Monday");
    reveal_strlit("Tuesday");
    reveal_strlit("Wednesday");
    reveal_strlit("Thursday");
    reveal_strlit("Friday");
    reveal_strlit("Saturday");
    reveal_strlit("Sunday");
    reveal_strlit("## Monday");
    reveal_strlit("## Tuesday");
    reveal_strlit("## Wednesday");
    reveal_strlit("## Thursday");
    reveal_strlit("## Friday");
    reveal_strlit("## Saturday");
    reveal_strlit("## Sunday");
    let p = ("## "@ + name);
    assert(s.subrange(0, p.len() as int) =~= p);
    if w == 0 {
        assert(p =~= "## Monday"@);
    } else if w == 1 {
        assert(p =~= "## Tuesday"@);
    } else if w == 2 {
        assert(p =~= "## Wednesday"@);
    } else if w == 3 {
        assert(p =~= "## Thursday"@);
    } else if w == 4 {
        assert(p =~= "## Friday"@);
    } else if w == 5 {
        assert(p =~= "## Saturday"@);
    } else {
        assert(p =~= "## Sunday"@);
    }
    let n: int = s.len() as int;
    if d.day < 10 {
        assert(dec == seq![digit_char(d.day as int)]);
        lemma_digit(d.day as int);
        assert(s[n - 2] == ' ');
        assert(s[n - 1] == digit_char(d.day as int));
    } else {
        let hi = (d.day / 10) as int;
        let lo = (d.day % 10) as int;
        assert(decimal((d.day / 10) as nat) == seq![digit_char(hi)]);
        assert(dec == seq![digit_char(hi), digit_char(lo)]);
        lemma_digit(hi);
        lemma_digit(lo);
        assert(s[n - 2] == digit_char(hi));
        assert(s[n - 1] == digit_char(lo));
    }
}

/// The goals of a week, in order.
pub open spec fn goals_of(j: JournalModel, w: WeekModel) -> Seq<TaskModel> {
    Seq::new(w.goal_indices.len(), |k: int| j.goals[w.goal_indices[k] as int])
}

/// The tasks of a day, in order.
pub open spec fn tasks_of(j: JournalModel, d: DayModel) -> Seq<TaskModel> {
    Seq::new(d.task_indices.len(), |k: int| j.tasks[d.task_indices[k] as int])
}

pub open spec fn day_section(j: JournalModel, d: DayModel) -> SectionModel {
    SectionModel::Day(d.date, tasks_of(j, d))
}

/// Adds the first `c` days of week `w` of `j` to `acc`.
pub open spec fn add_days(acc: JournalModel, j: JournalModel, w: WeekModel, c: int) -> Result<
    JournalModel,
    JournalError,
>
    decreases c,
{
    if c <= 0 {
        Ok(acc)
    } else {
        match add_days(acc, j, w, c - 1) {
            Ok(a) => add_section(a, day_section(j, j.days[w.day_indices[c - 1] as int])),
            Err(x) => Err(x),
        }
    }
}

/// Adds week `w` of `j`, its goals and then its days, to `acc`.
pub open spec fn add_week(acc: JournalModel, j: JournalModel, w: WeekModel) -> Result<
    JournalModel,
    JournalError,
> {
    match add_section(acc, SectionModel::Week(goals_of(j, w))) {
        Ok(a) => add_days(a, j, w, w.day_indices.len() as int),
        Err(x) => Err(x),
    }
}

/// Adds the first `k` weeks of `j` to `acc`.
pub open spec fn add_weeks(acc: JournalModel, j: JournalModel, k: int) -> Result<
    JournalModel,
    JournalError,
>
    decreases k,
{
    if k <= 0 {
        Ok(acc)
    } else {
        match add_weeks(acc, j, k - 1) {
            Ok(a) => add_week(a, j, j.weeks[k - 1]),
            Err(x) => Err(x),
        }
    }
}

/// What a journal read from the month `year`-`month` looks like: positions in bounds,
/// milestones are item entries, tasks can be written and read back, undated tasks fall
/// on the first of the month, and a day's tasks on that day.
pub open spec fn readable(j: JournalModel, year: i32, month: u32) -> bool {
    &&& j.wf()
    &&& forall|i: int| 0 <= i < j.milestones.len() ==> item_line(#[trigger] j.milestones[i])
    &&& forall|i: int|
        0 <= i < j.backlog.len() ==> task_ok(#[trigger] j.backlog[i]) && j.backlog[i].date == (
        Date { year, month, day: 1 })
    &&& forall|i: int|
        0 <= i < j.goals.len() ==> task_ok(#[trigger] j.goals[i]) && j.goals[i].date == (Date {
            year,
            month,
            day: 1,
        })
    &&& forall|d: int|
        0 <= d < j.days.len() ==> (#[trigger] j.days[d]).date.year == year && j.days[d].date.month
            == month && j.days[d].date.day <= 99
    &&& forall|d: int, k: int|
        0 <= d < j.days.len() && 0 <= k < j.days[d].task_indices.len() ==> task_ok(
            #[trigger] j.tasks[j.days[d].task_indices[k] as int],
        ) && j.tasks[j.days[d].task_indices[k] as int].date == j.days[d].date
}

proof fn lemma_items_of_lines(ls: Seq<Seq<char>>, ms: Seq<Seq<char>>, i: int)
    requires
        ls.len() == ms.len() + 1,
        !item_line(ls[0]),
        forall|k: int| 0 <= k < ms.len() ==> ls[k + 1] == ms[k] && item_line(#[trigger] ms[k]),
        0 <= i <= ms.len(),
    ensures
        items_upto(ls, 0, i + 1) == ms.subrange(0, i),
    decreases i,
{
    if i == 0 {
        assert(items_upto(ls, 0, 0) == Seq::<Seq<char>>::empty());
        assert(ms.subrange(0, 0) =~= Seq::<Seq<char>>::empty());
    } else {
        lemma_items_of_lines(ls, ms, i - 1);
        assert(item_line(ms[i - 1]));
        assert(ms.subrange(0, i) =~= ms.subrange(0, i - 1).push(ms[i - 1]));
    }
}

proof fn lemma_tasks_of_lines(
    ls: Seq<Seq<char>>,
    ts: Seq<TaskModel>,
    year: i32,
    month: u32,
    day: u32,
    i: int,
)
    requires
        ls.len() == ts.len() + 1,
        !item_line(ls[0]),
        forall|k: int|
            0 <= k < ts.len() ==> ls[k + 1] == task_line(#[trigger] ts[k]) && task_ok(ts[k])
                && ts[k].date == (Date { year, month, day }),
        0 <= i <= ts.len(),
    ensures
        tasks_upto(ls, 0, i + 1, year, month, day) == Ok::<Seq<TaskModel>, JournalError>(
            ts.subrange(0, i),
        ),
    decreases i,
{
    if i == 0 {
        assert(tasks_upto(ls, 0, 0, year, month, day) == Ok::<Seq<TaskModel>, JournalError>(
            Seq::empty(),
        ));
        assert(ts.subrange(0, 0) =~= Seq::<TaskModel>::empty());
    } else {
        lemma_tasks_of_lines(ls, ts, year, month, day, i - 1);
        let t = ts[i - 1];
        lemma_task_line(t);
        assert(ts.subrange(0, i) =~= ts.subrange(0, i - 1).push(t));
    }
}

proof fn lemma_goal_lines(j: JournalModel, w: WeekModel, k: int)
    requires
        0 <= k <= w.goal_indices.len(),
    ensures
        goal_lines(j, w, k).len() == k,
        forall|i: int|
            0 <= i < k ==> #[trigger] goal_lines(j, w, k)[i] == task_line(goals_of(j, w)[i]),
    decreases k,
{
    if k > 0 {
        lemma_goal_lines(j, w, k - 1);
        assert forall|i: int| 0 <= i < k implies #[trigger] goal_lines(j, w, k)[i] == task_line(
            goals_of(j, w)[i],
        ) by {
            if i < k - 1 {
                assert(goal_lines(j, w, k)[i] == goal_lines(j, w, k - 1)[i]);
            }
        }
    }
}

proof fn lemma_task_lines(j: JournalModel, d: DayModel, k: int)
    requires
        0 <= k <= d.task_indices.len(),
    ensures
        task_lines(j, d, k).len() == k,
        forall|i: int|
            0 <= i < k ==> #[trigger] task_lines(j, d, k)[i] == task_line(tasks_of(j, d)[i]),
    decreases k,
{
    if k > 0 {
        lemma_task_lines(j, d, k - 1);
        assert forall|i: int| 0 <= i < k implies #[trigger] task_lines(j, d, k)[i] == task_line(
            tasks_of(j, d)[i],
        ) by {
            if i < k - 1 {
                assert(task_lines(j, d, k)[i] == task_lines(j, d, k - 1)[i]);
            }
        }
    }
}

proof fn lemma_week_section(acc: JournalModel, j: JournalModel, wi: int, year: i32, month: u32)
    requires
        readable(j, year, month),
        0 <= wi < j.weeks.len(),
    ensures
        run(
            acc,
            seq!["# Weekly Goals"@] + goal_lines(
                j,
                j.weeks[wi],
                j.weeks[wi].goal_indices.len() as int,
            ),
            year,
            month,
        ) == add_section(acc, SectionModel::Week(goals_of(j, j.weeks[wi]))),
{
    let w = j.weeks[wi];
    let n = w.goal_indices.len() as int;
    let gs = goals_of(j, w);
    let ls = seq!["# Weekly Goals"@] + goal_lines(j, w, n);
    lemma_fixed_headers();
    lemma_goal_lines(j, w, n);
    assert forall|k: int| 0 <= k < gs.len() implies ls[k + 1] == task_line(#[trigger] gs[k])
        && task_ok(gs[k]) && gs[k].date == (Date { year, month, day: 1 }) by {
        assert(w.goal_indices[k] < j.goals.len());
        assert(j.goals[w.goal_indices[k] as int] == gs[k]);
    }
    assert forall|k: int| 1 <= k < ls.len() implies !header_line(#[trigger] ls[k]) by {
        lemma_task_line(gs[k - 1]);
    }
    lemma_tasks_of_lines(ls, gs, year, month, 1, n);
    assert(gs.subrange(0, n) =~= gs);
    lemma_run_single(acc, ls, year, month);
}

proof fn lemma_day_section(acc: JournalModel, j: JournalModel, di: int, year: i32, month: u32)
    requires
        readable(j, year, month),
        0 <= di < j.days.len(),
    ensures
        run(
            acc,
            seq![day_title(j.days[di].date)] + task_lines(
                j,
                j.days[di],
                j.days[di].task_indices.len() as int,
            ),
            year,
            month,
        ) == add_section(acc, day_section(j, j.days[di])),
{
    let d = j.days[di];
    let n = d.task_indices.len() as int;
    let ts = tasks_of(j, d);
    let ls = seq![day_title(d.date)] + task_lines(j, d, n);
    lemma_day_title(d.date);
    lemma_task_lines(j, d, n);
    assert forall|k: int| 0 <= k < ts.len() implies ls[k + 1] == task_line(#[trigger] ts[k])
        && task_ok(ts[k]) && ts[k].date == (Date { year, month, day: d.date.day }) by {
        assert(task_ok(j.tasks[d.task_indices[k] as int]));
    }
    assert forall|k: int| 1 <= k < ls.len() implies !header_line(#[trigger] ls[k]) by {
        lemma_task_line(ts[k - 1]);
    }
    lemma_tasks_of_lines(ls, ts, year, month, d.date.day, n);
    assert(ts.subrange(0, n) =~= ts);
    assert(d.date == (Date { year, month, day: d.date.day }));
    lemma_run_single(acc, ls, year, month);
}

proof fn lemma_week_days(acc: JournalModel, j: JournalModel, wi: int, c: int, year: i32, month: u32)
    requires
        readable(j, year, month),
        0 <= wi < j.weeks.len(),
        0 <= c <= j.weeks[wi].day_indices.len(),
    ensures
        run(
            acc,
            seq!["# Weekly Goals"@] + goal_lines(
                j,
                j.weeks[wi],
                j.weeks[wi].goal_indices.len() as int,
            ) + days_lines(j, j.weeks[wi], c),
            year,
            month,
        ) == match add_section(acc, SectionModel::Week(goals_of(j, j.weeks[wi]))) {
            Ok(a) => add_days(a, j, j.weeks[wi], c),
            Err(x) => Err(x),
        },
    decreases c,
{
    let w = j.weeks[wi];
    let head = seq!["# Weekly Goals"@] + goal_lines(j, w, w.goal_indices.len() as int);
    if c == 0 {
        assert(head + days_lines(j, w, 0) =~= head);
        lemma_week_section(acc, j, wi, year, month);
    } else {
        lemma_week_days(acc, j, wi, c - 1, year, month);
        let di = w.day_indices[c - 1] as int;
        assert(di < j.days.len());
        let d = j.days[di];
        let prev = head + days_lines(j, w, c - 1);
        let tail = seq![day_title(d.date)] + task_lines(j, d, d.task_indices.len() as int);
        assert(head + days_lines(j, w, c) =~= (prev + seq![blank()]) + tail);
        lemma_day_title(d.date);
        lemma_fixed_headers();
        lemma_run_concat(acc, prev + seq![blank()], tail, year, month);
        lemma_run_blank(acc, prev, blank(), year, month);
        match run(acc, prev, year, month) {
            Ok(a) => {
                lemma_day_section(a, j, di, year, month);
            },
            Err(_) => {},
        }
    }
}

pub open spec fn head_journal(j: JournalModel) -> JournalModel {
    JournalModel {
        milestones: j.milestones,
        backlog: j.backlog,
        weeks: Seq::empty(),
        days: Seq::empty(),
        goals: Seq::empty(),
        tasks: Seq::empty(),
    }
}

pub open spec fn head_lines(j: JournalModel) -> Seq<Seq<char>> {
    seq!["# Milestones"@] + j.milestones + seq![""@, "# Backlog"@] + j.backlog.map_values(
        |t: TaskModel| task_line(t),
    )
}

proof fn lemma_head(j: JournalModel, year: i32, month: u32)
    requires
        readable(j, year, month),
    ensures
        run(empty_journal(), head_lines(j), year, month) == Ok::<JournalModel, JournalError>(
            head_journal(j),
        ),
{
    lemma_fixed_headers();
    let ms = j.milestones;
    let mlines = seq!["# Milestones"@] + ms;
    let bl = j.backlog;
    let blines = seq!["# Backlog"@] + bl.map_values(|t: TaskModel| task_line(t));
    assert(head_lines(j) =~= (mlines + seq![blank()]) + blines);
    lemma_run_concat(empty_journal(), mlines + seq![blank()], blines, year, month);
    lemma_run_blank(empty_journal(), mlines, blank(), year, month);
    assert forall|k: int| 1 <= k < mlines.len() implies !header_line(#[trigger] mlines[k]) by {
        assert(mlines[k] == ms[k - 1]);
        assert(item_line(ms[k - 1]));
        reveal_strlit("- ");
        assert(ms[k - 1].subrange(0, 2)[0] == ms[k - 1][0]);
    }
    assert forall|k: int| 0 <= k < ms.len() implies mlines[k + 1] == ms[k] && item_line(
        #[trigger] ms[k],
    ) by {}
    lemma_items_of_lines(mlines, ms, ms.len() as int);
    assert(ms.subrange(0, ms.len() as int) =~= ms);
    lemma_run_single(empty_journal(), mlines, year, month);
    let j1 = JournalModel { milestones: empty_journal().milestones + ms, ..empty_journal() };
    assert(run(empty_journal(), mlines, year, month) == Ok::<JournalModel, JournalError>(j1));
    assert forall|k: int| 0 <= k < bl.len() implies blines[k + 1] == task_line(#[trigger] bl[k])
        && task_ok(bl[k]) && bl[k].date == (Date { year, month, day: 1 }) by {}
    assert forall|k: int| 1 <= k < blines.len() implies !header_line(#[trigger] blines[k]) by {
        lemma_task_line(bl[k - 1]);
    }
    lemma_tasks_of_lines(blines, bl, year, month, 1, bl.len() as int);
    assert(bl.subrange(0, bl.len() as int) =~= bl);
    lemma_run_single(j1, blines, year, month);
    assert(j1.backlog + bl =~= bl);
    assert(j1.milestones =~= ms);
}

proof fn lemma_weeks(j: JournalModel, k: int, year: i32, month: u32)
    requires
        readable(j, year, month),
        0 <= k <= j.weeks.len(),
    ensures
        run(empty_journal(), head_lines(j) + weeks_lines(j, k), year, month) == add_weeks(
            head_journal(j),
            j,
            k,
        ),
    decreases k,
{
    if k == 0 {
        assert(head_lines(j) + weeks_lines(j, 0) =~= head_lines(j));
        lemma_head(j, year, month);
    } else {
        lemma_weeks(j, k - 1, year, month);
        let w = j.weeks[k - 1];
        let prev = head_lines(j) + weeks_lines(j, k - 1);
        let tail = seq!["# Weekly Goals"@] + goal_lines(j, w, w.goal_indices.len() as int)
            + days_lines(j, w, w.day_indices.len() as int);
        assert(head_lines(j) + weeks_lines(j, k) =~= (prev + seq![blank()]) + tail);
        lemma_fixed_headers();
        lemma_run_concat(empty_journal(), prev + seq![blank()], tail, year, month);
        lemma_run_blank(empty_journal(), prev, blank(), year, month);
        match run(empty_journal(), prev, year, month) {
            Ok(a) => {
                lemma_week_days(a, j, k - 1, w.day_indices.len() as int, year, month);
            },
            Err(_) => {},
        }
    }
}

/// How many goals the first `k` weeks hold.
pub open spec fn goal_count(j: JournalModel, k: int) -> int
    decreases k,
{
    if k <= 0 {
        0
    } else {
        goal_count(j, k - 1) + j.weeks[k - 1].goal_indices.len()
    }
}

/// How many days the first `k` weeks hold.
pub open spec fn day_count(j: JournalModel, k: int) -> int
    decreases k,
{
    if k <= 0 {
        0
    } else {
        day_count(j, k - 1) + j.weeks[k - 1].day_indices.len()
    }
}

/// How many tasks the first `d` days hold.
pub open spec fn task_count(j: JournalModel, d: int) -> int
    decreases d,
{
    if d <= 0 {
        0
    } else {
        task_count(j, d - 1) + j.days[d - 1].task_indices.len()
    }
}

/// The pools are laid out in document order: each week's goals and days, and each
/// day's tasks, take the next run of positions, and together they use up the pools.
pub open spec fn linked(j: JournalModel) -> bool {
    &&& forall|w: int|
        0 <= w < j.weeks.len() ==> (#[trigger] j.weeks[w]).goal_indices == index_range(
            goal_count(j, w),
            j.weeks[w].goal_indices.len() as int,
        ) && j.weeks[w].day_indices == index_range(
            day_count(j, w),
            j.weeks[w].day_indices.len() as int,
        )
    &&& forall|d: int|
        0 <= d < j.days.len() ==> (#[trigger] j.days[d]).task_indices == index_range(
            task_count(j, d),
            j.days[d].task_indices.len() as int,
        )
    &&& goal_count(j, j.weeks.len() as int) == j.goals.len()
    &&& day_count(j, j.weeks.len() as int) == j.days.len()
    &&& task_count(j, j.days.len() as int) == j.tasks.len()
    &&& j.goals.len() <= usize::MAX
    &&& j.days.len() <= usize::MAX
    &&& j.tasks.len() <= usize::MAX
}

proof fn lemma_counts_grow(j: JournalModel, a: int, b: int)
    requires
        0 <= a <= b,
    ensures
        goal_count(j, a) <= goal_count(j, b),
        day_count(j, a) <= day_count(j, b),
        task_count(j, a) <= task_count(j, b),
        0 <= goal_count(j, a),
        0 <= day_count(j, a),
        0 <= task_count(j, a),
    decreases b,
{
    if b > a {
        lemma_counts_grow(j, a, b - 1);
    } else {
        lemma_counts_nonneg(j, a);
    }
}

proof fn lemma_counts_nonneg(j: JournalModel, a: int)
    ensures
        0 <= goal_count(j, a),
        0 <= day_count(j, a),
        0 <= task_count(j, a),
    decreases a,
{
    if a > 0 {
        lemma_counts_nonneg(j, a - 1);
    }
}

/// The journal after its first `k` weeks.
pub open spec fn first_weeks(j: JournalModel, k: int) -> JournalModel {
    JournalModel {
        milestones: j.milestones,
        backlog: j.backlog,
        weeks: j.weeks.subrange(0, k),
        days: j.days.subrange(0, day_count(j, k)),
        goals: j.goals.subrange(0, goal_count(j, k)),
        tasks: j.tasks.subrange(0, task_count(j, day_count(j, k))),
    }
}

/// The journal after its first `k` weeks, the goals of week `k`, and its first `c` days.
pub open spec fn within_week(j: JournalModel, k: int, c: int) -> JournalModel {
    let w = j.weeks[k];
    JournalModel {
        milestones: j.milestones,
        backlog: j.backlog,
        weeks: j.weeks.subrange(0, k).push(
            WeekModel { goal_indices: w.goal_indices, day_indices: w.day_indices.subrange(0, c) },
        ),
        days: j.days.subrange(0, day_count(j, k) + c),
        goals: j.goals.subrange(0, goal_count(j, k + 1)),
        tasks: j.tasks.subrange(0, task_count(j, day_count(j, k) + c)),
    }
}

proof fn lemma_add_goals(j: JournalModel, k: int)
    requires
        linked(j),
        0 <= k < j.weeks.len(),
    ensures
        add_section(first_weeks(j, k), SectionModel::Week(goals_of(j, j.weeks[k])))
            == Ok::<JournalModel, JournalError>(within_week(j, k, 0)),
{
    let w = j.weeks[k];
    let a = first_weeks(j, k);
    lemma_counts_grow(j, k + 1, j.weeks.len() as int);
    lemma_counts_grow(j, 0, k);
    let r = add_section(a, SectionModel::Week(goals_of(j, w)))->Ok_0;
    let b = within_week(j, k, 0);
    assert(w.goal_indices == index_range(goal_count(j, k), w.goal_indices.len() as int));
    assert(goal_count(j, k + 1) == goal_count(j, k) + w.goal_indices.len());
    assert forall|i: int| 0 <= i < w.goal_indices.len() implies #[trigger] w.goal_indices[i] as int
        == goal_count(j, k) + i by {}
    assert(r.goals =~= b.goals);
    assert(w.day_indices.subrange(0, 0) =~= Seq::<usize>::empty());
    assert(r.weeks =~= b.weeks);
    assert(r.days =~= b.days);
}

#[verifier::rlimit(50)]
proof fn lemma_add_day(j: JournalModel, k: int, c: int)
    requires
        linked(j),
        0 <= k < j.weeks.len(),
        0 <= c < j.weeks[k].day_indices.len(),
    ensures
        add_section(
            within_week(j, k, c),
            day_section(j, j.days[j.weeks[k].day_indices[c] as int]),
        ) == Ok::<JournalModel, JournalError>(within_week(j, k, c + 1)),
{
    let w = j.weeks[k];
    let d = day_count(j, k) + c;
    lemma_counts_grow(j, k + 1, j.weeks.len() as int);
    lemma_counts_grow(j, 0, k);
    assert(w.day_indices == index_range(day_count(j, k), w.day_indices.len() as int));
    assert(day_count(j, k + 1) == day_count(j, k) + w.day_indices.len());
    assert(w.day_indices[c] as int == d);
    assert(d < j.days.len());
    lemma_counts_grow(j, d + 1, j.days.len() as int);
    lemma_counts_grow(j, 0, d);
    let a = within_week(j, k, c);
    let dd = j.days[d];
    assert(dd.task_indices == index_range(task_count(j, d), dd.task_indices.len() as int));
    assert(task_count(j, d + 1) == task_count(j, d) + dd.task_indices.len());
    assert forall|i: int| 0 <= i < dd.task_indices.len() implies #[trigger] dd.task_indices[i] as int
        == task_count(j, d) + i by {}
    let r = add_section(a, day_section(j, j.days[d]))->Ok_0;
    let b = within_week(j, k, c + 1);
    assert(w.day_indices.subrange(0, c).push(a.days.len() as usize) =~= w.day_indices.subrange(
        0,
        c + 1,
    ));
    assert(r.weeks =~= b.weeks);
    assert(j.days[d].task_indices =~= index_range(a.tasks.len() as int, tasks_of(j, j.days[d]).len() as int));
    assert(r.days =~= b.days);
    assert(r.tasks =~= b.tasks);
}

proof fn lemma_add_days(j: JournalModel, k: int, c: int)
    requires
        linked(j),
        0 <= k < j.weeks.len(),
        0 <= c <= j.weeks[k].day_indices.len(),
    ensures
        add_days(within_week(j, k, 0), j, j.weeks[k], c) == Ok::<JournalModel, JournalError>(
            within_week(j, k, c),
        ),
    decreases c,
{
    if c > 0 {
        lemma_add_days(j, k, c - 1);
        lemma_add_day(j, k, c - 1);
    }
}

proof fn lemma_add_weeks(j: JournalModel, k: int)
    requires
        linked(j),
        0 <= k <= j.weeks.len(),
    ensures
        add_weeks(head_journal(j), j, k) == Ok::<JournalModel, JournalError>(first_weeks(j, k)),
    decreases k,
{
    if k == 0 {
        assert(first_weeks(j, 0).weeks =~= Seq::<WeekModel>::empty());
        assert(first_weeks(j, 0).days =~= Seq::<DayModel>::empty());
        assert(first_weeks(j, 0).goals =~= Seq::<TaskModel>::empty());
        assert(first_weeks(j, 0).tasks =~= Seq::<TaskModel>::empty());
    } else {
        lemma_add_weeks(j, k - 1);
        lemma_add_goals(j, k - 1);
        let w = j.weeks[k - 1];
        let n = w.day_indices.len() as int;
        lemma_add_days(j, k - 1, n);
        let a = within_week(j, k - 1, n);
        let b = first_weeks(j, k);
        assert(w.day_indices.subrange(0, n) =~= w.day_indices);
        assert(a.weeks =~= b.weeks);
        assert(a.days =~= b.days);
    }
}

proof fn lemma_first_match(s: Seq<char>, q: int)
    requires
        first_match_from(s, q) is Some,
    ensures
        matches_at(s, first_match_from(s, q)->Some_0),
        0 <= first_match_from(s, q)->Some_0 < s.len(),
    decreases s.len() - q,
{
    if 0 <= q < s.len() && !matches_at(s, q) {
        lemma_first_match(s, q + 1);
    }
}

/// A task that decodes can be written back as a line.
proof fn lemma_decoded_ok(s: Seq<char>, year: i32, month: u32, day: u32)
    requires
        decode_spec(s, year, month, day) is Ok,
    ensures
        task_ok(decode_spec(s, year, month, day)->Ok_0),
        decode_spec(s, year, month, day)->Ok_0.date == (Date { year, month, day }),
{
    lemma_first_match(s, 0);
    let p = first_match_from(s, 0)->Some_0;
    let e1 = letters_end(s, p + 3);
    let e2 = letters_end(s, e1 + 3);
    lemma_letters_end_bounds(s, p + 3);
    lemma_letters_end_bounds(s, e1 + 3);
    let t = decode_spec(s, year, month, day)->Ok_0;
    assert forall|i: int| 0 <= i < t.status.len() implies is_letter(#[trigger] t.status[i]) by {
        assert(t.status[i] == s[p + 3 + i]);
    }
    assert forall|i: int| 0 <= i < t.category.len() implies is_letter(#[trigger] t.category[i]) by {
        assert(t.category[i] == s[e1 + 3 + i]);
    }
    assert forall|i: int| 0 <= i < t.title.len() implies #[trigger] t.title[i] != '\n' by {
        assert(t.title[i] == s[e2 + 2 + i]);
    }
}

proof fn lemma_tasks_good(ls: Seq<Seq<char>>, b: int, i: int, year: i32, month: u32, day: u32)
    requires
        0 <= b < i,
        !item_line(ls[b]),
        tasks_upto(ls, b, i, year, month, day) is Ok,
    ensures
        tasks_upto(ls, b, i, year, month, day)->Ok_0.len() <= i - b - 1,
        forall|k: int|
            0 <= k < tasks_upto(ls, b, i, year, month, day)->Ok_0.len() ==> task_ok(
                #[trigger] tasks_upto(ls, b, i, year, month, day)->Ok_0[k],
            ) && tasks_upto(ls, b, i, year, month, day)->Ok_0[k].date == (Date {
                year,
                month,
                day,
            }),
    decreases i - b,
{
    if i == b + 1 {
        assert(tasks_upto(ls, b, b, year, month, day) == Ok::<Seq<TaskModel>, JournalError>(
            Seq::empty(),
        ));
    } else {
        lemma_tasks_good(ls, b, i - 1, year, month, day);
        if item_line(ls[i - 1]) {
            lemma_decoded_ok(ls[i - 1], year, month, day);
        }
    }
}

proof fn lemma_items_good(ls: Seq<Seq<char>>, b: int, i: int)
    requires
        b <= i,
    ensures
        forall|k: int|
            0 <= k < items_upto(ls, b, i).len() ==> item_line(#[trigger] items_upto(ls, b, i)[k]),
    decreases i - b,
{
    if i > b {
        lemma_items_good(ls, b, i - 1);
        let prev = items_upto(ls, b, i - 1);
        assert forall|k: int| 0 <= k < items_upto(ls, b, i).len() implies item_line(
            #[trigger] items_upto(ls, b, i)[k],
        ) by {
            if k < prev.len() {
                assert(items_upto(ls, b, i)[k] == prev[k]);
            }
        }
    }
}

/// What a section read from the month `year`-`month` holds: item entries, tasks that
/// can be written back on the right dates, and a day of that month.
pub open spec fn section_good(s: SectionModel, year: i32, month: u32) -> bool {
    match s {
        SectionModel::Milestones(ms) => forall|k: int|
            0 <= k < ms.len() ==> item_line(#[trigger] ms[k]),
        SectionModel::Backlog(ts) => forall|k: int|
            0 <= k < ts.len() ==> task_ok(#[trigger] ts[k]) && ts[k].date == (Date {
                year,
                month,
                day: 1,
            }),
        SectionModel::Week(ts) => forall|k: int|
            0 <= k < ts.len() ==> task_ok(#[trigger] ts[k]) && ts[k].date == (Date {
                year,
                month,
                day: 1,
            }),
        SectionModel::Day(d, ts) => d.year == year && d.month == month && d.day <= 99 && d.valid()
            && forall|k: int| 0 <= k < ts.len() ==> task_ok(#[trigger] ts[k]) && ts[k].date == d,
        SectionModel::Unrecognized => true,
    }
}

/// How many goals, days and tasks a section adds.
pub open spec fn section_size(s: SectionModel) -> int {
    match s {
        SectionModel::Week(ts) => ts.len() as int,
        SectionModel::Day(_, ts) => ts.len() + 1int,
        _ => 0,
    }
}

pub open spec fn pool_size(j: JournalModel) -> int {
    (j.goals.len() + j.days.len() + j.tasks.len()) as int
}

proof fn lemma_section_good(ls: Seq<Seq<char>>, b: int, e: int, year: i32, month: u32)
    requires
        0 <= b < e <= ls.len(),
        header_line(ls[b]),
        section_spec(ls, b, e, year, month) is Ok,
    ensures
        section_good(section_spec(ls, b, e, year, month)->Ok_0, year, month),
        section_size(section_spec(ls, b, e, year, month)->Ok_0) <= e - b,
{
    reveal_strlit("- ");
    assert(!item_line(ls[b])) by {
        if item_line(ls[b]) {
            assert(ls[b].subrange(0, 2)[0] == ls[b][0]);
        }
    }
    let h = ls[b];
    lemma_items_good(ls, b, e);
    if tasks_upto(ls, b, e, year, month, 1) is Ok {
        lemma_tasks_good(ls, b, e, year, month, 1);
    }
    if day_number(h) is Some {
        let d = day_number(h)->Some_0;
        if tasks_upto(ls, b, e, year, month, d) is Ok {
            lemma_tasks_good(ls, b, e, year, month, d);
        }
    }
}

proof fn lemma_counts_same(j1: JournalModel, j2: JournalModel, w: int, d: int)
    requires
        0 <= w <= j1.weeks.len(),
        w <= j2.weeks.len(),
        0 <= d <= j1.days.len(),
        d <= j2.days.len(),
        forall|i: int|
            0 <= i < w ==> (#[trigger] j1.weeks[i]).goal_indices.len()
                == j2.weeks[i].goal_indices.len() && j1.weeks[i].day_indices.len()
                == j2.weeks[i].day_indices.len(),
        forall|i: int|
            0 <= i < d ==> (#[trigger] j1.days[i]).task_indices.len()
                == j2.days[i].task_indices.len(),
    ensures
        goal_count(j1, w) == goal_count(j2, w),
        day_count(j1, w) == day_count(j2, w),
        task_count(j1, d) == task_count(j2, d),
    decreases w + d,
{
    if w > 0 {
        lemma_counts_same(j1, j2, w - 1, d);
    } else if d > 0 {
        lemma_counts_same(j1, j2, w, d - 1);
    }
}

proof fn lemma_keeps_plain(j: JournalModel, s: SectionModel, year: i32, month: u32)
    requires
        readable(j, year, month),
        linked(j),
        section_good(s, year, month),
        s is Milestones || s is Backlog || s is Unrecognized,
    ensures
        add_section(j, s) is Ok,
        readable(add_section(j, s)->Ok_0, year, month),
        linked(add_section(j, s)->Ok_0),
        pool_size(add_section(j, s)->Ok_0) == pool_size(j),
{
    let r = add_section(j, s)->Ok_0;
    lemma_counts_same(r, j, j.weeks.len() as int, j.days.len() as int);
    assert forall|w: int| 0 <= w < r.weeks.len() implies goal_count(r, w) == goal_count(j, w)
        && day_count(r, w) == day_count(j, w) by {
        lemma_counts_same(r, j, w, 0);
    }
    assert forall|d: int| 0 <= d < r.days.len() implies task_count(r, d) == task_count(j, d) by {
        lemma_counts_same(r, j, 0, d);
    }
    match s {
        SectionModel::Milestones(ms) => {
            assert forall|i: int| 0 <= i < r.milestones.len() implies item_line(
                #[trigger] r.milestones[i],
            ) by {
                if i >= j.milestones.len() {
                    assert(r.milestones[i] == ms[i - j.milestones.len()]);
                }
            }
        },
        SectionModel::Backlog(ts) => {
            assert forall|i: int| 0 <= i < r.backlog.len() implies task_ok(#[trigger] r.backlog[i])
                && r.backlog[i].date == (Date { year, month, day: 1 }) by {
                if i >= j.backlog.len() {
                    assert(r.backlog[i] == ts[i - j.backlog.len()]);
                }
            }
        },
        _ => {},
    }
}

#[verifier::rlimit(50)]
proof fn lemma_keeps_week(j: JournalModel, ts: Seq<TaskModel>, year: i32, month: u32)
    requires
        readable(j, year, month),
        linked(j),
        section_good(SectionModel::Week(ts), year, month),
        pool_size(j) + ts.len() <= usize::MAX,
    ensures
        readable(add_section(j, SectionModel::Week(ts))->Ok_0, year, month),
        linked(add_section(j, SectionModel::Week(ts))->Ok_0),
        pool_size(add_section(j, SectionModel::Week(ts))->Ok_0) == pool_size(j) + ts.len(),
{
    let s = SectionModel::Week(ts);
    let r = add_section(j, s)->Ok_0;
    let n = j.weeks.len() as int;
    lemma_add_section_wf(j, s);
    assert forall|w: int| 0 <= w <= n implies goal_count(r, w) == goal_count(j, w) && day_count(
        r,
        w,
    ) == day_count(j, w) by {
        assert forall|i: int| 0 <= i < w implies (#[trigger] r.weeks[i]).goal_indices.len()
            == j.weeks[i].goal_indices.len() && r.weeks[i].day_indices.len()
            == j.weeks[i].day_indices.len() by {
            assert(r.weeks[i] == j.weeks[i]);
        }
        lemma_counts_same(r, j, w, 0);
    }
    assert forall|d: int| 0 <= d <= j.days.len() implies task_count(r, d) == task_count(j, d) by {
        lemma_counts_same(r, j, 0, d);
    }
    assert(goal_count(r, n + 1) == goal_count(r, n) + ts.len());
    assert(day_count(r, n + 1) == day_count(r, n));
    assert forall|w: int| 0 <= w < r.weeks.len() implies (#[trigger] r.weeks[w]).goal_indices
        == index_range(goal_count(r, w), r.weeks[w].goal_indices.len() as int)
        && r.weeks[w].day_indices == index_range(
        day_count(r, w),
        r.weeks[w].day_indices.len() as int,
    ) by {
        if w < n {
            assert(r.weeks[w] == j.weeks[w]);
        } else {
            assert(r.weeks[w].day_indices =~= index_range(day_count(r, w), 0));
        }
    }
    assert forall|i: int| 0 <= i < r.goals.len() implies task_ok(#[trigger] r.goals[i])
        && r.goals[i].date == (Date { year, month, day: 1 }) by {
        if i >= j.goals.len() {
            assert(r.goals[i] == ts[i - j.goals.len()]);
        }
    }
    assert(linked(r));
}

#[verifier::rlimit(80)]
proof fn lemma_keeps_day(j: JournalModel, d: Date, ts: Seq<TaskModel>, year: i32, month: u32)
    requires
        readable(j, year, month),
        linked(j),
        section_good(SectionModel::Day(d, ts), year, month),
        add_section(j, SectionModel::Day(d, ts)) is Ok,
        pool_size(j) + ts.len() + 1 <= usize::MAX,
    ensures
        readable(add_section(j, SectionModel::Day(d, ts))->Ok_0, year, month),
        linked(add_section(j, SectionModel::Day(d, ts))->Ok_0),
        pool_size(add_section(j, SectionModel::Day(d, ts))->Ok_0) == pool_size(j) + ts.len() + 1,
{
    let s = SectionModel::Day(d, ts);
    let r = add_section(j, s)->Ok_0;
    let n = j.weeks.len() as int;
    let nd = j.days.len() as int;
    lemma_add_section_wf(j, s);
    assert forall|w: int| 0 <= w <= n implies goal_count(r, w) == goal_count(j, w) by {
        assert forall|i: int| 0 <= i < w implies (#[trigger] r.weeks[i]).goal_indices.len()
            == j.weeks[i].goal_indices.len() && r.weeks[i].day_indices.len()
            == j.weeks[i].day_indices.len() + (if i == n - 1 { 1int } else { 0int }) by {}
        lemma_goal_counts_same(r, j, w);
    }
    assert forall|w: int| 0 <= w < n implies day_count(r, w) == day_count(j, w) by {
        assert forall|i: int| 0 <= i < w implies (#[trigger] r.weeks[i]).goal_indices.len()
            == j.weeks[i].goal_indices.len() && r.weeks[i].day_indices.len()
            == j.weeks[i].day_indices.len() by {
            assert(r.weeks[i] == j.weeks[i]);
        }
        lemma_counts_same(r, j, w, 0);
    }
    assert(day_count(r, n) == day_count(j, n) + 1);
    assert forall|e: int| 0 <= e <= nd implies task_count(r, e) == task_count(j, e) by {
        assert forall|i: int| 0 <= i < e implies (#[trigger] r.days[i]).task_indices.len()
            == j.days[i].task_indices.len() by {
            assert(r.days[i] == j.days[i]);
        }
        lemma_counts_same(r, j, 0, e);
    }
    assert(task_count(r, nd + 1) == task_count(r, nd) + ts.len());
    let last = j.weeks[n - 1];
    assert(last.day_indices == index_range(day_count(j, n - 1), last.day_indices.len() as int));
    assert(day_count(j, n) == day_count(j, n - 1) + last.day_indices.len());
    assert forall|w: int| 0 <= w < r.weeks.len() implies (#[trigger] r.weeks[w]).goal_indices
        == index_range(goal_count(r, w), r.weeks[w].goal_indices.len() as int)
        && r.weeks[w].day_indices == index_range(
        day_count(r, w),
        r.weeks[w].day_indices.len() as int,
    ) by {
        if w < n - 1 {
            assert(r.weeks[w] == j.weeks[w]);
        } else {
            assert(r.weeks[w].day_indices =~= index_range(
                day_count(r, w),
                r.weeks[w].day_indices.len() as int,
            ));
        }
    }
    assert forall|e: int| 0 <= e < r.days.len() implies (#[trigger] r.days[e]).task_indices
        == index_range(task_count(r, e), r.days[e].task_indices.len() as int) by {
        if e < nd {
            assert(r.days[e] == j.days[e]);
        }
    }
    assert forall|e: int, k: int|
        0 <= e < r.days.len() && 0 <= k < r.days[e].task_indices.len() implies task_ok(
        #[trigger] r.tasks[r.days[e].task_indices[k] as int],
    ) && r.tasks[r.days[e].task_indices[k] as int].date == r.days[e].date by {
        if e < nd {
            assert(r.days[e] == j.days[e]);
            assert(j.days[e].task_indices[k] < j.tasks.len());
            assert(r.tasks[j.days[e].task_indices[k] as int] == j.tasks[j.days[e].task_indices[k] as int]);
        } else {
            assert(r.days[e].task_indices[k] as int == j.tasks.len() + k);
            assert(r.tasks[j.tasks.len() + k] == ts[k]);
        }
    }
    assert forall|e: int| 0 <= e < r.days.len() implies (#[trigger] r.days[e]).date.year == year
        && r.days[e].date.month == month && r.days[e].date.day <= 99 by {
        if e < nd {
            assert(r.days[e] == j.days[e]);
        }
    }
    assert(linked(r));
}

proof fn lemma_goal_counts_same(j1: JournalModel, j2: JournalModel, w: int)
    requires
        0 <= w <= j1.weeks.len(),
        w <= j2.weeks.len(),
        forall|i: int|
            0 <= i < w ==> (#[trigger] j1.weeks[i]).goal_indices.len()
                == j2.weeks[i].goal_indices.len(),
    ensures
        goal_count(j1, w) == goal_count(j2, w),
    decreases w,
{
    if w > 0 {
        lemma_goal_counts_same(j1, j2, w - 1);
    }
}

proof fn lemma_build_shape(ls: Seq<Seq<char>>, k: int, year: i32, month: u32)
    requires
        ls.len() <= usize::MAX,
        0 <= k <= sections_of(ls).len(),
        build_from(empty_journal(), ls, sections_of(ls), k, year, month) is Ok,
    ensures
        readable(build_from(empty_journal(), ls, sections_of(ls), k, year, month)->Ok_0, year, month),
        linked(build_from(empty_journal(), ls, sections_of(ls), k, year, month)->Ok_0),
        pool_size(build_from(empty_journal(), ls, sections_of(ls), k, year, month)->Ok_0) <= (if k
            == 0 {
            0
        } else {
            sections_of(ls)[k - 1].1
        }),
    decreases k,
{
    let secs = sections_of(ls);
    if k > 0 {
        lemma_build_shape(ls, k - 1, year, month);
        let h = header_positions(ls, ls.len() as int);
        lemma_header_positions(ls, ls.len() as int);
        assert(header_line(ls[h[0]]));
        lemma_sections_partition(ls);
        let j = build_from(empty_journal(), ls, secs, k - 1, year, month)->Ok_0;
        let (b, e) = secs[k - 1];
        let s = section_spec(ls, b, e, year, month)->Ok_0;
        lemma_section_good(ls, b, e, year, month);
        if k > 1 {
            assert(secs[k - 2].1 == secs[k - 1].0);
        }
        match s {
            SectionModel::Week(ts) => {
                lemma_keeps_week(j, ts, year, month);
            },
            SectionModel::Day(d, ts) => {
                lemma_keeps_day(j, d, ts, year, month);
            },
            _ => {
                lemma_keeps_plain(j, s, year, month);
            },
        }
    }
}

/// Writing out a journal read from the lines of a month, and reading what was written
/// for the same month, gives the same journal again: the same milestones, backlog,
/// goals and tasks, and the same weeks and days.
pub proof fn lemma_round_trip(ls: Seq<Seq<char>>, year: i32, month: u32)
    requires
        ls.len() <= usize::MAX,
        build_spec(ls, year, month) is Ok,
    ensures
        build_spec(render_lines(build_spec(ls, year, month)->Ok_0), year, month) == build_spec(
            ls,
            year,
            month,
        ),
{
    let j = build_spec(ls, year, month)->Ok_0;
    lemma_build_shape(ls, sections_of(ls).len() as int, year, month);
    let n = j.weeks.len() as int;
    lemma_weeks(j, n, year, month);
    lemma_add_weeks(j, n);
    assert(render_lines(j) == head_lines(j) + weeks_lines(j, n));
    let f = first_weeks(j, n);
    assert(f.weeks =~= j.weeks);
    assert(f.days =~= j.days);
    assert(f.goals =~= j.goals);
    assert(f.tasks =~= j.tasks);
    assert(f == j);
    let out = render_lines(j);
    lemma_fixed_headers();
    assert(out[0] == "# Milestones"@);
    lemma_header_positions(out, out.len() as int);
    assert(out.subrange(0, out.len() as int) =~= out);
    assert(header_positions(out, out.len() as int).len() > 0);
}

/// No two weeks share a goal or a day, nor two days a task: the positions of an earlier
/// week or day all come before those of a later one.
pub open spec fn positions_apart(j: JournalModel) -> bool {
    &&& forall|w1: int, w2: int, a: int, b: int|
        0 <= w1 < w2 < j.weeks.len() && 0 <= a < j.weeks[w1].goal_indices.len() && 0 <= b
            < j.weeks[w2].goal_indices.len() ==> #[trigger] j.weeks[w1].goal_indices[a]
            < #[trigger] j.weeks[w2].goal_indices[b]
    &&& forall|w1: int, w2: int, a: int, b: int|
        0 <= w1 < w2 < j.weeks.len() && 0 <= a < j.weeks[w1].day_indices.len() && 0 <= b
            < j.weeks[w2].day_indices.len() ==> #[trigger] j.weeks[w1].day_indices[a]
            < #[trigger] j.weeks[w2].day_indices[b]
    &&& forall|d1: int, d2: int, a: int, b: int|
        0 <= d1 < d2 < j.days.len() && 0 <= a < j.days[d1].task_indices.len() && 0 <= b
            < j.days[d2].task_indices.len() ==> #[trigger] j.days[d1].task_indices[a]
            < #[trigger] j.days[d2].task_indices[b]
}

proof fn lemma_ranges_apart(x: Seq<usize>, gx: int, y: Seq<usize>, gy: int, a: int, b: int)
    requires
        x == index_range(gx, x.len() as int),
        y == index_range(gy, y.len() as int),
        0 <= gx,
        gx + x.len() <= gy,
        gy + y.len() <= usize::MAX,
        0 <= a < x.len(),
        0 <= b < y.len(),
    ensures
        x[a] < y[b],
{
    assert(x[a] == (gx + a) as usize);
    assert(y[b] == (gy + b) as usize);
}

proof fn lemma_goals_apart(j: JournalModel, w1: int, w2: int, a: int, b: int)
    requires
        linked(j),
        0 <= w1 < w2 < j.weeks.len(),
        0 <= a < j.weeks[w1].goal_indices.len(),
        0 <= b < j.weeks[w2].goal_indices.len(),
    ensures
        j.weeks[w1].goal_indices[a] < j.weeks[w2].goal_indices[b],
{
    let n = j.weeks.len() as int;
    lemma_counts_grow(j, w1 + 1, w2);
    lemma_counts_grow(j, w2 + 1, n);
    lemma_counts_grow(j, 0, w1);
    let x = j.weeks[w1].goal_indices;
    let y = j.weeks[w2].goal_indices;
    lemma_ranges_apart(x, goal_count(j, w1), y, goal_count(j, w2), a, b);
}

proof fn lemma_days_apart(j: JournalModel, w1: int, w2: int, a: int, b: int)
    requires
        linked(j),
        0 <= w1 < w2 < j.weeks.len(),
        0 <= a < j.weeks[w1].day_indices.len(),
        0 <= b < j.weeks[w2].day_indices.len(),
    ensures
        j.weeks[w1].day_indices[a] < j.weeks[w2].day_indices[b],
{
    let n = j.weeks.len() as int;
    lemma_counts_grow(j, w1 + 1, w2);
    lemma_counts_grow(j, w2 + 1, n);
    lemma_counts_grow(j, 0, w1);
    let x = j.weeks[w1].day_indices;
    let y = j.weeks[w2].day_indices;
    lemma_ranges_apart(x, day_count(j, w1), y, day_count(j, w2), a, b);
}

proof fn lemma_tasks_apart(j: JournalModel, d1: int, d2: int, a: int, b: int)
    requires
        linked(j),
        0 <= d1 < d2 < j.days.len(),
        0 <= a < j.days[d1].task_indices.len(),
        0 <= b < j.days[d2].task_indices.len(),
    ensures
        j.days[d1].task_indices[a] < j.days[d2].task_indices[b],
{
    let n = j.days.len() as int;
    lemma_counts_grow(j, d1 + 1, d2);
    lemma_counts_grow(j, d2 + 1, n);
    lemma_counts_grow(j, 0, d1);
    let x = j.days[d1].task_indices;
    let y = j.days[d2].task_indices;
    lemma_ranges_apart(x, task_count(j, d1), y, task_count(j, d2), a, b);
}

proof fn lemma_linked_apart(j: JournalModel)
    requires
        linked(j),
    ensures
        positions_apart(j),
{
    assert forall|w1: int, w2: int, a: int, b: int|
        0 <= w1 < w2 < j.weeks.len() && 0 <= a < j.weeks[w1].goal_indices.len() && 0 <= b
            < j.weeks[w2].goal_indices.len() implies #[trigger] j.weeks[w1].goal_indices[a]
        < #[trigger] j.weeks[w2].goal_indices[b] by {
        lemma_goals_apart(j, w1, w2, a, b);
    }
    assert forall|w1: int, w2: int, a: int, b: int|
        0 <= w1 < w2 < j.weeks.len() && 0 <= a < j.weeks[w1].day_indices.len() && 0 <= b
            < j.weeks[w2].day_indices.len() implies #[trigger] j.weeks[w1].day_indices[a]
        < #[trigger] j.weeks[w2].day_indices[b] by {
        lemma_days_apart(j, w1, w2, a, b);
    }
    assert forall|d1: int, d2: int, a: int, b: int|
        0 <= d1 < d2 < j.days.len() && 0 <= a < j.days[d1].task_indices.len() && 0 <= b
            < j.days[d2].task_indices.len() implies #[trigger] j.days[d1].task_indices[a]
        < #[trigger] j.days[d2].task_indices[b] by {
        lemma_tasks_apart(j, d1, d2, a, b);
    }
}

/// A journal read from lines keeps every stored position inside its pool, and no two
/// weeks or days share a position.
pub proof fn lemma_built_layout(ls: Seq<Seq<char>>, year: i32, month: u32)
    requires
        ls.len() <= usize::MAX,
        build_spec(ls, year, month) is Ok,
    ensures
        build_spec(ls, year, month)->Ok_0.wf(),
        positions_apart(build_spec(ls, year, month)->Ok_0),
{
    lemma_build_shape(ls, sections_of(ls).len() as int, year, month);
    lemma_linked_apart(build_spec(ls, year, month)->Ok_0);
}

} // verus!
