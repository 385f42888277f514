//! The journal: flat pools of milestones, backlog tasks, goals and day tasks, and
//! weeks and days that refer into the pools by index.

use vstd::prelude::*;
use crate::classify::header_line;
use crate::date::Date;
use crate::error::JournalError;
use crate::section::{
    parse_section, section_spec, string_views, task_views, FileSection, SectionModel,
};
use crate::segment::{
    find_sections, header_lines, header_positions, lemma_header_positions, lemma_sections_partition,
    sections_of, texts,
};
use crate::task::{Task, TaskModel};

verus! {

/// A week: the positions of its goals in the goal pool and of its days in the day list.
#[derive(Debug, Clone)]
pub struct JournalWeek {
    pub goal_indices: Vec<usize>,
    pub day_indices: Vec<usize>,
}

/// A day: its date and the positions of its tasks in the task pool.
#[derive(Debug, Clone)]
pub struct JournalDay {
    pub date: Date,
    pub task_indices: Vec<usize>,
}

/// Goals and tasks sit in flat pools, so that they can be walked in one pass; weeks
/// and days keep positions into the pools, from which the document's tree is rebuilt.
#[derive(Debug, Clone)]
pub struct Journal {
    pub milestones: Vec<String>,
    pub backlog: Vec<Task>,
    pub weeks: Vec<JournalWeek>,
    pub days: Vec<JournalDay>,
    pub goals: Vec<Task>,
    pub tasks: Vec<Task>,
}

pub struct WeekModel {
    pub goal_indices: Seq<usize>,
    pub day_indices: Seq<usize>,
}

pub struct DayModel {
    pub date: Date,
    pub task_indices: Seq<usize>,
}

pub struct JournalModel {
    pub milestones: Seq<Seq<char>>,
    pub backlog: Seq<TaskModel>,
    pub weeks: Seq<WeekModel>,
    pub days: Seq<DayModel>,
    pub goals: Seq<TaskModel>,
    pub tasks: Seq<TaskModel>,
}

impl View for JournalWeek {
    type V = WeekModel;

    open spec fn view(&self) -> WeekModel {
        WeekModel { goal_indices: self.goal_indices@, day_indices: self.day_indices@ }
    }
}

impl View for JournalDay {
    type V = DayModel;

    open spec fn view(&self) -> DayModel {
        DayModel { date: self.date, task_indices: self.task_indices@ }
    }
}

pub open spec fn week_views(v: Seq<JournalWeek>) -> Seq<WeekModel> {
    v.map_values(|w: JournalWeek| w@)
}

pub open spec fn day_views(v: Seq<JournalDay>) -> Seq<DayModel> {
    v.map_values(|d: JournalDay| d@)
}

impl View for Journal {
    type V = JournalModel;

    open spec fn view(&self) -> JournalModel {
        JournalModel {
            milestones: string_views(self.milestones@),
            backlog: task_views(self.backlog@),
            weeks: week_views(self.weeks@),
            days: day_views(self.days@),
            goals: task_views(self.goals@),
            tasks: task_views(self.tasks@),
        }
    }
}

/// The `n` consecutive positions that start at `start`.
pub open spec fn index_range(start: int, n: int) -> Seq<usize> {
    Seq::new(n as nat, |k: int| (start + k) as usize)
}

pub open spec fn empty_journal() -> JournalModel {
    JournalModel {
        milestones: Seq::empty(),
        backlog: Seq::empty(),
        weeks: Seq::empty(),
        days: Seq::empty(),
        goals: Seq::empty(),
        tasks: Seq::empty(),
    }
}

impl JournalModel {
    /// Every stored position lies inside its pool, and every day's date exists.
    pub open spec fn wf(self) -> bool {
        &&& forall|w: int, k: int|
            0 <= w < self.weeks.len() && 0 <= k < self.weeks[w].goal_indices.len()
                ==> #[trigger] self.weeks[w].goal_indices[k] < self.goals.len()
        &&& forall|w: int, k: int|
            0 <= w < self.weeks.len() && 0 <= k < self.weeks[w].day_indices.len()
                ==> #[trigger] self.weeks[w].day_indices[k] < self.days.len()
        &&& forall|d: int, k: int|
            0 <= d < self.days.len() && 0 <= k < self.days[d].task_indices.len()
                ==> #[trigger] self.days[d].task_indices[k] < self.tasks.len()
        &&& forall|d: int| 0 <= d < self.days.len() ==> (#[trigger] self.days[d]).date.valid()
    }
}

impl Journal {
    pub open spec fn wf(&self) -> bool {
        self@.wf()
    }
}

/// The journal after one more section: milestones and backlog tasks join their pools;
/// a week section adds a week with its goals; a day section adds a day with its tasks
/// to the latest week, and fails when there is no week yet.
pub open spec fn add_section(j: JournalModel, s: SectionModel) -> Result<
    JournalModel,
    JournalError,
> {
    match s {
        SectionModel::Milestones(ms) => Ok(JournalModel { milestones: j.milestones + ms, ..j }),
        SectionModel::Backlog(ts) => Ok(JournalModel { backlog: j.backlog + ts, ..j }),
        SectionModel::Week(ts) => Ok(
            JournalModel {
                weeks: j.weeks.push(
                    WeekModel {
                        goal_indices: index_range(j.goals.len() as int, ts.len() as int),
                        day_indices: Seq::empty(),
                    },
                ),
                goals: j.goals + ts,
                ..j
            },
        ),
        SectionModel::Day(date, ts) => if j.weeks.len() == 0 {
            Err(JournalError::DayWithoutWeek)
        } else {
            let last = j.weeks.last();
            Ok(
                JournalModel {
                    weeks: j.weeks.update(
                        j.weeks.len() - 1,
                        WeekModel {
                            goal_indices: last.goal_indices,
                            day_indices: last.day_indices.push(j.days.len() as usize),
                        },
                    ),
                    days: j.days.push(
                        DayModel {
                            date,
                            task_indices: index_range(j.tasks.len() as int, ts.len() as int),
                        },
                    ),
                    tasks: j.tasks + ts,
                    ..j
                },
            )
        },
        SectionModel::Unrecognized => Ok(j),
    }
}

/// The journal that adding the first `k` sections to `j0` gives, or the first error met.
pub open spec fn build_from(
    j0: JournalModel,
    ls: Seq<Seq<char>>,
    secs: Seq<(int, int)>,
    k: int,
    year: i32,
    month: u32,
) -> Result<JournalModel, JournalError>
    decreases k,
{
    if k <= 0 {
        Ok(j0)
    } else {
        match build_from(j0, ls, secs, k - 1, year, month) {
            Err(x) => Err(x),
            Ok(j) => match section_spec(ls, secs[k - 1].0, secs[k - 1].1, year, month) {
                Err(x) => Err(x),
                Ok(s) => add_section(j, s),
            },
        }
    }
}

/// The journal that adding every section of the lines to `j0` gives.
pub open spec fn run(j0: JournalModel, ls: Seq<Seq<char>>, year: i32, month: u32) -> Result<
    JournalModel,
    JournalError,
> {
    build_from(j0, ls, sections_of(ls), sections_of(ls).len() as int, year, month)
}

/// The journal that the lines describe, for the given year and month.
pub open spec fn build_spec(ls: Seq<Seq<char>>, year: i32, month: u32) -> Result<
    JournalModel,
    JournalError,
> {
    if sections_of(ls).len() == 0 {
        Err(JournalError::NoSectionsFound)
    } else {
        run(empty_journal(), ls, year, month)
    }
}

pub open spec fn section_ok(s: SectionModel) -> bool {
    match s {
        SectionModel::Day(d, _) => d.valid(),
        _ => true,
    }
}

pub proof fn lemma_section_ok(ls: Seq<Seq<char>>, b: int, e: int, year: i32, month: u32)
    requires
        section_spec(ls, b, e, year, month) is Ok,
    ensures
        section_ok(section_spec(ls, b, e, year, month)->Ok_0),
{
}

pub proof fn lemma_add_section_wf(j: JournalModel, s: SectionModel)
    requires
        j.wf(),
        section_ok(s),
        add_section(j, s) is Ok,
    ensures
        add_section(j, s)->Ok_0.wf(),
{
    let r = add_section(j, s)->Ok_0;
    match s {
        SectionModel::Week(ts) => {
            assert forall|w: int, k: int|
                0 <= w < r.weeks.len() && 0 <= k < r.weeks[w].goal_indices.len() implies #[trigger] r.weeks[w].goal_indices[k]
                < r.goals.len() by {
                if w < j.weeks.len() {
                    assert(r.weeks[w] == j.weeks[w]);
                }
            }
            assert forall|w: int, k: int|
                0 <= w < r.weeks.len() && 0 <= k < r.weeks[w].day_indices.len() implies #[trigger] r.weeks[w].day_indices[k]
                < r.days.len() by {
                if w < j.weeks.len() {
                    assert(r.weeks[w] == j.weeks[w]);
                }
            }
        },
        SectionModel::Day(date, ts) => {
            assert forall|w: int, k: int|
                0 <= w < r.weeks.len() && 0 <= k < r.weeks[w].goal_indices.len() implies #[trigger] r.weeks[w].goal_indices[k]
                < r.goals.len() by {
                assert(r.weeks[w].goal_indices == j.weeks[w].goal_indices);
            }
            assert forall|w: int, k: int|
                0 <= w < r.weeks.len() && 0 <= k < r.weeks[w].day_indices.len() implies #[trigger] r.weeks[w].day_indices[k]
                < r.days.len() by {
                if w < j.weeks.len() - 1 {
                    assert(r.weeks[w] == j.weeks[w]);
                } else if k < j.weeks[w].day_indices.len() {
                    assert(r.weeks[w].day_indices[k] == j.weeks[w].day_indices[k]);
                }
            }
            assert forall|d: int, k: int|
                0 <= d < r.days.len() && 0 <= k < r.days[d].task_indices.len() implies #[trigger] r.days[d].task_indices[k]
                < r.tasks.len() by {
                if d < j.days.len() {
                    assert(r.days[d] == j.days[d]);
                }
            }
            assert forall|d: int| 0 <= d < r.days.len() implies (#[trigger] r.days[d]).date.valid() by {
                if d < j.days.len() {
                    assert(r.days[d] == j.days[d]);
                }
            }
        },
        _ => {},
    }
}

fn positions(start: usize, end: usize) -> (r: Vec<usize>)
    requires
        start <= end,
    ensures
        r@ == index_range(start as int, end - start),
{
    let mut r: Vec<usize> = Vec::new();
    let mut i = start;
    while i < end
        invariant
            start <= i <= end,
            r@ == index_range(start as int, i - start),
        decreases end - i,
    {
        r.push(i);
        i = i + 1;
        assert(r@ =~= index_range(start as int, i - start));
    }
    r
}

impl Journal {
    pub fn new() -> (r: Journal)
        ensures
            r@ == empty_journal(),
            r.wf(),
    {
        let r = Journal {
            milestones: Vec::new(),
            backlog: Vec::new(),
            weeks: Vec::new(),
            days: Vec::new(),
            goals: Vec::new(),
            tasks: Vec::new(),
        };
        assert(r@.milestones =~= Seq::<Seq<char>>::empty());
        assert(r@.backlog =~= Seq::<TaskModel>::empty());
        assert(r@.weeks =~= Seq::<WeekModel>::empty());
        assert(r@.days =~= Seq::<DayModel>::empty());
        assert(r@.goals =~= Seq::<TaskModel>::empty());
        assert(r@.tasks =~= Seq::<TaskModel>::empty());
        r
    }

    /// Adds what one section holds.
    fn add(&mut self, section: FileSection) -> (r: Result<(), JournalError>)
        ensures
            match r {
                Ok(_) => add_section(old(self)@, section@) == Ok::<JournalModel, JournalError>(
                    final(self)@,
                ),
                Err(x) => add_section(old(self)@, section@) == Err::<JournalModel, JournalError>(
                    x,
                ),
            },
    {
        let ghost j = self@;
        match section {
            FileSection::Milestones(mut entries) => {
                let ghost ms = entries@;
                self.milestones.append(&mut entries);
                assert(self@.milestones =~= j.milestones + string_views(ms));
            },
            FileSection::Backlog(mut tasks) => {
                let ghost ts = tasks@;
                self.backlog.append(&mut tasks);
                assert(self@.backlog =~= j.backlog + task_views(ts));
            },
            FileSection::Week(mut goals) => {
                let ghost ts = goals@;
                let start = self.goals.len();
                self.goals.append(&mut goals);
                let end = self.goals.len();
                let goal_indices = positions(start, end);
                self.weeks.push(JournalWeek { goal_indices, day_indices: Vec::new() });
                assert(self@.goals =~= j.goals + task_views(ts));
                assert(self@.weeks =~= j.weeks.push(
                    WeekModel {
                        goal_indices: index_range(j.goals.len() as int, ts.len() as int),
                        day_indices: Seq::empty(),
                    },
                ));
            },
            FileSection::Day(date, mut tasks) => {
                if self.weeks.len() == 0 {
                    return Err(JournalError::DayWithoutWeek);
                }
                let ghost ts = tasks@;
                let day_index = self.days.len();
                let start = self.tasks.len();
                self.tasks.append(&mut tasks);
                let end = self.tasks.len();
                let task_indices = positions(start, end);
                self.days.push(JournalDay { date, task_indices });
                let mut week = self.weeks.pop().unwrap();
                week.day_indices.push(day_index);
                self.weeks.push(week);
                let ghost last = j.weeks.last();
                assert(self@.tasks =~= j.tasks + task_views(ts));
                assert(self@.days =~= j.days.push(
                    DayModel { date, task_indices: index_range(j.tasks.len() as int, ts.len() as int) },
                ));
                assert(self@.weeks =~= j.weeks.update(
                    j.weeks.len() - 1,
                    WeekModel {
                        goal_indices: last.goal_indices,
                        day_indices: last.day_indices.push(j.days.len() as usize),
                    },
                ));
            },
            FileSection::Unrecognized => {},
        }
        Ok(())
    }
}

/// Builds the journal of a month from the lines of its document. Each section is read
/// in document order and added; the first error ends the work.
pub fn parse_month(lines: &[&str], year: i32, month: u32) -> (r: Result<Journal, JournalError>)
    ensures
        match r {
            Ok(j) => build_spec(texts(lines@), year, month) == Ok::<JournalModel, JournalError>(
                j@,
            ) && j.wf(),
            Err(x) => build_spec(texts(lines@), year, month) == Err::<JournalModel, JournalError>(
                x,
            ),
        },
        header_lines(texts(lines@)).len() == 0 ==> r == Err::<Journal, JournalError>(
            JournalError::NoSectionsFound,
        ),
{
    let ghost ls = texts(lines@);
    proof {
        lemma_header_positions(ls, ls.len() as int);
        assert(ls.subrange(0, ls.len() as int) =~= ls);
    }
    let sections = find_sections(lines)?;
    let ghost secs = sections_of(ls);
    proof {
        let h = header_positions(ls, ls.len() as int);
        lemma_header_positions(ls, ls.len() as int);
        assert(header_line(ls[h[0]]));
        lemma_sections_partition(ls);
    }
    let mut journal = Journal::new();
    let mut k: usize = 0;
    while k < sections.len()
        invariant
            ls == texts(lines@),
            secs == sections_of(ls),
            secs.len() > 0,
            header_lines(ls).len() > 0,
            sections@.len() == secs.len(),
            forall|j: int|
                0 <= j < sections@.len() ==> (#[trigger] sections@[j]).0 == secs[j].0
                    && sections@[j].1 == secs[j].1,
            forall|j: int|
                0 <= j < secs.len() ==> 0 <= (#[trigger] secs[j]).0 < secs[j].1 <= ls.len(),
            ls.len() == lines@.len(),
            k <= sections@.len(),
            build_from(empty_journal(), ls, secs, k as int, year, month) == Ok::<
                JournalModel,
                JournalError,
            >(
                journal@,
            ),
            journal.wf(),
        decreases sections@.len() - k,
    {
        let (b, e) = sections[k];
        assert(secs[k as int].0 < secs[k as int].1);
        let section = parse_section(lines, b, e, year, month);
        match section {
            Err(x) => {
                proof {
                    lemma_build_error_stays(ls, secs, k as int + 1, secs.len() as int, year, month);
                }
                return Err(x);
            },
            Ok(sec) => {
                proof {
                    lemma_section_ok(ls, b as int, e as int, year, month);
                }
                let ghost before = journal@;
                match journal.add(sec) {
                    Err(x) => {
                        proof {
                            lemma_build_error_stays(ls, secs, k as int + 1, secs.len() as int, year, month);
                        }
                        return Err(x);
                    },
                    Ok(_) => {
                        proof {
                            lemma_add_section_wf(before, sec@);
                        }
                    },
                }
            },
        }
        k = k + 1;
    }
    Ok(journal)
}

proof fn lemma_build_error_stays(
    ls: Seq<Seq<char>>,
    secs: Seq<(int, int)>,
    k: int,
    n: int,
    year: i32,
    month: u32,
)
    requires
        0 <= k <= n,
        build_from(empty_journal(), ls, secs, k, year, month) is Err,
    ensures
        build_from(empty_journal(), ls, secs, n, year, month) == build_from(
            empty_journal(),
            ls,
            secs,
            k,
            year,
            month,
        ),
    decreases n - k,
{
    if n > k {
        lemma_build_error_stays(ls, secs, k, n - 1, year, month);
    }
}

} // verus!
