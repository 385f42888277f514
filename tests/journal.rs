use journal::classify::{
    is_backlog_header, is_day_header, is_header, is_item_entry, is_milestone_header,
    is_week_header,
};
use journal::date::Date;
use journal::error::JournalError;
use journal::journal::{parse_month, Journal};
use journal::render::{day_header_text, decimal_text};
use journal::section::parse_day_number;
use journal::segment::find_sections;
use journal::task::decode_task;
use regex::Regex;

fn build(text: &str, year: i32, month: u32) -> Result<Journal, JournalError> {
    let lines: Vec<&str> = text.lines().collect();
    parse_month(&lines, year, month)
}

const DOC: &str = "# Milestones
- Ship the thing
- Write it up

# Backlog
- [TODO] [Home] Fix the sink
- [DONE] [Work] File expenses

# Weekly Goals
- [TODO] [Work] Finish draft
- [TODO] [Health] Run twice

## Monday, 2
- [DONE] [Work] Outline
- [TODO] [Home] Laundry

## Thursday, 5
- [TODO] [Work] Review

# Weekly Goals
- [TODO] [Work] Send draft

## Monday, 9
- [DONE] [Work] Send it
";

#[test]
fn decode_task_reads_fields_and_date() {
    let t = decode_task("- [TODO] [Work] Write report", 2019, 9, 5).unwrap();
    assert_eq!(t.status, "TODO");
    assert_eq!(t.category, "Work");
    assert_eq!(t.title, "Write report");
    assert_eq!(t.date, Date::new(2019, 9, 5));
}

#[test]
fn decode_task_rejects_incomplete_line() {
    assert_eq!(
        decode_task("- incomplete line", 2019, 9, 5).unwrap_err(),
        JournalError::MalformedTaskLine
    );
    assert_eq!(
        decode_task("- [TODO] [Work] ", 2019, 9, 5).unwrap_err(),
        JournalError::MalformedTaskLine
    );
    assert_eq!(
        decode_task("- [TO DO] [Work] Title", 2019, 9, 5).unwrap_err(),
        JournalError::MalformedTaskLine
    );
    assert_eq!(
        decode_task("- [TODO] [W0rk] Title", 2019, 9, 5).unwrap_err(),
        JournalError::MalformedTaskLine
    );
}

#[test]
fn decode_task_rejects_missing_date() {
    assert_eq!(
        decode_task("- [TODO] [Work] Title", 2019, 2, 29).unwrap_err(),
        JournalError::InvalidDate
    );
    assert!(decode_task("- [TODO] [Work] Title", 2020, 2, 29).is_ok());
}

#[test]
fn decode_task_takes_leftmost_match() {
    let t = decode_task("note - [A] [B] title - [C] [D] more", 2019, 9, 1).unwrap();
    assert_eq!(t.status, "A");
    assert_eq!(t.category, "B");
    assert_eq!(t.title, "title - [C] [D] more");
    let u = decode_task("- x - [Ok] [Yes] é ü", 2019, 9, 1).unwrap();
    assert_eq!(u.status, "Ok");
    assert_eq!(u.title, "é ü");
}

#[test]
fn decode_task_agrees_with_regex() {
    let re = Regex::new(r"- \[([A-Za-z]+)\] \[([A-Za-z]+)\] (.+)$").unwrap();
    let lines = [
        "- [TODO] [Work] Write report",
        "- [TODO] [Work]  spaced title ",
        "- [TODO][Work] Title",
        "- [] [Work] Title",
        "- [a] [b] c",
        "- [a] [b] c\nd",
        "- [a] [b] c\r",
        "x- [a] [b] c",
        "- [a] [b c] d - [e] [f] g",
        "- [ä] [b] c",
        "-  [a] [b] c",
        "",
        "- [A] [B] [C] [D] e",
    ];
    for line in lines.iter() {
        let ours = decode_task(line, 2019, 9, 1);
        match re.captures(line) {
            Some(caps) => {
                let t = ours.unwrap();
                assert_eq!(t.status, &caps[1]);
                assert_eq!(t.category, &caps[2]);
                assert_eq!(t.title, &caps[3]);
            }
            None => assert_eq!(ours.unwrap_err(), JournalError::MalformedTaskLine),
        }
    }
}

#[test]
fn classifiers() {
    assert!(is_item_entry("- a"));
    assert!(!is_item_entry("-a"));
    assert!(is_milestone_header("# Milestones"));
    assert!(!is_milestone_header("# Milestones "));
    assert!(is_backlog_header("# Backlog"));
    assert!(!is_backlog_header("## Backlog"));
    assert!(is_week_header("# Weekly Goals"));
    assert!(!is_week_header("## Weekly Goals"));
    assert!(is_day_header("## Sunday, 8"));
    assert!(is_day_header("## Wednesday"));
    assert!(!is_day_header("## sunday, 8"));
    assert!(!is_day_header("# Monday, 8"));
    assert!(is_header("#x"));
    assert!(!is_header(" #"));
    assert!(!is_header(""));
}

#[test]
fn sections_cover_from_first_header() {
    let lines = vec!["intro", "# A", "x", "## B", "# C", "y", "z"];
    let s = find_sections(&lines).unwrap();
    assert_eq!(s, vec![(1, 3), (3, 4), (4, 7)]);
    let one = vec!["# A"];
    assert_eq!(find_sections(&one).unwrap(), vec![(0, 1)]);
}

#[test]
fn no_header_means_no_sections() {
    let lines = vec!["a", "- b", " # c"];
    assert_eq!(find_sections(&lines).unwrap_err(), JournalError::NoSectionsFound);
    let empty: Vec<&str> = Vec::new();
    assert_eq!(find_sections(&empty).unwrap_err(), JournalError::NoSectionsFound);
    assert_eq!(build("- a\nb\n", 2019, 9).unwrap_err(), JournalError::NoSectionsFound);
}

#[test]
fn build_reads_whole_document() {
    let j = build(DOC, 2019, 9).unwrap();
    assert_eq!(j.milestones, vec!["- Ship the thing".to_string(), "- Write it up".to_string()]);
    assert_eq!(j.backlog.len(), 2);
    assert_eq!(j.backlog[1].title, "File expenses");
    assert_eq!(j.backlog[1].date, Date::new(2019, 9, 1));
    assert_eq!(j.goals.len(), 3);
    assert_eq!(j.tasks.len(), 4);
    assert_eq!(j.weeks.len(), 2);
    assert_eq!(j.weeks[0].goal_indices, vec![0, 1]);
    assert_eq!(j.weeks[0].day_indices, vec![0, 1]);
    assert_eq!(j.weeks[1].goal_indices, vec![2]);
    assert_eq!(j.weeks[1].day_indices, vec![2]);
    assert_eq!(j.days[0].task_indices, vec![0, 1]);
    assert_eq!(j.days[1].task_indices, vec![2]);
    assert_eq!(j.days[1].date, Date::new(2019, 9, 5));
    assert_eq!(j.tasks[2].date, Date::new(2019, 9, 5));
    assert_eq!(j.days[2].task_indices, vec![3]);
}

#[test]
fn day_before_week_fails() {
    let text = "# Backlog\n- [TODO] [Home] Sink\n## Monday, 2\n- [TODO] [Work] Outline\n";
    assert_eq!(build(text, 2019, 9).unwrap_err(), JournalError::DayWithoutWeek);
}

#[test]
fn week_without_days_serializes_goals_only() {
    let text = "# Weekly Goals\n- [TODO] [Work] Only goal\n";
    let j = build(text, 2019, 9).unwrap();
    assert_eq!(j.weeks.len(), 1);
    assert!(j.weeks[0].day_indices.is_empty());
    assert_eq!(
        j.serialize(),
        "# Milestones\n\n# Backlog\n\n# Weekly Goals\n- [TODO] [Work] Only goal\n"
    );
}

#[test]
fn two_weeks_keep_their_own_indices() {
    let text = "# Weekly Goals\n- [TODO] [A] g1\n## Monday, 2\n- [TODO] [A] t1\n\
                # Weekly Goals\n- [TODO] [B] g2\n## Tuesday, 10\n- [TODO] [B] t2\n";
    let j = build(text, 2019, 9).unwrap();
    assert_eq!(j.goals.len(), 2);
    assert_eq!(j.tasks.len(), 2);
    assert_eq!(j.weeks[0].goal_indices, vec![0]);
    assert_eq!(j.weeks[1].goal_indices, vec![1]);
    assert_eq!(j.weeks[0].day_indices, vec![0]);
    assert_eq!(j.weeks[1].day_indices, vec![1]);
    assert_eq!(j.days[0].task_indices, vec![0]);
    assert_eq!(j.days[1].task_indices, vec![1]);
    assert_eq!(j.goals[j.weeks[1].goal_indices[0]].title, "g2");
    assert_eq!(j.tasks[j.days[j.weeks[1].day_indices[0]].task_indices[0]].title, "t2");
}

#[test]
fn serialize_round_trip() {
    let j = build(DOC, 2019, 9).unwrap();
    let text = j.serialize();
    assert!(text.contains("## Monday, 2\n- [DONE] [Work] Outline\n"));
    assert!(text.contains("## Thursday, 5\n"));
    let k = build(&text, 2019, 9).unwrap();
    assert_eq!(k.milestones, j.milestones);
    assert_eq!(k.backlog.len(), j.backlog.len());
    assert_eq!(k.goals.len(), j.goals.len());
    assert_eq!(k.tasks.len(), j.tasks.len());
    for (a, b) in k.tasks.iter().zip(j.tasks.iter()) {
        assert_eq!(a.title, b.title);
        assert_eq!(a.status, b.status);
        assert_eq!(a.category, b.category);
        assert_eq!(a.date, b.date);
    }
    for (a, b) in k.goals.iter().zip(j.goals.iter()) {
        assert_eq!(a.title, b.title);
    }
    assert_eq!(k.serialize(), text);
}

#[test]
fn day_header_errors() {
    let bad_suffix = "# Weekly Goals\n## Monday, x\n";
    assert_eq!(build(bad_suffix, 2019, 9).unwrap_err(), JournalError::InvalidDayHeader);
    let no_day = "# Weekly Goals\n## Monday, 31\n";
    assert_eq!(build(no_day, 2019, 9).unwrap_err(), JournalError::InvalidDayHeader);
    let ok = "# Weekly Goals\n## Monday, 30\n";
    assert_eq!(build(ok, 2019, 9).unwrap().days[0].date, Date::new(2019, 9, 30));
}

#[test]
fn malformed_task_aborts_build() {
    let text = "# Backlog\n- [TODO] [Home] Sink\n- not a task\n";
    assert_eq!(build(text, 2019, 9).unwrap_err(), JournalError::MalformedTaskLine);
    assert_eq!(build("# Backlog\n- [A] [B] c\n", 2019, 13).unwrap_err(), JournalError::InvalidDate);
}

#[test]
fn unrecognized_sections_are_ignored() {
    let text = "lead\n# Notes\n- [TODO] [Home] ignored\n# Milestones\n- m\nnot an item\n";
    let j = build(text, 2019, 9).unwrap();
    assert_eq!(j.milestones, vec!["- m".to_string()]);
    assert!(j.backlog.is_empty() && j.goals.is_empty() && j.weeks.is_empty());
}

#[test]
fn day_numbers() {
    assert_eq!(parse_day_number("## Monday, 5"), Some(5));
    assert_eq!(parse_day_number("## Monday, 15"), Some(15));
    assert_eq!(parse_day_number("## Monday,5 "), Some(5));
    assert_eq!(parse_day_number("## Monday,+5"), Some(5));
    assert_eq!(parse_day_number("## Monday, 05"), Some(5));
    assert_eq!(parse_day_number("## Monday"), None);
    assert_eq!(parse_day_number("## Monday,  "), None);
    assert_eq!(parse_day_number("5"), None);
}

#[test]
fn dates_and_headers() {
    assert!(!Date::new(2019, 2, 29).is_valid());
    assert!(Date::new(2019, 9, 5).is_valid());
    assert_eq!(Date::new(2019, 9, 5).weekday(), 3);
    assert_eq!(day_header_text(Date::new(2019, 9, 5)), "## Thursday, 5");
    assert_eq!(day_header_text(Date::new(2019, 9, 29)), "## Sunday, 29");
    assert_eq!(decimal_text(0), "0");
    assert_eq!(decimal_text(4096), "4096");
}
