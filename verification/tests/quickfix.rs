use dayplan::day_section::{DaySchedule, DaySection, SectionRange};
use dayplan::quickfix::{deduplicate, gather, holds, show, QuickfixCompiler, Visibility};
use dayplan::ranking::{rank, ranks_above, shortlist_of};
use dayplan::repository::{RepositoryError, TaskFile, TaskRepository};
use dayplan::task::{EncodeError, ParseError, TaskEntry};

fn entry(importance: u8, difficulty: u8, name: &str) -> TaskEntry {
    TaskEntry { importance, difficulty, name: name.to_string() }
}

fn file(text: &str) -> Option<TaskFile> {
    Some(TaskFile { text: text.to_string() })
}

const EVENING: u64 = 19 * 3600;
const MORNING: u64 = 8 * 3600;

#[test]
fn importance_comes_first_then_difficulty() {
    assert!(ranks_above(&entry(5, 0, "a"), &entry(4, 9, "b")));
    assert!(!ranks_above(&entry(4, 9, "a"), &entry(5, 0, "b")));
    assert!(ranks_above(&entry(5, 3, "a"), &entry(5, 2, "b")));
    assert!(!ranks_above(&entry(5, 2, "a"), &entry(5, 3, "b")));
    assert!(!ranks_above(&entry(5, 2, "a"), &entry(5, 2, "b")));
}

#[test]
fn rank_orders_by_importance_then_difficulty_then_place() {
    let tasks = vec![
        entry(1, 9, "low but hard"),
        entry(9, 1, "high and easy"),
        entry(9, 5, "high and hard"),
        entry(1, 9, "low but hard, later"),
        entry(9, 5, "high and hard, later"),
        entry(0, 0, "least"),
    ];
    assert_eq!(rank(&tasks), vec![2, 4, 1, 0, 3, 5]);
    assert_eq!(rank(&vec![]), Vec::<usize>::new());
    assert_eq!(rank(&vec![entry(3, 3, "only")]), vec![0]);
}

#[test]
fn rank_keeps_the_order_of_equals() {
    let tasks: Vec<TaskEntry> = (0..20).map(|i| entry(4, 4, &format!("task {i}"))).collect();
    assert_eq!(rank(&tasks), (0..20).collect::<Vec<usize>>());
}

#[test]
fn rank_turns_a_rising_list_round() {
    let tasks: Vec<TaskEntry> =
        (0..100u8).map(|i| entry(i / 10, i % 10, &format!("task {i}"))).collect();
    assert_eq!(rank(&tasks), (0..100).rev().collect::<Vec<usize>>());
}

#[test]
fn shortlist_holds_the_lesser_of_limit_and_backlog() {
    let tasks = vec![entry(1, 1, "a"), entry(3, 3, "b"), entry(2, 2, "c")];
    assert_eq!(shortlist_of(&tasks, 0), vec![]);
    assert_eq!(shortlist_of(&tasks, 1), vec![entry(3, 3, "b")]);
    assert_eq!(shortlist_of(&tasks, 2), vec![entry(3, 3, "b"), entry(2, 2, "c")]);
    assert_eq!(shortlist_of(&tasks, 3), vec![entry(3, 3, "b"), entry(2, 2, "c"), entry(1, 1, "a")]);
    assert_eq!(shortlist_of(&tasks, 4), vec![entry(3, 3, "b"), entry(2, 2, "c"), entry(1, 1, "a")]);
    assert_eq!(shortlist_of(&tasks, usize::MAX).len(), 3);
    assert_eq!(shortlist_of(&vec![], 5), vec![]);
}

#[test]
fn shortlist_is_the_same_on_every_call() {
    let tasks = vec![entry(5, 5, "x"), entry(5, 5, "y"), entry(5, 5, "z"), entry(6, 0, "w")];
    let first = shortlist_of(&tasks, 3);
    assert_eq!(first, vec![entry(6, 0, "w"), entry(5, 5, "x"), entry(5, 5, "y")]);
    for _ in 0..5 {
        assert_eq!(shortlist_of(&tasks, 3), first);
    }
}

#[test]
fn deduplicate_keeps_the_first_of_equal_tasks() {
    let tasks = vec![
        entry(1, 1, "a"),
        entry(2, 2, "b"),
        entry(1, 1, "a"),
        entry(1, 2, "a"),
        entry(2, 2, "b"),
        entry(1, 1, "a"),
    ];
    assert_eq!(deduplicate(&tasks), vec![entry(1, 1, "a"), entry(2, 2, "b"), entry(1, 2, "a")]);
    assert_eq!(deduplicate(&vec![]), vec![]);
    let distinct = vec![entry(1, 1, "a"), entry(1, 1, "b")];
    assert_eq!(deduplicate(&distinct), distinct);
    assert!(holds(&tasks, &entry(1, 2, "a")));
    assert!(!holds(&tasks, &entry(2, 1, "a")));
}

#[test]
fn quickfix_of_empty_backlog_at_evening_is_empty() {
    let compiler = QuickfixCompiler::standard();
    let missing = TaskRepository::new("todos".to_string());
    assert_eq!(compiler.compile(EVENING, &missing, 3), Ok(vec![]));
    let mut empty = TaskRepository::new("todos".to_string());
    empty.morning = file("");
    empty.afternoon = file("");
    empty.evening = file("");
    empty.night = file("\n");
    assert_eq!(compiler.compile(EVENING, &empty, 3), Ok(vec![]));
}

#[test]
fn quickfix_of_empty_backlog_prints_nothing() {
    let compiler = QuickfixCompiler::standard();
    let repository = TaskRepository::new("todos".to_string());
    let shortlist = compiler.compile(EVENING, &repository, 3).expect("no line is faulty");
    assert_eq!(show(&shortlist), Ok(String::new()));
}

#[test]
fn show_writes_one_task_on_each_line() {
    let tasks = vec![entry(8, 1, "call"), entry(2, 3, "tidy-up"), entry(2, 3, "cook")];
    assert_eq!(show(&tasks), Ok("8-1-call\n2-3-tidy-up\n2-3-cook\n".to_string()));
    assert_eq!(show(&vec![entry(0, 0, "x")]), Ok("0-0-x\n".to_string()));
}

#[test]
fn show_names_the_fault_of_the_first_task_without_line() {
    let tasks = vec![entry(8, 1, "fine"), entry(2, 30, "hard"), entry(20, 3, "high")];
    assert_eq!(show(&tasks), Err(EncodeError::DifficultyOutOfRange));
    assert_eq!(show(&vec![entry(1, 1, "")]), Err(EncodeError::EmptyName));
}

#[test]
fn shown_shortlist_lists_back_as_itself() {
    let tasks = vec![entry(8, 1, "call"), entry(2, 3, "tidy"), entry(2, 3, "cook")];
    let text = show(&tasks).expect("the tasks are valid");
    assert_eq!(TaskFile { text }.list(), Ok(tasks));
}

#[test]
fn quickfix_shows_the_category_of_the_section() {
    let compiler = QuickfixCompiler::standard();
    let mut repository = TaskRepository::new("todos".to_string());
    repository.morning = file("1-1-wake\n9-9-plan\n");
    repository.evening = file("2-2-read\n2-3-tidy\n8-1-call\n2-3-cook\n");
    assert_eq!(
        compiler.compile(EVENING, &repository, 3),
        Ok(vec![entry(8, 1, "call"), entry(2, 3, "tidy"), entry(2, 3, "cook")])
    );
    assert_eq!(
        compiler.compile(MORNING, &repository, 3),
        Ok(vec![entry(9, 9, "plan"), entry(1, 1, "wake")])
    );
    assert_eq!(compiler.compile(13 * 3600, &repository, 3), Ok(vec![]));
    assert_eq!(compiler.compile(EVENING, &repository, 0), Ok(vec![]));
}

#[test]
fn quickfix_drops_repeated_lines() {
    let compiler = QuickfixCompiler::standard();
    let mut repository = TaskRepository::new("todos".to_string());
    repository.evening = file("5-5-same\n5-5-same\n5-5-other\n5-5-same\n");
    assert_eq!(
        compiler.compile(EVENING, &repository, 10),
        Ok(vec![entry(5, 5, "same"), entry(5, 5, "other")])
    );
}

#[test]
fn quickfix_merges_the_categories_that_a_section_shows() {
    let mut visibility = Visibility::own();
    visibility.evening = vec![DaySection::Evening, DaySection::Night];
    let compiler = QuickfixCompiler { schedule: DaySchedule::standard(), visibility };
    let mut repository = TaskRepository::new("todos".to_string());
    repository.evening = file("3-3-e1\n7-7-both\n");
    repository.night = file("7-7-both\n3-3-n1\n9-0-n2\n");
    assert_eq!(
        compiler.compile(EVENING, &repository, 10),
        Ok(vec![entry(9, 0, "n2"), entry(7, 7, "both"), entry(3, 3, "e1"), entry(3, 3, "n1")])
    );
    assert_eq!(
        compiler.compile(23 * 3600, &repository, 2),
        Ok(vec![entry(9, 0, "n2"), entry(7, 7, "both")])
    );
}

#[test]
fn quickfix_surfaces_a_faulty_line() {
    let compiler = QuickfixCompiler::standard();
    let mut repository = TaskRepository::new("todos".to_string());
    repository.evening = file("3-3-fine\n33-broken\n");
    repository.morning = file("1-1-fine\n");
    assert_eq!(
        compiler.compile(EVENING, &repository, 1),
        Err(RepositoryError {
            category: DaySection::Evening,
            line: 2,
            cause: ParseError::MissingSeparator
        })
    );
    assert_eq!(compiler.compile(MORNING, &repository, 1), Ok(vec![entry(1, 1, "fine")]));
}

#[test]
fn gather_reads_categories_in_the_order_given() {
    let mut repository = TaskRepository::new("todos".to_string());
    repository.morning = file("1-1-m\n");
    repository.night = file("2-2-n\n");
    repository.evening = file("x\n");
    assert_eq!(
        gather(&repository, &vec![DaySection::Night, DaySection::Afternoon, DaySection::Morning]),
        Ok(vec![entry(2, 2, "n"), entry(1, 1, "m")])
    );
    assert_eq!(gather(&repository, &vec![]), Ok(vec![]));
    assert_eq!(
        gather(&repository, &vec![DaySection::Night, DaySection::Evening, DaySection::Morning]),
        Err(RepositoryError {
            category: DaySection::Evening,
            line: 1,
            cause: ParseError::MissingSeparator
        })
    );
}

#[test]
fn own_visibility_shows_each_section_its_category() {
    let visibility = Visibility::own();
    for section in [DaySection::Morning, DaySection::Afternoon, DaySection::Evening, DaySection::Night] {
        assert_eq!(visibility.categories_of(section), &vec![section]);
    }
}

#[test]
fn quickfix_follows_the_schedule_it_was_given() {
    let schedule = DaySchedule::new(vec![
        SectionRange { section: DaySection::Morning, start: 0, end: 720 },
        SectionRange { section: DaySection::Night, start: 720, end: 0 },
    ])
    .expect("two halves partition the day");
    let compiler = QuickfixCompiler { schedule, visibility: Visibility::own() };
    let mut repository = TaskRepository::new("todos".to_string());
    repository.morning = file("1-1-m\n");
    repository.night = file("2-2-n\n");
    repository.evening = file("3-3-e\n");
    assert_eq!(compiler.compile(EVENING, &repository, 5), Ok(vec![entry(2, 2, "n")]));
    assert_eq!(compiler.compile(MORNING, &repository, 5), Ok(vec![entry(1, 1, "m")]));
}
