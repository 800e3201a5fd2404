use dayplan::day_section::DaySection;
use dayplan::repository::{RepositoryError, TaskFile, TaskFileError, TaskRepository};
use dayplan::task::{EncodeError, ParseError, TaskEntry};

fn entry(importance: u8, difficulty: u8, name: &str) -> TaskEntry {
    TaskEntry { importance, difficulty, name: name.to_string() }
}

fn file(text: &str) -> TaskFile {
    TaskFile { text: text.to_string() }
}

#[test]
fn empty_file_lists_nothing() {
    assert_eq!(TaskFile::new().list(), Ok(vec![]));
    assert_eq!(file("").list(), Ok(vec![]));
    assert_eq!(file("\n\n\n").list(), Ok(vec![]));
}

#[test]
fn list_keeps_the_order_of_the_lines() {
    let tasks = file("1-2-first\n9-9-second\n1-2-third\n").list();
    assert_eq!(tasks, Ok(vec![entry(1, 2, "first"), entry(9, 9, "second"), entry(1, 2, "third")]));
}

#[test]
fn list_reads_a_last_line_without_line_break() {
    assert_eq!(file("1-2-first\n3-4-last").list(), Ok(vec![entry(1, 2, "first"), entry(3, 4, "last")]));
    assert_eq!(file("3-4-only").list(), Ok(vec![entry(3, 4, "only")]));
}

#[test]
fn list_leaves_out_blank_lines() {
    let tasks = file("\n1-2-a\n\n   \n\t\n3-4-b\n\r\n").list();
    assert_eq!(tasks, Ok(vec![entry(1, 2, "a"), entry(3, 4, "b")]));
}

#[test]
fn list_reports_the_first_faulty_line_with_its_number() {
    assert_eq!(
        file("1-2-a\n\nnot a task\n3-4-b\nx-y-z\n").list(),
        Err(TaskFileError { line: 3, cause: ParseError::MissingSeparator })
    );
    assert_eq!(
        file("a-2-first").list(),
        Err(TaskFileError { line: 1, cause: ParseError::InvalidImportance })
    );
    assert_eq!(
        file("1-2-a\n1-22-b\n").list(),
        Err(TaskFileError { line: 2, cause: ParseError::InvalidDifficulty })
    );
    assert_eq!(
        file("\n\n\n1-2-\n").list(),
        Err(TaskFileError { line: 4, cause: ParseError::EmptyName })
    );
}

#[test]
fn add_writes_a_line_at_the_end() {
    let mut tasks = TaskFile::new();
    assert_eq!(tasks.add(&entry(9, 2, "write-report")), Ok(()));
    assert_eq!(tasks.text, "9-2-write-report\n");
    assert_eq!(tasks.add(&entry(1, 1, "rest")), Ok(()));
    assert_eq!(tasks.text, "9-2-write-report\n1-1-rest\n");
}

#[test]
fn add_closes_an_open_last_line_first() {
    let mut tasks = file("1-2-edited by hand");
    assert_eq!(tasks.add(&entry(3, 4, "new")), Ok(()));
    assert_eq!(tasks.text, "1-2-edited by hand\n3-4-new\n");
    assert_eq!(tasks.list(), Ok(vec![entry(1, 2, "edited by hand"), entry(3, 4, "new")]));
}

#[test]
fn added_task_is_listed_last() {
    let mut tasks = file("5-5-a\n\n6-6-b\n\n");
    let before = tasks.list().expect("the file holds tasks only");
    assert_eq!(tasks.add(&entry(0, 0, "c")), Ok(()));
    let mut expected = before;
    expected.push(entry(0, 0, "c"));
    assert_eq!(tasks.list(), Ok(expected));
}

#[test]
fn add_refuses_a_task_without_line_and_changes_nothing() {
    let mut tasks = file("5-5-a\n");
    assert_eq!(tasks.add(&entry(10, 0, "c")), Err(EncodeError::ImportanceOutOfRange));
    assert_eq!(tasks.add(&entry(0, 10, "c")), Err(EncodeError::DifficultyOutOfRange));
    assert_eq!(tasks.add(&entry(0, 0, "")), Err(EncodeError::EmptyName));
    assert_eq!(tasks.add(&entry(0, 0, "a\nb")), Err(EncodeError::LineBreakInName));
    assert_eq!(tasks.text, "5-5-a\n");
}

#[test]
fn add_to_a_faulty_file_keeps_the_fault_reported() {
    let mut tasks = file("oops\n");
    assert_eq!(tasks.add(&entry(1, 1, "fine")), Ok(()));
    assert_eq!(tasks.list(), Err(TaskFileError { line: 1, cause: ParseError::MissingSeparator }));
}

#[test]
fn category_without_file_lists_nothing() {
    let repository = TaskRepository::new("/home/me/todos".to_string());
    for category in [DaySection::Morning, DaySection::Afternoon, DaySection::Evening, DaySection::Night] {
        assert!(repository.file_of(category).is_none());
        assert_eq!(repository.list(category), Ok(vec![]));
    }
}

#[test]
fn add_then_open_backing_file_holds_the_line() {
    let mut repository = TaskRepository::new("/home/me/todos".to_string());
    let task = dayplan::task::decode("9-2-write-report").expect("the argument is a task");
    assert_eq!(repository.add(DaySection::Evening, &task), Ok(()));
    assert_eq!(repository.open(DaySection::Evening), "/home/me/todos/evening.md");
    let backing = repository.file_of(DaySection::Evening).as_ref().expect("add made the file");
    assert!(backing.text.lines().any(|line| line == "9-2-write-report"));
    assert_eq!(backing.text, "9-2-write-report\n");
}

#[test]
fn add_touches_one_category_only() {
    let mut repository = TaskRepository::new("root".to_string());
    repository.afternoon = Some(file("1-1-there\n"));
    assert_eq!(repository.add(DaySection::Morning, &entry(2, 2, "new")), Ok(()));
    assert_eq!(repository.list(DaySection::Morning), Ok(vec![entry(2, 2, "new")]));
    assert_eq!(repository.list(DaySection::Afternoon), Ok(vec![entry(1, 1, "there")]));
    assert!(repository.evening.is_none());
    assert!(repository.night.is_none());
    assert_eq!(repository.root, "root");
}

#[test]
fn refused_add_makes_no_file() {
    let mut repository = TaskRepository::new("root".to_string());
    assert_eq!(repository.add(DaySection::Night, &entry(1, 1, "")), Err(EncodeError::EmptyName));
    assert!(repository.night.is_none());
}

#[test]
fn list_sees_what_was_changed_in_between() {
    let mut repository = TaskRepository::new("root".to_string());
    repository.morning = Some(file("1-1-a\n"));
    assert_eq!(repository.list(DaySection::Morning), Ok(vec![entry(1, 1, "a")]));
    repository.morning = Some(file("1-1-a\n2-2-b\n"));
    assert_eq!(repository.list(DaySection::Morning), Ok(vec![entry(1, 1, "a"), entry(2, 2, "b")]));
}

#[test]
fn list_names_category_and_line_of_a_fault() {
    let mut repository = TaskRepository::new("root".to_string());
    repository.night = Some(file("1-1-a\n\n1-1\n"));
    assert_eq!(
        repository.list(DaySection::Night),
        Err(RepositoryError { category: DaySection::Night, line: 3, cause: ParseError::MissingSeparator })
    );
}

#[test]
fn open_names_the_file_of_each_category() {
    let repository = TaskRepository::new("t".to_string());
    assert_eq!(repository.open(DaySection::Morning), "t/morning.md");
    assert_eq!(repository.open(DaySection::Afternoon), "t/afternoon.md");
    assert_eq!(repository.open(DaySection::Evening), "t/evening.md");
    assert_eq!(repository.open(DaySection::Night), "t/night.md");
}
