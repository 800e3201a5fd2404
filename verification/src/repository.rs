//! The backlog as it is kept: one text per category, one task on each line.
//!
//! Nothing is remembered between two readings: every listing parses the text
//! anew, so a text that was changed elsewhere is read as it now stands.

use crate::day_section::DaySection;
use crate::task::{
    decode_chars, decoded, encode, models, EncodeError, ParseError, TaskEntry, TaskModel,
    LINE_BREAK,
};
use crate::text::chars_of;
use vstd::prelude::*;
use vstd::string::StringExecFns;

verus! {

/// The lines of a text: what stands before, between and after its line
/// breaks. A text without a line break is one line; a text that ends in a
/// line break has an empty last line.
pub open spec fn lines_of(text: Seq<char>) -> Seq<Seq<char>>
    decreases text.len(),
{
    if text.len() == 0 {
        seq![Seq::<char>::empty()]
    } else {
        let before = lines_of(text.drop_last());
        if text.last() == LINE_BREAK {
            before.push(Seq::<char>::empty())
        } else {
            before.drop_last().push(before.last().push(text.last()))
        }
    }
}

/// The text whose lines are `lines`: the lines with a line break between each
/// two.
pub open spec fn joined(lines: Seq<Seq<char>>) -> Seq<char>
    decreases lines.len(),
{
    if lines.len() == 0 {
        Seq::<char>::empty()
    } else if lines.len() == 1 {
        lines[0]
    } else {
        joined(lines.drop_last()).push(LINE_BREAK) + lines.last()
    }
}

/// A character that does not make a line count as written on.
pub open spec fn is_space(c: char) -> bool {
    c == ' ' || c == '\t' || c == '\r'
}

/// A line that holds nothing but spaces, tabs and carriage returns.
pub open spec fn is_blank(line: Seq<char>) -> bool {
    forall|i: int| 0 <= i < line.len() ==> is_space(#[trigger] line[i])
}

/// A line of a task file that is no task.
#[derive(Clone, Copy, Debug, PartialEq, Eq, Structural)]
pub struct TaskFileError {
    /// The number of the line, the first line being 1.
    pub line: usize,
    /// Why the line is no task.
    pub cause: ParseError,
}

/// The tasks on the given lines in their order, blank lines left out; or the
/// first line that is neither blank nor a task.
pub open spec fn listed_lines(lines: Seq<Seq<char>>) -> Result<Seq<TaskModel>, TaskFileError>
    decreases lines.len(),
{
    if lines.len() == 0 {
        Ok(Seq::<TaskModel>::empty())
    } else {
        match listed_lines(lines.drop_last()) {
            Err(e) => Err(e),
            Ok(tasks) => if is_blank(lines.last()) {
                Ok(tasks)
            } else {
                match decoded(lines.last()) {
                    Ok(task) => Ok(tasks.push(task)),
                    Err(cause) => Err(TaskFileError { line: lines.len() as usize, cause }),
                }
            },
        }
    }
}

/// The tasks that a text holds, or its first line that is no task.
pub open spec fn listed(text: Seq<char>) -> Result<Seq<TaskModel>, TaskFileError> {
    listed_lines(lines_of(text))
}

/// The text with one more line at its end. A text that does not end in a
/// line break gets one first, so that the new line stands alone.
pub open spec fn appended(text: Seq<char>, line: Seq<char>) -> Seq<char> {
    let closed = if text.len() == 0 || text.last() == LINE_BREAK {
        text
    } else {
        text.push(LINE_BREAK)
    };
    (closed + line).push(LINE_BREAK)
}

/// Splits the characters of a text into its lines.
fn split_lines(chars: &Vec<char>) -> (lines: Vec<Vec<char>>)
    ensures
        lines.len() == lines_of(chars@).len(),
        forall|k: int| 0 <= k < lines.len() ==> (#[trigger] lines[k])@ == lines_of(chars@)[k],
{
    let mut lines: Vec<Vec<char>> = Vec::new();
    let mut current: Vec<char> = Vec::new();
    let mut i: usize = 0;
    assert(chars@.take(0) =~= Seq::<char>::empty());
    while i < chars.len()
        invariant
            i <= chars.len(),
            lines.len() + 1 == lines_of(chars@.take(i as int)).len(),
            forall|k: int|
                0 <= k < lines.len() ==> (#[trigger] lines[k])@ == lines_of(
                    chars@.take(i as int),
                )[k],
            current@ == lines_of(chars@.take(i as int)).last(),
        decreases chars.len() - i,
    {
        let c = chars[i];
        proof {
            assert(chars@.take(i + 1).drop_last() =~= chars@.take(i as int));
            assert(chars@.take(i + 1).last() == c);
        }
        if c == LINE_BREAK {
            lines.push(current);
            current = Vec::new();
        } else {
            current.push(c);
        }
        i += 1;
    }
    assert(chars@.take(chars.len() as int) =~= chars@);
    lines.push(current);
    lines
}

/// Whether a line holds nothing but spaces, tabs and carriage returns.
fn blank(line: &Vec<char>) -> (r: bool)
    ensures
        r == is_blank(line@),
{
    let mut i: usize = 0;
    while i < line.len()
        invariant
            i <= line.len(),
            forall|k: int| 0 <= k < i ==> is_space(#[trigger] line@[k]),
        decreases line.len() - i,
    {
        let c = line[i];
        if !(c == ' ' || c == '\t' || c == '\r') {
            return false;
        }
        i += 1;
    }
    true
}

/// A fault among the first lines is the fault of all the lines.
proof fn lemma_fault_stays(lines: Seq<Seq<char>>, upto: int)
    requires
        0 <= upto <= lines.len(),
        listed_lines(lines.take(upto)) is Err,
    ensures
        listed_lines(lines) == listed_lines(lines.take(upto)),
    decreases lines.len() - upto,
{
    if upto < lines.len() {
        assert(lines.take(upto + 1).drop_last() =~= lines.take(upto));
        lemma_fault_stays(lines, upto + 1);
    } else {
        assert(lines.take(upto) =~= lines);
    }
}

/// A text has at least one line.
proof fn lemma_lines_nonempty(text: Seq<char>)
    ensures
        lines_of(text).len() >= 1,
    decreases text.len(),
{
    if text.len() > 0 {
        lemma_lines_nonempty(text.drop_last());
    }
}

/// Characters other than line breaks, written at the end of a text, lengthen
/// its last line.
proof fn lemma_lines_append(text: Seq<char>, more: Seq<char>)
    requires
        forall|i: int| 0 <= i < more.len() ==> more[i] != LINE_BREAK,
    ensures
        lines_of(text + more) == lines_of(text).drop_last().push(lines_of(text).last() + more),
    decreases more.len(),
{
    let lines = lines_of(text);
    lemma_lines_nonempty(text);
    if more.len() == 0 {
        assert(text + more =~= text);
        assert(lines.last() + more =~= lines.last());
        assert(lines.drop_last().push(lines.last()) =~= lines);
    } else {
        let shorter = more.drop_last();
        lemma_lines_append(text, shorter);
        assert((text + more).drop_last() =~= text + shorter);
        assert((text + more).last() == more.last());
        let before = lines_of(text + shorter);
        assert(before.drop_last() =~= lines.drop_last());
        assert(before.last().push(more.last()) =~= lines.last() + more);
    }
}

/// Splitting a text into lines loses nothing: no line holds a line break, and
/// the lines joined by line breaks are the text again.
pub proof fn law_lines_rejoin(text: Seq<char>)
    ensures
        lines_of(text).len() >= 1,
        forall|k: int, i: int|
            0 <= k < lines_of(text).len() && 0 <= i < lines_of(text)[k].len() ==> lines_of(
                text,
            )[k][i] != LINE_BREAK,
        joined(lines_of(text)) == text,
    decreases text.len(),
{
    let lines = lines_of(text);
    if text.len() == 0 {
        assert(joined(lines) =~= text);
    } else {
        let shorter = text.drop_last();
        let before = lines_of(shorter);
        law_lines_rejoin(shorter);
        assert(shorter.push(text.last()) =~= text);
        if text.last() == LINE_BREAK {
            assert(lines.drop_last() =~= before);
            assert(joined(lines) =~= text);
        } else if before.len() == 1 {
            assert(lines =~= seq![before[0].push(text.last())]);
            assert(joined(lines) =~= text);
        } else {
            assert(lines.drop_last() =~= before.drop_last());
            assert(joined(lines) =~= (joined(before.drop_last()).push(LINE_BREAK)
                + before.last()).push(text.last()));
            assert(joined(lines) =~= text);
        }
    }
}

/// Joining lines loses nothing either: lines that hold no line break are the
/// lines of the text that they are joined to.
pub proof fn law_lines_of_joined(lines: Seq<Seq<char>>)
    requires
        lines.len() >= 1,
        forall|k: int, i: int|
            0 <= k < lines.len() && 0 <= i < lines[k].len() ==> lines[k][i] != LINE_BREAK,
    ensures
        lines_of(joined(lines)) == lines,
    decreases lines.len(),
{
    let nothing = Seq::<char>::empty();
    if lines.len() == 1 {
        lemma_lines_append(nothing, lines[0]);
        assert(nothing + lines[0] =~= lines[0]);
        assert(lines_of(nothing).drop_last().push(lines_of(nothing).last() + lines[0]) =~= lines);
    } else {
        let shorter = lines.drop_last();
        law_lines_of_joined(shorter);
        let closed = joined(shorter).push(LINE_BREAK);
        assert(closed.drop_last() =~= joined(shorter));
        assert(lines_of(closed) == shorter.push(nothing));
        lemma_lines_append(closed, lines.last());
        assert(nothing + lines.last() =~= lines.last());
        assert(shorter.push(nothing).drop_last().push(lines.last()) =~= lines);
    }
}

/// The lines that are not blank, in their order.
pub open spec fn written_lines(lines: Seq<Seq<char>>) -> Seq<Seq<char>> {
    lines.filter(|line: Seq<char>| !is_blank(line))
}

/// The tasks that the lines that are not blank decode to, in the order of the
/// lines.
pub open spec fn written_tasks(lines: Seq<Seq<char>>) -> Seq<TaskModel> {
    written_lines(lines).map_values(|line: Seq<char>| decoded(line)->Ok_0)
}

/// A listing holds the tasks of the lines that are not blank, in the order of
/// the lines.
pub proof fn law_listed_tasks_follow_the_lines(lines: Seq<Seq<char>>)
    ensures
        match listed_lines(lines) {
            Ok(tasks) => tasks == written_tasks(lines),
            Err(_) => true,
        },
    decreases lines.len(),
{
    reveal(Seq::filter);
    if lines.len() == 0 {
        assert(written_tasks(lines) =~= Seq::<TaskModel>::empty());
    } else {
        let shorter = lines.drop_last();
        law_listed_tasks_follow_the_lines(shorter);
        if let Ok(tasks) = listed_lines(lines) {
            if is_blank(lines.last()) {
                assert(written_lines(lines) == written_lines(shorter));
            } else {
                assert(written_lines(lines) == written_lines(shorter).push(lines.last()));
                assert(tasks =~= written_tasks(lines));
            }
        }
    }
}

/// The empty text lists no task.
pub proof fn law_empty_text_lists_nothing()
    ensures
        listed(Seq::<char>::empty()) == Ok::<Seq<TaskModel>, TaskFileError>(
            Seq::<TaskModel>::empty(),
        ),
{
    let lines = lines_of(Seq::<char>::empty());
    assert(lines.drop_last() =~= Seq::<Seq<char>>::empty());
    assert(is_blank(lines.last()));
    assert(listed_lines(lines.drop_last()) is Ok);
}

/// A line that is neither blank nor a task is reported with its number if
/// every line before it is blank or a task: no faulty line is passed over.
pub proof fn law_first_faulty_line_is_reported(lines: Seq<Seq<char>>, k: int)
    requires
        0 <= k < lines.len(),
        !is_blank(lines[k]),
        decoded(lines[k]) is Err,
        forall|j: int| 0 <= j < k ==> is_blank(lines[j]) || decoded(lines[j]) is Ok,
    ensures
        listed_lines(lines) == Err::<Seq<TaskModel>, TaskFileError>(
            TaskFileError { line: (k + 1) as usize, cause: decoded(lines[k])->Err_0 },
        ),
{
    law_clean_lines_are_listed(lines.take(k));
    assert(lines.take(k + 1).drop_last() =~= lines.take(k));
    lemma_fault_stays(lines, k + 1);
}

/// Lines that are each blank or a task are listed.
pub proof fn law_clean_lines_are_listed(lines: Seq<Seq<char>>)
    requires
        forall|j: int| 0 <= j < lines.len() ==> is_blank(lines[j]) || decoded(lines[j]) is Ok,
    ensures
        listed_lines(lines) is Ok,
    decreases lines.len(),
{
    if lines.len() > 0 {
        law_clean_lines_are_listed(lines.drop_last());
    }
}

/// The part of a line after its second separator holds no line break if the
/// line holds none.
proof fn lemma_decoded_name_within_line(line: Seq<char>)
    requires
        forall|i: int| 0 <= i < line.len() ==> line[i] != LINE_BREAK,
    ensures
        match decoded(line) {
            Ok(task) => task.valid(),
            Err(_) => true,
        },
{
    if let Ok(task) = decoded(line) {
        crate::task::law_encode_inverts_decode(line);
        assert(line =~= task.encoded());
        assert forall|i: int| 0 <= i < task.name.len() implies task.name[i] != LINE_BREAK by {
            assert(line[i + 4] == task.name[i]);
        }
    }
}

/// Every task that a text lists is valid, so it has a line of its own.
pub proof fn law_listed_tasks_are_valid(text: Seq<char>)
    ensures
        match listed(text) {
            Ok(tasks) => forall|i: int| 0 <= i < tasks.len() ==> (#[trigger] tasks[i]).valid(),
            Err(_) => true,
        },
{
    law_lines_rejoin(text);
    lemma_listed_lines_are_valid(lines_of(text));
}

/// Every task that lines without line breaks list is valid.
proof fn lemma_listed_lines_are_valid(lines: Seq<Seq<char>>)
    requires
        forall|k: int, i: int|
            0 <= k < lines.len() && 0 <= i < lines[k].len() ==> lines[k][i] != LINE_BREAK,
    ensures
        match listed_lines(lines) {
            Ok(tasks) => forall|i: int| 0 <= i < tasks.len() ==> (#[trigger] tasks[i]).valid(),
            Err(_) => true,
        },
    decreases lines.len(),
{
    if lines.len() > 0 {
        lemma_listed_lines_are_valid(lines.drop_last());
        lemma_decoded_name_within_line(lines.last());
    }
}

/// After a task was added, the file lists what it listed before and then the
/// new task; a file with a faulty line still reports that line.
pub proof fn law_added_task_is_listed_last(text: Seq<char>, task: TaskModel)
    requires
        task.valid(),
    ensures
        listed(appended(text, task.encoded())) == (match listed(text) {
            Ok(tasks) => Ok::<Seq<TaskModel>, TaskFileError>(tasks.push(task)),
            Err(e) => Err(e),
        }),
{
    let line = task.encoded();
    assert(line.len() == task.name.len() + 4);
    let closed = if text.len() == 0 || text.last() == LINE_BREAK {
        text
    } else {
        text.push(LINE_BREAK)
    };
    let lines = lines_of(text);
    let closed_lines = lines_of(closed);
    lemma_lines_nonempty(text);
    lemma_lines_nonempty(closed);
    if closed != text {
        assert(closed.drop_last() =~= text);
        assert(closed_lines.drop_last() =~= lines);
    }
    assert(closed_lines.last() =~= Seq::<char>::empty());
    assert(is_blank(closed_lines.last()));
    assert(listed_lines(closed_lines.drop_last()) == listed_lines(lines));
    assert forall|i: int| 0 <= i < line.len() implies line[i] != LINE_BREAK by {
        if i >= 4 {
            assert(line[i] == task.name[i - 4]);
        }
    }
    lemma_lines_append(closed, line);
    let with_line = closed_lines.drop_last().push(line);
    assert(closed_lines.last() + line =~= line);
    assert(lines_of(closed + line) == with_line);
    let all = lines_of((closed + line).push(LINE_BREAK));
    assert((closed + line).push(LINE_BREAK).drop_last() =~= closed + line);
    assert(all == with_line.push(Seq::<char>::empty()));
    assert(all.drop_last() =~= with_line);
    assert(is_blank(all.last()));
    assert(with_line.drop_last() =~= closed_lines.drop_last());
    assert(!is_blank(line)) by {
        assert(!is_space(line[0]));
    }
    crate::task::law_decode_inverts_encode(task);
    assert(with_line.last() == line);
    assert(listed_lines(with_line) == (match listed_lines(lines) {
        Ok(tasks) => Ok::<Seq<TaskModel>, TaskFileError>(tasks.push(task)),
        Err(e) => Err(e),
    }));
    assert(listed_lines(all) == listed_lines(with_line));
}

/// The raw text of one category of the backlog.
pub struct TaskFile {
    pub text: String,
}

impl View for TaskFile {
    type V = Seq<char>;

    open spec fn view(&self) -> Seq<char> {
        self.text@
    }
}

impl TaskFile {
    /// A task file without a line.
    pub fn new() -> (file: TaskFile)
        ensures
            file@ == Seq::<char>::empty(),
    {
        TaskFile { text: String::new() }
    }

    /// The tasks of the file in the order of their lines, blank lines left
    /// out; or the first line that is neither blank nor a task.
    pub fn list(&self) -> (r: Result<Vec<TaskEntry>, TaskFileError>)
        ensures
            match r {
                Ok(tasks) => listed(self@) == Ok::<Seq<TaskModel>, TaskFileError>(models(tasks@)),
                Err(e) => listed(self@) == Err::<Seq<TaskModel>, TaskFileError>(e),
            },
    {
        let chars = chars_of(self.text.as_str());
        let lines = split_lines(&chars);
        let ghost all = lines_of(chars@);
        let mut tasks: Vec<TaskEntry> = Vec::new();
        let mut k: usize = 0;
        assert(all.take(0) =~= Seq::<Seq<char>>::empty());
        assert(models(tasks@) =~= Seq::<TaskModel>::empty());
        while k < lines.len()
            invariant
                k <= lines.len(),
                all == lines_of(self@),
                lines.len() == all.len(),
                forall|j: int| 0 <= j < lines.len() ==> (#[trigger] lines[j])@ == all[j],
                listed_lines(all.take(k as int)) == Ok::<Seq<TaskModel>, TaskFileError>(
                    models(tasks@),
                ),
            decreases lines.len() - k,
        {
            proof {
                assert(all.take(k + 1).drop_last() =~= all.take(k as int));
                assert(all.take(k + 1).last() == all[k as int]);
            }
            if !blank(&lines[k]) {
                match decode_chars(&lines[k]) {
                    Ok(task) => {
                        assert(models(tasks@.push(task)) =~= models(tasks@).push(task@));
                        tasks.push(task);
                    },
                    Err(cause) => {
                        proof {
                            lemma_fault_stays(all, k + 1);
                        }
                        return Err(TaskFileError { line: k + 1, cause });
                    },
                }
            }
            k += 1;
        }
        assert(all.take(lines.len() as int) =~= all);
        Ok(tasks)
    }

    /// Writes the task on a new line at the end of the file. A task that is
    /// not valid has no line and leaves the file as it is.
    pub fn add(&mut self, task: &TaskEntry) -> (r: Result<(), EncodeError>)
        ensures
            r is Ok <==> task@.valid(),
            match r {
                Ok(_) => final(self)@ == appended(old(self)@, task@.encoded()),
                Err(e) => task@.encode_error() == Some(e) && *final(self) == *old(self),
            },
    {
        let line = encode(task)?;
        let chars = chars_of(self.text.as_str());
        if chars.len() > 0 && chars[chars.len() - 1] != LINE_BREAK {
            self.text.push(LINE_BREAK);
        }
        self.text.append(line.as_str());
        self.text.push(LINE_BREAK);
        Ok(())
    }
}

/// A line of the backlog that is no task.
#[derive(Clone, Copy, Debug, PartialEq, Eq, Structural)]
pub struct RepositoryError {
    /// The category whose file holds the line.
    pub category: DaySection,
    /// The number of the line, the first line being 1.
    pub line: usize,
    /// Why the line is no task.
    pub cause: ParseError,
}

/// What ends the name of every task file.
pub const FILE_SUFFIX: &'static str = ".md";

/// The backlog: under one directory, one task file for each section of the
/// day. A category may have no file yet.
pub struct TaskRepository {
    /// The directory that holds the files.
    pub root: String,
    pub morning: Option<TaskFile>,
    pub afternoon: Option<TaskFile>,
    pub evening: Option<TaskFile>,
    pub night: Option<TaskFile>,
}

impl TaskRepository {
    /// The file of a category, if it has one.
    pub open spec fn file(self, category: DaySection) -> Option<TaskFile> {
        match category {
            DaySection::Morning => self.morning,
            DaySection::Afternoon => self.afternoon,
            DaySection::Evening => self.evening,
            DaySection::Night => self.night,
        }
    }

    /// The text kept for a category: that of its file, and the empty text
    /// where it has none.
    pub open spec fn text_of(self, category: DaySection) -> Seq<char> {
        match self.file(category) {
            Some(file) => file@,
            None => Seq::<char>::empty(),
        }
    }

    /// Where the file of a category lies.
    pub open spec fn path_of(self, category: DaySection) -> Seq<char> {
        self.root@.push('/') + category.name_spec() + FILE_SUFFIX@
    }

    /// A backlog under `root` in which no category has a file.
    pub fn new(root: String) -> (repository: TaskRepository)
        ensures
            repository.root == root,
            forall|category: DaySection| repository.file(category) is None,
    {
        TaskRepository { root, morning: None, afternoon: None, evening: None, night: None }
    }

    /// The file of a category, if it has one.
    pub fn file_of(&self, category: DaySection) -> (file: &Option<TaskFile>)
        ensures
            *file == self.file(category),
    {
        match category {
            DaySection::Morning => &self.morning,
            DaySection::Afternoon => &self.afternoon,
            DaySection::Evening => &self.evening,
            DaySection::Night => &self.night,
        }
    }

    /// The tasks of a category in the order of their lines; none where the
    /// category has no file. A line that is neither blank nor a task is
    /// reported, not passed over.
    pub fn list(&self, category: DaySection) -> (r: Result<Vec<TaskEntry>, RepositoryError>)
        ensures
            match r {
                Ok(tasks) => listed(self.text_of(category)) == Ok::<
                    Seq<TaskModel>,
                    TaskFileError,
                >(models(tasks@)),
                Err(e) => e.category == category && listed(self.text_of(category)) == Err::<
                    Seq<TaskModel>,
                    TaskFileError,
                >(TaskFileError { line: e.line, cause: e.cause }),
            },
    {
        match self.file_of(category) {
            None => {
                let tasks: Vec<TaskEntry> = Vec::new();
                proof {
                    law_empty_text_lists_nothing();
                    assert(models(tasks@) =~= Seq::<TaskModel>::empty());
                }
                Ok(tasks)
            },
            Some(file) => match file.list() {
                Ok(tasks) => Ok(tasks),
                Err(e) => Err(RepositoryError { category, line: e.line, cause: e.cause }),
            },
        }
    }

    /// Writes the task on a new line at the end of the file of a category,
    /// and gives the category a file if it had none. The other categories
    /// stay as they are; a task that is not valid changes nothing.
    pub fn add(&mut self, category: DaySection, task: &TaskEntry) -> (r: Result<(), EncodeError>)
        ensures
            r is Ok <==> task@.valid(),
            final(self).root == old(self).root,
            forall|other: DaySection|
                other != category ==> final(self).file(other) == old(self).file(other),
            match r {
                Ok(_) => {
                    &&& final(self).file(category) is Some
                    &&& final(self).text_of(category) == appended(
                        old(self).text_of(category),
                        task@.encoded(),
                    )
                },
                Err(e) => task@.encode_error() == Some(e) && *final(self) == *old(self),
            },
    {
        match category {
            DaySection::Morning => add_to(&mut self.morning, task),
            DaySection::Afternoon => add_to(&mut self.afternoon, task),
            DaySection::Evening => add_to(&mut self.evening, task),
            DaySection::Night => add_to(&mut self.night, task),
        }
    }

    /// Where the file of a category lies, for a program that edits it. What
    /// such a program writes is read by the next listing.
    pub fn open(&self, category: DaySection) -> (path: String)
        ensures
            path@ == self.path_of(category),
    {
        let mut path = self.root.clone();
        path.push('/');
        path.append(category.name());
        path.append(FILE_SUFFIX);
        path
    }
}

/// Writes the task on a new line at the end of the file in `slot`, which is
/// made if there is none.
fn add_to(slot: &mut Option<TaskFile>, task: &TaskEntry) -> (r: Result<(), EncodeError>)
    ensures
        r is Ok <==> task@.valid(),
        match r {
            Ok(_) => {
                &&& *final(slot) matches Some(file)
                &&& file@ == appended(
                    match *old(slot) {
                        Some(before) => before@,
                        None => Seq::<char>::empty(),
                    },
                    task@.encoded(),
                )
            },
            Err(e) => task@.encode_error() == Some(e) && *final(slot) == *old(slot),
        },
{
    match slot {
        Some(file) => file.add(task),
        None => {
            let mut file = TaskFile::new();
            file.add(task)?;
            *slot = Some(file);
            Ok(())
        },
    }
}

} // verus!
