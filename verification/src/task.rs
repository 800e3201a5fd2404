//! A task and the line of text that stands for it.
//!
//! A task is written as `{importance}-{difficulty}-{name}`: two single
//! decimal digits and a name, separated by `-`. Only the first two `-` of a
//! line separate fields, so a name may hold `-` itself.

use crate::text::{chars_of, find_from};
use vstd::prelude::*;
use vstd::string::StringExecFns;

verus! {

/// The character between the fields of a task line.
pub const SEPARATOR: char = '-';

/// The character that ends a task line in a file.
pub const LINE_BREAK: char = '\n';

/// The highest importance or difficulty.
pub const MAX_RATING: u8 = 9;

/// One task of the backlog.
#[derive(Debug)]
pub struct TaskEntry {
    /// From 0 to 9; the higher, the more important.
    pub importance: u8,
    /// From 0 to 9; the higher, the more difficult.
    pub difficulty: u8,
    /// What is to be done.
    pub name: String,
}

/// A task as a mathematical value.
pub struct TaskModel {
    pub importance: u8,
    pub difficulty: u8,
    pub name: Seq<char>,
}

impl View for TaskEntry {
    type V = TaskModel;

    open spec fn view(&self) -> TaskModel {
        TaskModel { importance: self.importance, difficulty: self.difficulty, name: self.name@ }
    }
}

impl Clone for TaskEntry {
    fn clone(&self) -> (r: TaskEntry)
        ensures
            r == *self,
    {
        TaskEntry {
            importance: self.importance,
            difficulty: self.difficulty,
            name: self.name.clone(),
        }
    }
}

/// Tasks are equal when their ratings and their names are.
impl PartialEq for TaskEntry {
    fn eq(&self, other: &TaskEntry) -> (r: bool) {
        self.importance == other.importance && self.difficulty == other.difficulty && self.name
            == other.name
    }
}

impl vstd::std_specs::cmp::PartialEqSpecImpl for TaskEntry {
    open spec fn obeys_eq_spec() -> bool {
        true
    }

    open spec fn eq_spec(&self, other: &TaskEntry) -> bool {
        self@ == other@
    }
}

/// The tasks of a vector as mathematical values.
pub open spec fn models(tasks: Seq<TaskEntry>) -> Seq<TaskModel> {
    tasks.map_values(|task: TaskEntry| task@)
}

/// Why a line is no task.
#[derive(Clone, Copy, Debug, PartialEq, Eq, Structural)]
pub enum ParseError {
    /// The line holds fewer than two separators.
    MissingSeparator,
    /// What stands before the first separator is not one decimal digit.
    InvalidImportance,
    /// What stands between the first two separators is not one decimal digit.
    InvalidDifficulty,
    /// Nothing follows the second separator.
    EmptyName,
}

/// Why a task has no line.
#[derive(Clone, Copy, Debug, PartialEq, Eq, Structural)]
pub enum EncodeError {
    /// The importance is above 9.
    ImportanceOutOfRange,
    /// The difficulty is above 9.
    DifficultyOutOfRange,
    /// The name is empty, so the line would not decode.
    EmptyName,
    /// The name holds a line break, so the task would not stay on one line.
    LineBreakInName,
}

/// Whether the character is one of the ten decimal digits.
pub open spec fn is_digit(c: char) -> bool {
    '0' <= c && c <= '9'
}

/// The number that a decimal digit stands for.
pub open spec fn digit_value(c: char) -> u8
    recommends
        is_digit(c),
{
    (c as u8 - '0' as u8) as u8
}

/// The decimal digit that stands for a number up to 9.
pub open spec fn digit_char(d: u8) -> char
    recommends
        d <= MAX_RATING,
{
    (d + '0' as u8) as u8 as char
}

/// The rating that a field holds, if the field is one decimal digit.
pub open spec fn field_rating(field: Seq<char>) -> Option<u8> {
    if field.len() == 1 && is_digit(field[0]) {
        Some(digit_value(field[0]))
    } else {
        None
    }
}

impl TaskModel {
    /// The first reason, if any, for which the task cannot be written as a
    /// line.
    pub open spec fn encode_error(self) -> Option<EncodeError> {
        if self.importance > MAX_RATING {
            Some(EncodeError::ImportanceOutOfRange)
        } else if self.difficulty > MAX_RATING {
            Some(EncodeError::DifficultyOutOfRange)
        } else if self.name.len() == 0 {
            Some(EncodeError::EmptyName)
        } else if self.name.contains(LINE_BREAK) {
            Some(EncodeError::LineBreakInName)
        } else {
            None
        }
    }

    /// Both ratings are single digits, and the name is not empty and stays on
    /// one line.
    pub open spec fn valid(self) -> bool {
        &&& self.importance <= MAX_RATING
        &&& self.difficulty <= MAX_RATING
        &&& self.name.len() > 0
        &&& !self.name.contains(LINE_BREAK)
    }

    /// The line that stands for the task.
    pub open spec fn encoded(self) -> Seq<char>
        recommends
            self.valid(),
    {
        seq![digit_char(self.importance), SEPARATOR, digit_char(self.difficulty), SEPARATOR]
            + self.name
    }
}

/// The task that a line stands for, or the first reason for which it stands
/// for none.
pub open spec fn decoded(line: Seq<char>) -> Result<TaskModel, ParseError> {
    match line.index_of_first(SEPARATOR) {
        None => Err(ParseError::MissingSeparator),
        Some(first) => {
            let rest = line.skip(first + 1);
            match rest.index_of_first(SEPARATOR) {
                None => Err(ParseError::MissingSeparator),
                Some(second) => match field_rating(line.take(first)) {
                    None => Err(ParseError::InvalidImportance),
                    Some(importance) => match field_rating(rest.take(second)) {
                        None => Err(ParseError::InvalidDifficulty),
                        Some(difficulty) => if rest.len() == second + 1 {
                            Err(ParseError::EmptyName)
                        } else {
                            Ok(TaskModel { importance, difficulty, name: rest.skip(second + 1) })
                        },
                    },
                },
            }
        },
    }
}

/// `first` and `second` are the places of the first two separators of `line`.
pub open spec fn separated_at(line: Seq<char>, first: int, second: int) -> bool {
    &&& 0 <= first < second < line.len()
    &&& line[first] == SEPARATOR
    &&& line[second] == SEPARATOR
    &&& forall|k: int| 0 <= k < second && k != first ==> line[k] != SEPARATOR
}

/// A valid task is read back from its own line.
pub proof fn law_decode_inverts_encode(task: TaskModel)
    requires
        task.valid(),
    ensures
        decoded(task.encoded()) == Ok::<TaskModel, ParseError>(task),
{
    let line = task.encoded();
    let rest = line.skip(2);
    crate::text::lemma_first_index(line, SEPARATOR, 1);
    crate::text::lemma_first_index(rest, SEPARATOR, 1);
    assert(line.take(1) =~= seq![digit_char(task.importance)]);
    assert(rest.take(1) =~= seq![digit_char(task.difficulty)]);
    assert(rest.skip(2) =~= task.name);
}

/// A line that decodes is the line of the task it decodes to, and that task
/// has single-digit ratings and a name.
pub proof fn law_encode_inverts_decode(line: Seq<char>)
    ensures
        match decoded(line) {
            Ok(task) => {
                &&& task.encoded() == line
                &&& task.importance <= MAX_RATING
                &&& task.difficulty <= MAX_RATING
                &&& task.name.len() > 0
            },
            Err(_) => true,
        },
{
    if let Ok(task) = decoded(line) {
        line.index_of_first_ensures(SEPARATOR);
        let first = line.index_of_first(SEPARATOR).unwrap();
        let rest = line.skip(first + 1);
        rest.index_of_first_ensures(SEPARATOR);
        let second = rest.index_of_first(SEPARATOR).unwrap();
        assert(line.take(first).len() == 1);
        assert(rest.take(second).len() == 1);
        assert(line.take(first)[0] == line[0]);
        assert(rest.take(second)[0] == line[2]);
        assert(rest[1] == line[3]);
        assert(task.encoded() =~= line);
    }
}

/// Valid tasks that have the same line are the same task.
pub proof fn law_equal_lines_equal_tasks(a: TaskModel, b: TaskModel)
    requires
        a.valid(),
        b.valid(),
        a.encoded() == b.encoded(),
    ensures
        a == b,
{
    law_decode_inverts_encode(a);
    law_decode_inverts_encode(b);
}

/// A line in which no two places hold a separator is no task.
pub proof fn law_decode_needs_two_separators(line: Seq<char>)
    requires
        forall|i: int, j: int|
            0 <= i < j < line.len() ==> !(line[i] == SEPARATOR && line[j] == SEPARATOR),
    ensures
        decoded(line) == Err::<TaskModel, ParseError>(ParseError::MissingSeparator),
{
    line.index_of_first_ensures(SEPARATOR);
    if let Some(first) = line.index_of_first(SEPARATOR) {
        let rest = line.skip(first + 1);
        rest.index_of_first_ensures(SEPARATOR);
        if let Some(second) = rest.index_of_first(SEPARATOR) {
            assert(rest[second] == line[first + 1 + second]);
        }
    }
}

/// What a line with two separators decodes to: its two fields must each be
/// one decimal digit and something must follow the second separator, and
/// then the task holds the two digits' values and all that follows.
pub proof fn law_decode_by_fields(line: Seq<char>, first: int, second: int)
    requires
        separated_at(line, first, second),
    ensures
        decoded(line) == (if field_rating(line.subrange(0, first)) is None {
            Err::<TaskModel, ParseError>(ParseError::InvalidImportance)
        } else if field_rating(line.subrange(first + 1, second)) is None {
            Err(ParseError::InvalidDifficulty)
        } else if second + 1 == line.len() {
            Err(ParseError::EmptyName)
        } else {
            Ok(
                TaskModel {
                    importance: field_rating(line.subrange(0, first))->0,
                    difficulty: field_rating(line.subrange(first + 1, second))->0,
                    name: line.subrange(second + 1, line.len() as int),
                },
            )
        }),
{
    let rest = line.skip(first + 1);
    crate::text::lemma_first_index(line, SEPARATOR, first);
    assert forall|k: int| 0 <= k < second - first - 1 implies rest[k] != SEPARATOR by {
        assert(rest[k] == line[first + 1 + k]);
    }
    crate::text::lemma_first_index(rest, SEPARATOR, second - first - 1);
    assert(line.take(first) =~= line.subrange(0, first));
    assert(rest.take(second - first - 1) =~= line.subrange(first + 1, second));
    assert(rest.skip(second - first) =~= line.subrange(second + 1, line.len() as int));
}

/// The rating that the characters of `v` from `from` up to `to` stand for.
fn read_rating(v: &Vec<char>, from: usize, to: usize) -> (r: Option<u8>)
    requires
        from <= to <= v.len(),
    ensures
        r == field_rating(v@.subrange(from as int, to as int)),
{
    if to - from != 1 {
        return None;
    }
    let c = v[from];
    if '0' <= c && c <= '9' {
        Some(c as u8 - '0' as u8)
    } else {
        None
    }
}

/// Reads a task from the characters of its line.
pub fn decode_chars(chars: &Vec<char>) -> (r: Result<TaskEntry, ParseError>)
    ensures
        match r {
            Ok(task) => decoded(chars@) == Ok::<TaskModel, ParseError>(task@),
            Err(e) => decoded(chars@) == Err::<TaskModel, ParseError>(e),
        },
{
    let first = match find_from(chars, 0, SEPARATOR) {
        Some(i) => i,
        None => {
            assert(chars@.skip(0) =~= chars@);
            return Err(ParseError::MissingSeparator);
        },
    };
    assert(chars@.skip(0) =~= chars@);
    let second = match find_from(chars, first + 1, SEPARATOR) {
        Some(i) => i,
        None => {
            return Err(ParseError::MissingSeparator);
        },
    };
    let ghost rest = chars@.skip(first + 1);
    assert(chars@.take(first as int) =~= chars@.subrange(0, first as int));
    assert(rest.take(second - first - 1) =~= chars@.subrange(first + 1, second as int));
    let importance = match read_rating(chars, 0, first) {
        Some(d) => d,
        None => {
            return Err(ParseError::InvalidImportance);
        },
    };
    let difficulty = match read_rating(chars, first + 1, second) {
        Some(d) => d,
        None => {
            return Err(ParseError::InvalidDifficulty);
        },
    };
    if second + 1 == chars.len() {
        return Err(ParseError::EmptyName);
    }
    let mut name = String::new();
    let mut i: usize = second + 1;
    while i < chars.len()
        invariant
            second + 1 <= i <= chars.len(),
            name@ == chars@.subrange(second + 1, i as int),
        decreases chars.len() - i,
    {
        name.push(chars[i]);
        assert(chars@.subrange(second + 1, i as int).push(chars@[i as int]) =~= chars@.subrange(
            second + 1,
            i + 1,
        ));
        i += 1;
    }
    assert(rest.skip(second - first) =~= chars@.subrange(second + 1, chars.len() as int));
    Ok(TaskEntry { importance, difficulty, name })
}

/// Reads a task from its line.
pub fn decode(line: &str) -> (r: Result<TaskEntry, ParseError>)
    ensures
        match r {
            Ok(task) => decoded(line@) == Ok::<TaskModel, ParseError>(task@),
            Err(e) => decoded(line@) == Err::<TaskModel, ParseError>(e),
        },
{
    let chars = chars_of(line);
    decode_chars(&chars)
}

/// Writes a task as its line. A task that is not valid has none, and the
/// answer is the first reason why.
pub fn encode(task: &TaskEntry) -> (r: Result<String, EncodeError>)
    ensures
        r is Ok <==> task@.valid(),
        match r {
            Ok(line) => line@ == task@.encoded(),
            Err(e) => task@.encode_error() == Some(e),
        },
{
    if task.importance > MAX_RATING {
        return Err(EncodeError::ImportanceOutOfRange);
    }
    if task.difficulty > MAX_RATING {
        return Err(EncodeError::DifficultyOutOfRange);
    }
    let name_chars = chars_of(task.name.as_str());
    if name_chars.len() == 0 {
        return Err(EncodeError::EmptyName);
    }
    assert(name_chars@.skip(0) =~= name_chars@);
    if find_from(&name_chars, 0, LINE_BREAK).is_some() {
        proof {
            name_chars@.index_of_first_ensures(LINE_BREAK);
        }
        return Err(EncodeError::LineBreakInName);
    }
    proof {
        name_chars@.index_of_first_ensures(LINE_BREAK);
    }
    let mut line = String::new();
    line.push((task.importance + '0' as u8) as char);
    line.push(SEPARATOR);
    line.push((task.difficulty + '0' as u8) as char);
    line.push(SEPARATOR);
    line.append(task.name.as_str());
    assert(line@ =~= task@.encoded());
    Ok(line)
}

} // verus!
