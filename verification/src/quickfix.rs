//! The shortlist of the tasks to do first, fitted to the section of the day:
//! the tasks of the categories that the section shows, without repetitions,
//! ranked, and cut to the number that is to be shown.

use crate::day_section::{minute_of_day, DaySchedule, DaySection};
use crate::ranking::{
    law_ranking_is_determined, law_shortlist_length, law_shortlist_order, ranking, shortlist,
    shortlist_of,
};
use crate::repository::{
    appended, law_added_task_is_listed_last, law_empty_text_lists_nothing, listed,
    RepositoryError, TaskFileError, TaskRepository,
};
use crate::task::{encode, models, EncodeError, TaskEntry, TaskModel, LINE_BREAK};
use vstd::prelude::*;
use vstd::string::StringExecFns;

verus! {

/// The tasks without their repetitions: of tasks that are equal, and so have
/// the same line, only the first stays.
pub open spec fn deduplicated(tasks: Seq<TaskModel>) -> Seq<TaskModel>
    decreases tasks.len(),
{
    if tasks.len() == 0 {
        Seq::<TaskModel>::empty()
    } else {
        let before = deduplicated(tasks.drop_last());
        if before.contains(tasks.last()) {
            before
        } else {
            before.push(tasks.last())
        }
    }
}

/// Without repetitions no task stands twice, every task of the list still
/// stands and no other; a list in which no task stands twice stays as it is.
pub proof fn law_deduplicated(tasks: Seq<TaskModel>)
    ensures
        deduplicated(tasks).no_duplicates(),
        forall|task: TaskModel| deduplicated(tasks).contains(task) <==> tasks.contains(task),
        tasks.no_duplicates() ==> deduplicated(tasks) == tasks,
    decreases tasks.len(),
{
    if tasks.len() > 0 {
        let shorter = tasks.drop_last();
        let before = deduplicated(shorter);
        law_deduplicated(shorter);
        assert forall|task: TaskModel| deduplicated(tasks).contains(task) implies tasks.contains(
            task,
        ) by {
            if before.contains(task) {
                assert(shorter.contains(task));
                let k = choose|k: int| 0 <= k < shorter.len() && shorter[k] == task;
                assert(tasks[k] == task);
            } else {
                assert(deduplicated(tasks).last() == task);
                assert(tasks[tasks.len() - 1] == task);
            }
        }
        assert forall|task: TaskModel| tasks.contains(task) implies deduplicated(tasks).contains(
            task,
        ) by {
            let k = choose|k: int| 0 <= k < tasks.len() && tasks[k] == task;
            if k < tasks.len() - 1 {
                assert(shorter[k] == task);
                assert(shorter.contains(task));
                assert(before.contains(task));
                let at = choose|at: int| 0 <= at < before.len() && before[at] == task;
                assert(deduplicated(tasks)[at] == task);
            } else if !before.contains(task) {
                assert(deduplicated(tasks)[before.len() as int] == task);
            }
        }
        if tasks.no_duplicates() {
            assert(shorter.no_duplicates());
            if shorter.contains(tasks.last()) {
                let k = choose|k: int| 0 <= k < shorter.len() && shorter[k] == tasks.last();
                assert(tasks[k] == tasks[tasks.len() - 1]);
            }
            assert(deduplicated(tasks) =~= tasks);
        }
    } else {
        assert(deduplicated(tasks) =~= tasks);
    }
}

/// Without repetitions the tasks keep their order: of two that stay, the
/// earlier is the one that is first met earlier in the list.
pub proof fn law_deduplicated_keeps_order(tasks: Seq<TaskModel>)
    ensures
        forall|k: int, l: int|
            0 <= k < l < deduplicated(tasks).len() ==> {
                let first = tasks.index_of_first(#[trigger] deduplicated(tasks)[k]);
                let second = tasks.index_of_first(#[trigger] deduplicated(tasks)[l]);
                first is Some && second is Some && first->0 < second->0
            },
    decreases tasks.len(),
{
    if tasks.len() > 0 {
        let shorter = tasks.drop_last();
        let before = deduplicated(shorter);
        let kept = deduplicated(tasks);
        law_deduplicated_keeps_order(shorter);
        law_deduplicated(shorter);
        assert forall|k: int| 0 <= k < before.len() implies {
            let here = tasks.index_of_first(#[trigger] before[k]);
            here == shorter.index_of_first(before[k]) && here is Some && here->0 < shorter.len()
        } by {
            assert(before.contains(before[k]));
            assert(shorter.contains(before[k]));
            shorter.index_of_first_ensures(before[k]);
            let at = shorter.index_of_first(before[k])->0;
            assert forall|j: int| 0 <= j < at implies tasks[j] != before[k] by {
                assert(shorter[j] == tasks[j]);
            }
            crate::text::lemma_first_index(tasks, before[k], at);
        }
        if !before.contains(tasks.last()) {
            assert forall|j: int| 0 <= j < shorter.len() implies tasks[j] != tasks.last() by {
                if tasks[j] == tasks.last() {
                    assert(shorter[j] == tasks.last());
                    assert(shorter.contains(tasks.last()));
                }
            }
            crate::text::lemma_first_index(tasks, tasks.last(), tasks.len() - 1);
        }
        assert forall|k: int, l: int| 0 <= k < l < kept.len() implies {
            let first = tasks.index_of_first(#[trigger] kept[k]);
            let second = tasks.index_of_first(#[trigger] kept[l]);
            first is Some && second is Some && first->0 < second->0
        } by {
            assert(kept[k] == before[k]);
            if l < before.len() {
                assert(kept[l] == before[l]);
            }
        }
    }
}

/// Whether one of the tasks equals the given one.
pub fn holds(tasks: &Vec<TaskEntry>, task: &TaskEntry) -> (r: bool)
    ensures
        r == models(tasks@).contains(task@),
{
    let mut j: usize = 0;
    while j < tasks.len()
        invariant
            j <= tasks.len(),
            forall|k: int| 0 <= k < j ==> models(tasks@)[k] != task@,
        decreases tasks.len() - j,
    {
        if tasks[j].eq(task) {
            assert(models(tasks@)[j as int] == task@);
            return true;
        }
        j += 1;
    }
    false
}

/// The tasks without their repetitions.
pub fn deduplicate(tasks: &Vec<TaskEntry>) -> (kept: Vec<TaskEntry>)
    ensures
        models(kept@) == deduplicated(models(tasks@)),
{
    let ghost all = models(tasks@);
    let mut kept: Vec<TaskEntry> = Vec::new();
    let mut i: usize = 0;
    assert(models(kept@) =~= deduplicated(all.take(0)));
    while i < tasks.len()
        invariant
            i <= tasks.len(),
            all == models(tasks@),
            models(kept@) == deduplicated(all.take(i as int)),
        decreases tasks.len() - i,
    {
        let ghost before = models(kept@);
        proof {
            assert(all.take(i + 1).drop_last() =~= all.take(i as int));
            assert(all.take(i + 1).last() == all[i as int]);
        }
        if !holds(&kept, &tasks[i]) {
            kept.push(tasks[i].clone());
            assert(models(kept@) =~= before.push(all[i as int]));
        }
        i += 1;
    }
    assert(all.take(tasks.len() as int) =~= all);
    kept
}

/// Which categories of the backlog are shown in each section of the day.
pub struct Visibility {
    pub morning: Vec<DaySection>,
    pub afternoon: Vec<DaySection>,
    pub evening: Vec<DaySection>,
    pub night: Vec<DaySection>,
}

impl Visibility {
    /// The categories shown in a section, in the order in which their tasks
    /// are taken up.
    pub open spec fn categories(self, section: DaySection) -> Seq<DaySection> {
        match section {
            DaySection::Morning => self.morning@,
            DaySection::Afternoon => self.afternoon@,
            DaySection::Evening => self.evening@,
            DaySection::Night => self.night@,
        }
    }

    /// Every section shows its own category and no other.
    pub fn own() -> (visibility: Visibility)
        ensures
            forall|section: DaySection| visibility.categories(section) == seq![section],
    {
        let mut morning: Vec<DaySection> = Vec::new();
        morning.push(DaySection::Morning);
        let mut afternoon: Vec<DaySection> = Vec::new();
        afternoon.push(DaySection::Afternoon);
        let mut evening: Vec<DaySection> = Vec::new();
        evening.push(DaySection::Evening);
        let mut night: Vec<DaySection> = Vec::new();
        night.push(DaySection::Night);
        let visibility = Visibility { morning, afternoon, evening, night };
        assert forall|section: DaySection| visibility.categories(section) == seq![section] by {
            assert(visibility.categories(section) =~= seq![section]);
        }
        visibility
    }

    /// The categories shown in a section.
    pub fn categories_of(&self, section: DaySection) -> (categories: &Vec<DaySection>)
        ensures
            categories@ == self.categories(section),
    {
        match section {
            DaySection::Morning => &self.morning,
            DaySection::Afternoon => &self.afternoon,
            DaySection::Evening => &self.evening,
            DaySection::Night => &self.night,
        }
    }
}

/// The tasks of the given categories, one category after the other; or the
/// first line, in that order, that is no task.
pub open spec fn candidates(repository: TaskRepository, categories: Seq<DaySection>) -> Result<
    Seq<TaskModel>,
    RepositoryError,
>
    decreases categories.len(),
{
    if categories.len() == 0 {
        Ok(Seq::<TaskModel>::empty())
    } else {
        match candidates(repository, categories.drop_last()) {
            Err(e) => Err(e),
            Ok(tasks) => match listed(repository.text_of(categories.last())) {
                Ok(more) => Ok(tasks + more),
                Err(e) => Err(
                    RepositoryError { category: categories.last(), line: e.line, cause: e.cause },
                ),
            },
        }
    }
}

/// A fault among the first categories is the fault of all of them.
proof fn lemma_candidates_fault_stays(
    repository: TaskRepository,
    categories: Seq<DaySection>,
    upto: int,
)
    requires
        0 <= upto <= categories.len(),
        candidates(repository, categories.take(upto)) is Err,
    ensures
        candidates(repository, categories) == candidates(repository, categories.take(upto)),
    decreases categories.len() - upto,
{
    if upto < categories.len() {
        assert(categories.take(upto + 1).drop_last() =~= categories.take(upto));
        lemma_candidates_fault_stays(repository, categories, upto + 1);
    } else {
        assert(categories.take(upto) =~= categories);
    }
}

/// Categories that each list no task give no candidates.
proof fn lemma_no_tasks_no_candidates(repository: TaskRepository, categories: Seq<DaySection>)
    requires
        forall|category: DaySection|
            listed(repository.text_of(category)) == Ok::<
                Seq<TaskModel>,
                TaskFileError,
            >(Seq::<TaskModel>::empty()),
    ensures
        candidates(repository, categories) == Ok::<Seq<TaskModel>, RepositoryError>(
            Seq::<TaskModel>::empty(),
        ),
    decreases categories.len(),
{
    if categories.len() > 0 {
        lemma_no_tasks_no_candidates(repository, categories.drop_last());
        assert(Seq::<TaskModel>::empty() + Seq::<TaskModel>::empty() =~= Seq::<
            TaskModel,
        >::empty());
    }
}

/// Reads the tasks of the given categories, one category after the other.
pub fn gather(repository: &TaskRepository, categories: &Vec<DaySection>) -> (r: Result<
    Vec<TaskEntry>,
    RepositoryError,
>)
    ensures
        match r {
            Ok(tasks) => candidates(*repository, categories@) == Ok::<
                Seq<TaskModel>,
                RepositoryError,
            >(models(tasks@)),
            Err(e) => candidates(*repository, categories@) == Err::<
                Seq<TaskModel>,
                RepositoryError,
            >(e),
        },
{
    let mut tasks: Vec<TaskEntry> = Vec::new();
    let mut i: usize = 0;
    assert(categories@.take(0) =~= Seq::<DaySection>::empty());
    assert(models(tasks@) =~= Seq::<TaskModel>::empty());
    while i < categories.len()
        invariant
            i <= categories.len(),
            candidates(*repository, categories@.take(i as int)) == Ok::<
                Seq<TaskModel>,
                RepositoryError,
            >(models(tasks@)),
        decreases categories.len() - i,
    {
        proof {
            assert(categories@.take(i + 1).drop_last() =~= categories@.take(i as int));
            assert(categories@.take(i + 1).last() == categories@[i as int]);
        }
        match repository.list(categories[i]) {
            Ok(mut more) => {
                assert(models(tasks@ + more@) =~= models(tasks@) + models(more@));
                tasks.append(&mut more);
            },
            Err(e) => {
                proof {
                    lemma_candidates_fault_stays(*repository, categories@, i + 1);
                }
                return Err(e);
            },
        }
        i += 1;
    }
    assert(categories@.take(categories.len() as int) =~= categories@);
    Ok(tasks)
}

/// What compiles the shortlist: the schedule of the day and the categories
/// that each section shows.
pub struct QuickfixCompiler {
    pub schedule: DaySchedule,
    pub visibility: Visibility,
}

impl QuickfixCompiler {
    /// The shortlist at `now`: of the tasks of the categories that the
    /// section of the day shows, without repetitions, the first `limit` in
    /// the order in which they are to be done; or the first line met that is
    /// no task.
    pub open spec fn compiled(self, now: u64, repository: TaskRepository, limit: usize) -> Result<
        Seq<TaskModel>,
        RepositoryError,
    > {
        let section = self.schedule.section_at(minute_of_day(now));
        match candidates(repository, self.visibility.categories(section)) {
            Ok(tasks) => Ok(shortlist(deduplicated(tasks), limit as nat)),
            Err(e) => Err(e),
        }
    }

    /// A compiler for the ordinary day, in which every section shows its own
    /// category.
    pub fn standard() -> (compiler: QuickfixCompiler)
        ensures
            compiler.schedule@ == DaySchedule::standard_ranges(),
            forall|section: DaySection| compiler.visibility.categories(section) == seq![section],
    {
        QuickfixCompiler { schedule: DaySchedule::standard(), visibility: Visibility::own() }
    }

    /// Compiles the shortlist at `now`, a time in seconds on the local wall
    /// clock, counted from a midnight. A backlog with fewer tasks than
    /// `n_tasks_to_show` gives them all, an empty one gives none.
    pub fn compile(&self, now: u64, repository: &TaskRepository, n_tasks_to_show: usize) -> (r:
        Result<Vec<TaskEntry>, RepositoryError>)
        ensures
            match r {
                Ok(tasks) => self.compiled(now, *repository, n_tasks_to_show) == Ok::<
                    Seq<TaskModel>,
                    RepositoryError,
                >(models(tasks@)),
                Err(e) => self.compiled(now, *repository, n_tasks_to_show) == Err::<
                    Seq<TaskModel>,
                    RepositoryError,
                >(e),
            },
    {
        let section = self.schedule.resolve(now);
        let gathered = gather(repository, self.visibility.categories_of(section))?;
        let distinct = deduplicate(&gathered);
        Ok(shortlist_of(&distinct, n_tasks_to_show))
    }
}

/// The text that shows the tasks: the line of each, in their order, each
/// ended by a line break.
pub open spec fn shown(tasks: Seq<TaskModel>) -> Seq<char>
    decreases tasks.len(),
{
    if tasks.len() == 0 {
        Seq::<char>::empty()
    } else {
        (shown(tasks.drop_last()) + tasks.last().encoded()).push(LINE_BREAK)
    }
}

/// Writes the text that shows the tasks, one on each line. Where a task is
/// not valid, the answer is why the first such task has no line.
pub fn show(tasks: &Vec<TaskEntry>) -> (r: Result<String, EncodeError>)
    ensures
        match r {
            Ok(text) => {
                &&& forall|i: int| 0 <= i < tasks.len() ==> (#[trigger] tasks[i])@.valid()
                &&& text@ == shown(models(tasks@))
            },
            Err(e) => exists|i: int|
                {
                    &&& 0 <= i < tasks.len()
                    &&& (#[trigger] tasks[i])@.encode_error() == Some(e)
                    &&& forall|j: int| 0 <= j < i ==> (#[trigger] tasks[j])@.valid()
                },
        },
{
    let ghost all = models(tasks@);
    let mut text = String::new();
    let mut i: usize = 0;
    assert(all.take(0) =~= Seq::<TaskModel>::empty());
    while i < tasks.len()
        invariant
            i <= tasks.len(),
            all == models(tasks@),
            forall|j: int| 0 <= j < i ==> (#[trigger] tasks[j])@.valid(),
            text@ == shown(all.take(i as int)),
        decreases tasks.len() - i,
    {
        let line = encode(&tasks[i])?;
        proof {
            assert(all.take(i + 1).drop_last() =~= all.take(i as int));
            assert(all.take(i + 1).last() == tasks[i as int]@);
        }
        text.append(line.as_str());
        text.push(LINE_BREAK);
        i += 1;
    }
    assert(all.take(tasks.len() as int) =~= all);
    Ok(text)
}

/// The text that shows valid tasks is a task file that lists them.
pub proof fn law_shown_tasks_are_listed(tasks: Seq<TaskModel>)
    requires
        forall|i: int| 0 <= i < tasks.len() ==> (#[trigger] tasks[i]).valid(),
    ensures
        listed(shown(tasks)) == Ok::<Seq<TaskModel>, TaskFileError>(tasks),
    decreases tasks.len(),
{
    if tasks.len() == 0 {
        law_empty_text_lists_nothing();
        assert(tasks =~= Seq::<TaskModel>::empty());
    } else {
        let shorter = tasks.drop_last();
        law_shown_tasks_are_listed(shorter);
        law_added_task_is_listed_last(shown(shorter), tasks.last());
        assert(shown(tasks) == appended(shown(shorter), tasks.last().encoded()));
        assert(shorter.push(tasks.last()) =~= tasks);
    }
}

/// What a compiled shortlist is like. Where the categories that the section
/// shows hold a line that is no task, that line is the answer. Else the
/// shortlist holds as many of their tasks, repetitions left out, as it may
/// and as there are, whichever is less; and of two of its tasks the earlier
/// has the higher importance, or the same importance and the higher
/// difficulty, or the same of both and the earlier place among those tasks.
pub proof fn law_compiled_shortlist(
    compiler: QuickfixCompiler,
    now: u64,
    repository: TaskRepository,
    limit: usize,
)
    ensures
        ({
            let section = compiler.schedule.section_at(minute_of_day(now));
            match candidates(repository, compiler.visibility.categories(section)) {
                Err(e) => compiler.compiled(now, repository, limit) == Err::<
                    Seq<TaskModel>,
                    RepositoryError,
                >(e),
                Ok(found) => {
                    let distinct = deduplicated(found);
                    &&& compiler.compiled(now, repository, limit) matches Ok(shown)
                    &&& shown.len() == (if limit <= distinct.len() {
                        limit as int
                    } else {
                        distinct.len() as int
                    })
                    &&& forall|k: int|
                        0 <= k < shown.len() ==> {
                            &&& 0 <= ranking(distinct)[k] < distinct.len()
                            &&& #[trigger] shown[k] == distinct[ranking(distinct)[k]]
                        }
                    &&& forall|k: int, l: int|
                        0 <= k < l < shown.len() ==> {
                            let a = #[trigger] shown[k];
                            let b = #[trigger] shown[l];
                            ||| a.importance > b.importance
                            ||| a.importance == b.importance && a.difficulty > b.difficulty
                            ||| a.importance == b.importance && a.difficulty == b.difficulty
                                && ranking(distinct)[k] < ranking(distinct)[l]
                        }
                },
            }
        }),
{
    let section = compiler.schedule.section_at(minute_of_day(now));
    if let Ok(found) = candidates(repository, compiler.visibility.categories(section)) {
        let distinct = deduplicated(found);
        let shown = shortlist(distinct, limit as nat);
        law_shortlist_length(distinct, limit as nat);
        law_shortlist_order(distinct, limit as nat);
        law_ranking_is_determined(distinct);
        assert(compiler.compiled(now, repository, limit) == Ok::<
            Seq<TaskModel>,
            RepositoryError,
        >(shown));
    }
}

/// A backlog without tasks compiles to an empty shortlist at every time and
/// for every limit.
pub proof fn law_empty_backlog_compiles_to_nothing(
    compiler: QuickfixCompiler,
    now: u64,
    repository: TaskRepository,
    limit: usize,
)
    requires
        forall|category: DaySection|
            listed(repository.text_of(category)) == Ok::<
                Seq<TaskModel>,
                TaskFileError,
            >(Seq::<TaskModel>::empty()),
    ensures
        compiler.compiled(now, repository, limit) == Ok::<Seq<TaskModel>, RepositoryError>(
            Seq::<TaskModel>::empty(),
        ),
{
    let section = compiler.schedule.section_at(minute_of_day(now));
    lemma_no_tasks_no_candidates(repository, compiler.visibility.categories(section));
    law_shortlist_length(Seq::<TaskModel>::empty(), limit as nat);
}

} // verus!
