//! The commands of the to-do list, as functions from the stored text to the
//! text to store next and the lines to show.
//!
//! Every command reads the whole store and, if it changes anything, writes
//! the whole store anew. A command that writes therefore also drops the lines
//! that were no task and writes every status in its standard form.

use vstd::prelude::*;
use crate::task::{Task, TaskView, views, rendered, rendered_all};
use crate::format::{
    lemma_read_is_plain, lemma_round_trip, load_tasks, plain, same_text, save_tasks,
    tasks_of_text, text_of_tasks,
};

verus! {

/// The texts of a sequence of strings, in order.
pub open spec fn texts(lines: Seq<String>) -> Seq<Seq<char>> {
    Seq::new(lines.len(), |i: int| lines[i]@)
}

/// A task as it is when first added: not done.
pub open spec fn fresh(description: Seq<char>) -> TaskView {
    TaskView { description, done: false }
}

/// The list in which every task with the given description is done, and the
/// others are as they were.
pub open spec fn marked(ts: Seq<TaskView>, description: Seq<char>) -> Seq<TaskView> {
    Seq::new(
        ts.len(),
        |i: int|
            if ts[i].description == description {
                TaskView { description: ts[i].description, done: true }
            } else {
                ts[i]
            },
    )
}

/// Whether some task of the list has exactly the given description.
pub open spec fn has_task(ts: Seq<TaskView>, description: Seq<char>) -> bool {
    exists|i: int| 0 <= i < ts.len() && (#[trigger] ts[i]).description == description
}

/// The stored text after a task with the given description was added.
pub open spec fn text_after_add(content: Seq<char>, description: Seq<char>) -> Seq<char> {
    text_of_tasks(tasks_of_text(content).push(fresh(description)))
}

/// The stored text after the tasks with the given description were marked
/// as done.
pub open spec fn text_after_done(content: Seq<char>, description: Seq<char>) -> Seq<char> {
    text_of_tasks(marked(tasks_of_text(content), description))
}

/// Marks as done every task of the list whose description is exactly the
/// given one, and tells whether there was any.
pub fn mark_matching(tasks: &mut Vec<Task>, description: &String) -> (found: bool)
    ensures
        views(final(tasks)@) == marked(views(old(tasks)@), description@),
        found == has_task(views(old(tasks)@), description@),
{
    let ghost before = views(tasks@);
    let mut found = false;
    let mut i: usize = 0;
    while i < tasks.len()
        invariant
            i <= tasks.len(),
            tasks.len() == before.len(),
            forall|j: int| 0 <= j < i ==> tasks@[j]@ == marked(before, description@)[j],
            forall|j: int| i <= j < tasks.len() ==> tasks@[j]@ == before[j],
            found == has_task(before.take(i as int), description@),
        decreases tasks.len() - i,
    {
        let ghost seen = before.take(i as int);
        let ghost next = before.take(i + 1);
        if tasks[i].description == *description {
            tasks[i].mark_done();
            found = true;
            assert(next[i as int].description == description@);
        } else {
            proof {
                if has_task(next, description@) {
                    let j = choose|j: int|
                        0 <= j < next.len() && (#[trigger] next[j]).description == description@;
                    assert(seen[j].description == description@);
                }
            }
        }
        proof {
            if has_task(seen, description@) {
                let j = choose|j: int|
                    0 <= j < seen.len() && (#[trigger] seen[j]).description == description@;
                assert(next[j].description == description@);
            }
        }
        i += 1;
    }
    proof {
        assert(before.take(i as int) =~= before);
        assert(views(tasks@) =~= marked(before, description@));
    }
    found
}

/// Adds a task, not yet done, at the end of the store.
pub fn add_task(content: &str, description: String) -> (next: String)
    ensures
        next@ == text_after_add(content@, description@),
{
    let mut tasks = load_tasks(content);
    let ghost before = views(tasks@);
    let task = Task::new(description);
    tasks.push(task);
    proof {
        assert(views(tasks@) =~= before.push(fresh(description@)));
    }
    save_tasks(tasks.as_slice())
}

/// Shows the store: one line per task, in the order of the store.
pub fn list_tasks(content: &str) -> (lines: Vec<String>)
    ensures
        texts(lines@) == rendered_all(tasks_of_text(content@)),
{
    let tasks = load_tasks(content);
    let mut lines: Vec<String> = Vec::new();
    let mut i: usize = 0;
    while i < tasks.len()
        invariant
            i <= tasks.len(),
            lines.len() == i,
            forall|j: int| 0 <= j < i ==> lines@[j]@ == rendered(tasks@[j]@),
        decreases tasks.len() - i,
    {
        lines.push(tasks[i].display());
        i += 1;
    }
    proof {
        assert(texts(lines@) =~= rendered_all(views(tasks@)));
    }
    lines
}

/// Marks as done every task whose description is exactly the given one
/// (upper and lower case differ). Returns the text to store and whether any
/// task had that description; the text is written anew in either case.
pub fn mark_done(content: &str, description: String) -> (next: (String, bool))
    ensures
        next.0@ == text_after_done(content@, description@),
        next.1 == has_task(tasks_of_text(content@), description@),
{
    let mut tasks = load_tasks(content);
    let found = mark_matching(&mut tasks, &description);
    (save_tasks(tasks.as_slice()), found)
}

/// What is reported after tasks were to be marked as done.
pub open spec fn report(found: bool) -> Seq<char> {
    if found {
        "Marked Done"@
    } else {
        "Task Does Not Exist"@
    }
}

/// The hint shown for a command that is none of `add`, `list` and `done`.
pub open spec fn unknown_hint() -> Seq<char> {
    "Unknown command. Use 'add', 'list', or 'done'."@
}

/// What is reported after tasks were to be marked as done.
pub fn done_message(found: bool) -> (message: &'static str)
    ensures
        message@ == report(found),
{
    if found {
        "Marked Done"
    } else {
        "Task Does Not Exist"
    }
}

/// What a command asks of the caller: the text to store, if the store is to
/// be written, and the lines to show.
#[derive(Debug)]
pub struct Outcome {
    pub content: Option<String>,
    pub output: Vec<String>,
}

/// An `Outcome` as a value.
pub struct OutcomeView {
    pub content: Option<Seq<char>>,
    pub output: Seq<Seq<char>>,
}

impl View for Outcome {
    type V = OutcomeView;

    open spec fn view(&self) -> OutcomeView {
        OutcomeView {
            content: match self.content {
                Some(text) => Some(text@),
                None => None,
            },
            output: texts(self.output@),
        }
    }
}

/// Why a command line cannot be run.
#[derive(Debug, Clone, Copy, PartialEq, Eq, Structural)]
pub enum UsageError {
    /// The command line names no command.
    MissingCommand,
}

impl UsageError {
    /// The message to show for the error.
    pub fn message(&self) -> (text: String)
        ensures
            text@ == "Missing command. Use 'add', 'list', or 'done'."@,
    {
        match self {
            UsageError::MissingCommand => String::from_str(
                "Missing command. Use 'add', 'list', or 'done'.",
            ),
        }
    }
}

/// The argument of a command line: the word after the command, or the empty
/// text where there is none. The first word is the program's name.
pub open spec fn argument(args: Seq<String>) -> Seq<char> {
    if args.len() > 2 {
        args[2]@
    } else {
        Seq::empty()
    }
}

/// What a command does, given its argument and the stored text.
///
/// `add` and `done` write the store and `list` does not; `add` shows nothing;
/// a word that is no command changes nothing and shows a hint.
pub open spec fn outcome_of(
    command: Seq<char>,
    description: Seq<char>,
    content: Seq<char>,
) -> OutcomeView {
    if command == "add"@ {
        OutcomeView {
            content: Some(text_after_add(content, description)),
            output: Seq::empty(),
        }
    } else if command == "list"@ {
        OutcomeView { content: None, output: rendered_all(tasks_of_text(content)) }
    } else if command == "done"@ {
        OutcomeView {
            content: Some(text_after_done(content, description)),
            output: seq![report(has_task(tasks_of_text(content), description))],
        }
    } else {
        OutcomeView { content: None, output: seq![unknown_hint()] }
    }
}

/// Runs a command line against the stored text. The first word is the
/// program's name, the second the command, the third its argument. Without a
/// command nothing is run.
pub fn run(args: &Vec<String>, content: &str) -> (outcome: Result<Outcome, UsageError>)
    ensures
        args@.len() < 2 ==> outcome == Err::<Outcome, UsageError>(UsageError::MissingCommand),
        args@.len() >= 2 ==> outcome is Ok && outcome->Ok_0@ == outcome_of(
            args@[1]@,
            argument(args@),
            content@,
        ),
{
    if args.len() < 2 {
        return Err(UsageError::MissingCommand);
    }
    let command = args[1].as_str();
    let description = if args.len() > 2 {
        args[2].clone()
    } else {
        String::new()
    };
    if same_text(command, "add") {
        let next = add_task(content, description);
        let output: Vec<String> = Vec::new();
        proof {
            assert(texts(output@) =~= Seq::empty());
        }
        Ok(Outcome { content: Some(next), output })
    } else if same_text(command, "list") {
        Ok(Outcome { content: None, output: list_tasks(content) })
    } else if same_text(command, "done") {
        let (next, found) = mark_done(content, description);
        let mut output: Vec<String> = Vec::new();
        output.push(String::from_str(done_message(found)));
        proof {
            assert(texts(output@) =~= seq![report(found)]);
        }
        Ok(Outcome { content: Some(next), output })
    } else {
        let mut output: Vec<String> = Vec::new();
        output.push(String::from_str("Unknown command. Use 'add', 'list', or 'done'."));
        proof {
            assert(texts(output@) =~= seq![unknown_hint()]);
        }
        Ok(Outcome { content: None, output })
    }
}

/// Marking the same description twice gives the list that marking it once
/// gives.
pub proof fn lemma_marked_twice(ts: Seq<TaskView>, description: Seq<char>)
    ensures
        marked(marked(ts, description), description) == marked(ts, description),
{
    assert(marked(marked(ts, description), description) =~= marked(ts, description));
}

/// Marking a description that no task has leaves the list as it was.
pub proof fn lemma_marked_absent(ts: Seq<TaskView>, description: Seq<char>)
    requires
        !has_task(ts, description),
    ensures
        marked(ts, description) == ts,
{
    assert(marked(ts, description) =~= ts);
}

/// After marking, every task with the description is done, however many
/// there are, and every other task is as it was.
pub proof fn lemma_marked_all(ts: Seq<TaskView>, description: Seq<char>, i: int)
    requires
        0 <= i < ts.len(),
    ensures
        marked(ts, description).len() == ts.len(),
        marked(ts, description)[i].description == ts[i].description,
        ts[i].description == description ==> marked(ts, description)[i].done,
        ts[i].description != description ==> marked(ts, description)[i] == ts[i],
{
}

/// Reading the store after `done` gives the tasks that were in it, those
/// with the description marked, whatever the text was before.
pub proof fn lemma_done_then_read(content: Seq<char>, description: Seq<char>)
    ensures
        tasks_of_text(text_after_done(content, description)) == marked(
            tasks_of_text(content),
            description,
        ),
{
    let ts = tasks_of_text(content);
    lemma_read_is_plain(content);
    assert forall|i: int| 0 <= i < marked(ts, description).len() implies plain(
        (#[trigger] marked(ts, description)[i]).description,
    ) by {
        assert(marked(ts, description)[i].description == ts[i].description);
    }
    lemma_round_trip(marked(ts, description));
}

/// Reading the store after `add` gives the tasks that were in it and then
/// the new task, not done, for a description that holds neither a tab nor a
/// line feed.
pub proof fn lemma_add_then_read(content: Seq<char>, description: Seq<char>)
    requires
        plain(description),
    ensures
        tasks_of_text(text_after_add(content, description)) == tasks_of_text(content).push(
            fresh(description),
        ),
{
    let ts = tasks_of_text(content);
    lemma_read_is_plain(content);
    lemma_round_trip(ts.push(fresh(description)));
}

/// `done` with the same description twice leaves the store as `done` once
/// leaves it, and reports the same.
pub proof fn lemma_done_twice(content: Seq<char>, description: Seq<char>)
    ensures
        text_after_done(text_after_done(content, description), description) == text_after_done(
            content,
            description,
        ),
        has_task(tasks_of_text(text_after_done(content, description)), description) == has_task(
            tasks_of_text(content),
            description,
        ),
{
    let ts = tasks_of_text(content);
    let once = marked(ts, description);
    lemma_done_then_read(content, description);
    lemma_marked_twice(ts, description);
    if has_task(ts, description) {
        let i = choose|i: int| 0 <= i < ts.len() && (#[trigger] ts[i]).description == description;
        assert(once[i].description == description);
    }
    if has_task(once, description) {
        let i = choose|i: int|
            0 <= i < once.len() && (#[trigger] once[i]).description == description;
        assert(ts[i].description == description);
    }
}

} // verus!
