//! A single to-do item and its mathematical model.

use vstd::prelude::*;

verus! {

/// What a task is, as a value: its text and whether it is completed.
pub struct TaskView {
    pub description: Seq<char>,
    pub done: bool,
}

/// A to-do item. Tasks have no identity beyond their description.
#[derive(Debug)]
pub struct Task {
    pub description: String,
    pub done: bool,
}

impl View for Task {
    type V = TaskView;

    open spec fn view(&self) -> TaskView {
        TaskView { description: self.description@, done: self.done }
    }
}

/// The models of a sequence of tasks, in order.
pub open spec fn views(tasks: Seq<Task>) -> Seq<TaskView> {
    Seq::new(tasks.len(), |i: int| tasks[i]@)
}

/// The mark shown in front of a task: a check mark (with its variation
/// selector) for a completed task, a cross otherwise.
pub open spec fn glyph(done: bool) -> Seq<char> {
    if done {
        "\u{2714}\u{fe0f}"@
    } else {
        "\u{274c}"@
    }
}

/// The line by which a task is shown: its glyph, `" - "`, its description.
pub open spec fn rendered(t: TaskView) -> Seq<char> {
    glyph(t.done) + " - "@ + t.description
}

/// The lines by which a list of tasks is shown, one per task, in order.
pub open spec fn rendered_all(ts: Seq<TaskView>) -> Seq<Seq<char>> {
    Seq::new(ts.len(), |i: int| rendered(ts[i]))
}

impl Task {
    /// A new task, not yet done.
    pub fn new(description: String) -> (task: Task)
        ensures
            task@ == (TaskView { description: description@, done: false }),
    {
        Task { description, done: false }
    }

    /// Marks the task as completed. Marking a completed task changes nothing.
    pub fn mark_done(&mut self)
        ensures
            final(self)@ == (TaskView { description: old(self)@.description, done: true }),
    {
        self.done = true;
    }

    /// The line by which the task is shown.
    pub fn display(&self) -> (line: String)
        ensures
            line@ == rendered(self@),
    {
        let status = if self.done {
            "\u{2714}\u{fe0f}"
        } else {
            "\u{274c}"
        };
        let mut line = String::from_str(status);
        line.append(" - ");
        line.append(self.description.as_str());
        line
    }
}

} // verus!
