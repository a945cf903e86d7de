//! The text format of the store: one task per line, the description and the
//! status text separated by a single tab.
//!
//! Reading a text takes it line by line. A line ends at a line feed; a
//! carriage return directly before that line feed belongs to the line ending.
//! A line that does not hold exactly one tab is not a task and is skipped.

use vstd::prelude::*;
use crate::task::{Task, TaskView, views};

verus! {

/// The status text of a completed task.
pub open spec fn done_text() -> Seq<char> {
    "done"@
}

/// The status text written for a task that is not completed.
pub open spec fn not_done_text() -> Seq<char> {
    "not done"@
}

/// The status text written for a task.
pub open spec fn status_text(done: bool) -> Seq<char> {
    if done {
        done_text()
    } else {
        not_done_text()
    }
}

/// The line written for a task, line feed included.
pub open spec fn line_of_task(t: TaskView) -> Seq<char> {
    t.description + seq!['\t'] + status_text(t.done) + seq!['\n']
}

/// The text written for a list of tasks: their lines, in order.
pub open spec fn text_of_tasks(ts: Seq<TaskView>) -> Seq<char>
    decreases ts.len(),
{
    if ts.len() == 0 {
        Seq::empty()
    } else {
        text_of_tasks(ts.drop_last()) + line_of_task(ts.last())
    }
}

/// The index of the first `c` in `s`, or the length of `s` where it holds
/// none.
pub open spec fn first_index(s: Seq<char>, c: char) -> int
    decreases s.len(),
{
    if s.len() == 0 || s[0] == c {
        0
    } else {
        1 + first_index(s.drop_first(), c)
    }
}

/// The first line of a text, without its line ending.
pub open spec fn first_line(s: Seq<char>) -> Seq<char> {
    let i = first_index(s, '\n');
    if 0 < i < s.len() && s[i - 1] == '\r' {
        s.subrange(0, i - 1)
    } else {
        s.subrange(0, i)
    }
}

/// What follows the first line of a text and its line ending.
pub open spec fn after_first_line(s: Seq<char>) -> Seq<char> {
    let i = first_index(s, '\n');
    if 0 <= i < s.len() {
        s.subrange(i + 1, s.len() as int)
    } else {
        Seq::empty()
    }
}

/// The task that a line stands for. A line with exactly one tab is a task:
/// what precedes the tab is its description, and it is completed if and only
/// if what follows the tab is the text `done`. Any other line is no task.
pub open spec fn task_of_line(line: Seq<char>) -> Option<TaskView> {
    let i = first_index(line, '\t');
    if 0 <= i < line.len() && !line.subrange(i + 1, line.len() as int).contains('\t') {
        Some(
            TaskView {
                description: line.subrange(0, i),
                done: line.subrange(i + 1, line.len() as int) == done_text(),
            },
        )
    } else {
        None
    }
}

/// The tasks that a line contributes to a list: one or none.
pub open spec fn tasks_of_line(line: Seq<char>) -> Seq<TaskView> {
    match task_of_line(line) {
        Some(t) => seq![t],
        None => Seq::empty(),
    }
}

/// The tasks that a text holds, in the order of its lines.
pub open spec fn tasks_of_text(s: Seq<char>) -> Seq<TaskView>
    decreases s.len(),
{
    if s.len() == 0 {
        Seq::empty()
    } else {
        tasks_of_line(first_line(s)) + tasks_of_text(after_first_line(s))
    }
}

/// A description that the format can carry: it holds neither a tab nor a
/// line feed.
pub open spec fn plain(d: Seq<char>) -> bool {
    !d.contains('\t') && !d.contains('\n')
}

/// Every description of the list can be carried by the format.
pub open spec fn all_plain(ts: Seq<TaskView>) -> bool {
    forall|i: int| 0 <= i < ts.len() ==> plain((#[trigger] ts[i]).description)
}

/// `first_index` is in range, nothing before it is `c`, and where it is an
/// index of `s` it holds `c`.
pub proof fn lemma_first_index(s: Seq<char>, c: char)
    ensures
        0 <= first_index(s, c) <= s.len(),
        forall|j: int| 0 <= j < first_index(s, c) ==> s[j] != c,
        first_index(s, c) < s.len() ==> s[first_index(s, c)] == c,
    decreases s.len(),
{
    if s.len() == 0 || s[0] == c {
    } else {
        let t = s.drop_first();
        lemma_first_index(t, c);
        assert forall|j: int| 0 <= j < first_index(s, c) implies s[j] != c by {
            if j > 0 {
                assert(s[j] == t[j - 1]);
            }
        }
        if first_index(t, c) < t.len() {
            assert(t[first_index(t, c)] == s[first_index(t, c) + 1]);
        }
    }
}

/// An index with no `c` before it, which holds `c` or is the length of `s`,
/// is `first_index`.
pub proof fn lemma_first_index_is(s: Seq<char>, c: char, m: int)
    requires
        0 <= m <= s.len(),
        forall|j: int| 0 <= j < m ==> s[j] != c,
        m < s.len() ==> s[m] == c,
    ensures
        first_index(s, c) == m,
{
    lemma_first_index(s, c);
}

/// The characters of a text, for access by index.
pub fn chars_of(text: &str) -> (chars: Vec<char>)
    ensures
        chars@ == text@,
{
    let mut chars: Vec<char> = Vec::new();
    for c in it: text.chars()
        invariant
            it.seq() == text@,
            chars@ == text@.take(it.index() as int),
    {
        chars.push(c);
        assert(chars@ =~= text@.take(it.index() + 1));
    }
    assert(chars@ =~= text@);
    chars
}

/// Whether two texts are the same, character by character.
pub fn same_text(a: &str, b: &str) -> (same: bool)
    ensures
        same == (a@ == b@),
{
    let left = chars_of(a);
    let right = chars_of(b);
    let n = left.len();
    if right.len() != n {
        return false;
    }
    let mut i: usize = 0;
    while i < n
        invariant
            i <= n,
            n == left.len(),
            n == right.len(),
            left@ == a@,
            right@ == b@,
            forall|j: int| 0 <= j < i ==> left@[j] == right@[j],
        decreases n - i,
    {
        if left[i] != right[i] {
            return false;
        }
        i += 1;
    }
    assert(a@ =~= b@);
    true
}

/// Reads one line, given without its line ending.
pub fn parse_line(line: &str) -> (task: Option<Task>)
    ensures
        match task {
            Some(t) => task_of_line(line@) == Some(t@),
            None => task_of_line(line@) is None,
        },
{
    let chars = chars_of(line);
    let n = chars.len();
    let mut tab: usize = 0;
    while tab < n && chars[tab] != '\t'
        invariant
            tab <= n,
            n == line@.len(),
            chars@ == line@,
            forall|j: int| 0 <= j < tab ==> line@[j] != '\t',
        decreases n - tab,
    {
        tab += 1;
    }
    proof {
        lemma_first_index_is(line@, '\t', tab as int);
    }
    if tab == n {
        return None;
    }
    let ghost status = line@.subrange(tab + 1, n as int);
    let mut k: usize = tab + 1;
    while k < n
        invariant
            tab < k <= n,
            n == line@.len(),
            chars@ == line@,
            first_index(line@, '\t') == tab,
            status == line@.subrange(tab + 1, n as int),
            forall|j: int| 0 <= j < k - tab - 1 ==> status[j] != '\t',
        decreases n - k,
    {
        if chars[k] == '\t' {
            assert(status[k - tab - 1] == '\t');
            assert(status.contains('\t'));
            return None;
        }
        k += 1;
    }
    let description = String::from_str(line.substring_char(0, tab));
    let done = same_text(line.substring_char(tab + 1, n), "done");
    Some(Task { description, done })
}

/// Reads the tasks that a text holds. Lines that are no task are skipped.
///
/// Each line is cut out of the text by character position, which walks the
/// text from its start: the time taken grows with the length of the text
/// times the number of its lines.
pub fn load_tasks(content: &str) -> (tasks: Vec<Task>)
    ensures
        views(tasks@) == tasks_of_text(content@),
{
    let chars = chars_of(content);
    let n = chars.len();
    let mut tasks: Vec<Task> = Vec::new();
    let mut pos: usize = 0;
    proof {
        assert(content@.subrange(0, n as int) =~= content@);
        assert(views(tasks@) + tasks_of_text(content@) =~= tasks_of_text(content@));
    }
    while pos < n
        invariant
            pos <= n,
            n == content@.len(),
            chars@ == content@,
            tasks_of_text(content@) == views(tasks@) + tasks_of_text(
                content@.subrange(pos as int, n as int),
            ),
        decreases n - pos,
    {
        let ghost rest = content@.subrange(pos as int, n as int);
        let ghost before = views(tasks@);
        let mut end: usize = pos;
        while end < n && chars[end] != '\n'
            invariant
                pos <= end <= n,
                n == content@.len(),
                chars@ == content@,
                forall|j: int| pos <= j < end ==> content@[j] != '\n',
            decreases n - end,
        {
            end += 1;
        }
        proof {
            lemma_first_index_is(rest, '\n', end - pos);
        }
        let stop: usize = if end < n && pos < end && chars[end - 1] == '\r' {
            end - 1
        } else {
            end
        };
        let next: usize = if end < n {
            end + 1
        } else {
            end
        };
        let line = content.substring_char(pos, stop);
        proof {
            assert(line@ =~= first_line(rest));
            assert(content@.subrange(next as int, n as int) =~= after_first_line(rest));
        }
        match parse_line(line) {
            Some(t) => {
                tasks.push(t);
                assert(views(tasks@) =~= before + seq![t@]);
            },
            None => {},
        }
        proof {
            assert(views(tasks@) =~= before + tasks_of_line(first_line(rest)));
            assert(tasks_of_text(content@) =~= views(tasks@) + tasks_of_text(
                content@.subrange(next as int, n as int),
            ));
        }
        pos = next;
    }
    proof {
        assert(tasks_of_text(content@) =~= views(tasks@));
    }
    tasks
}

/// Appending a task to a list appends its line to the text.
pub proof fn lemma_text_of_push(ts: Seq<TaskView>, t: TaskView)
    ensures
        text_of_tasks(ts.push(t)) == text_of_tasks(ts) + line_of_task(t),
{
    assert(ts.push(t).drop_last() =~= ts);
}

/// Writes a list of tasks as text, one line per task.
pub fn save_tasks(tasks: &[Task]) -> (content: String)
    ensures
        content@ == text_of_tasks(views(tasks@)),
{
    let mut content = String::new();
    let mut i: usize = 0;
    while i < tasks.len()
        invariant
            i <= tasks.len(),
            content@ == text_of_tasks(views(tasks@).take(i as int)),
        decreases tasks.len() - i,
    {
        let task = &tasks[i];
        let status = if task.done {
            "done"
        } else {
            "not done"
        };
        proof {
            reveal_strlit("\t");
            reveal_strlit("\n");
            assert(status@ =~= status_text(task.done));
            assert("\t"@ =~= seq!['\t']);
            assert("\n"@ =~= seq!['\n']);
            let all = views(tasks@);
            assert(all.take(i + 1) =~= all.take(i as int).push(task@));
            lemma_text_of_push(all.take(i as int), task@);
        }
        content.append(task.description.as_str());
        content.append("\t");
        content.append(status);
        content.append("\n");
        i += 1;
    }
    proof {
        assert(views(tasks@).take(i as int) =~= views(tasks@));
    }
    content
}

/// The text of a list that is not empty is the line of its first task,
/// followed by the text of the others.
pub proof fn lemma_text_of_first(ts: Seq<TaskView>)
    requires
        ts.len() > 0,
    ensures
        text_of_tasks(ts) == line_of_task(ts[0]) + text_of_tasks(ts.drop_first()),
    decreases ts.len(),
{
    if ts.len() == 1 {
        assert(text_of_tasks(ts.drop_last()) =~= Seq::empty());
        assert(text_of_tasks(ts.drop_first()) =~= Seq::empty());
        assert(text_of_tasks(ts) =~= line_of_task(ts[0]) + text_of_tasks(ts.drop_first()));
    } else {
        let front = ts.drop_last();
        let back = ts.drop_first();
        lemma_text_of_first(front);
        assert(front.drop_first() =~= back.drop_last());
        assert(text_of_tasks(ts) =~= line_of_task(ts[0]) + text_of_tasks(back));
    }
}

/// A text that begins with the line of a task holds that task first, and
/// then the tasks of what follows the line, provided the description is one
/// that the format can carry.
pub proof fn lemma_tasks_of_line_then(t: TaskView, rest: Seq<char>)
    requires
        plain(t.description),
    ensures
        tasks_of_text(line_of_task(t) + rest) == seq![t] + tasks_of_text(rest),
{
    reveal_strlit("done");
    reveal_strlit("not done");
    let d = t.description;
    let status = status_text(t.done);
    let body = d + seq!['\t'] + status;
    let s = line_of_task(t) + rest;
    let m = body.len() as int;
    assert forall|j: int| 0 <= j < m implies s[j] != '\n' by {
        if j < d.len() {
            assert(d[j] == s[j]);
        } else if j > d.len() {
            assert(s[j] == status[j - d.len() - 1]);
        }
    }
    lemma_first_index_is(s, '\n', m);
    assert(s[m - 1] == status[status.len() - 1]);
    assert(first_line(s) =~= body);
    assert(after_first_line(s) =~= rest);
    assert forall|j: int| 0 <= j < d.len() implies body[j] != '\t' by {
        assert(d[j] == body[j]);
    }
    lemma_first_index_is(body, '\t', d.len() as int);
    assert(body.subrange(0, d.len() as int) =~= d);
    assert(body.subrange(d.len() as int + 1, m) =~= status);
    assert(task_of_line(body) == Some(t));
}

/// Writing a list and reading the text back gives the same descriptions and
/// the same flags, in the same order, for every list whose descriptions hold
/// neither a tab nor a line feed.
pub proof fn lemma_round_trip(ts: Seq<TaskView>)
    requires
        all_plain(ts),
    ensures
        tasks_of_text(text_of_tasks(ts)) == ts,
    decreases ts.len(),
{
    if ts.len() > 0 {
        let others = ts.drop_first();
        lemma_text_of_first(ts);
        lemma_tasks_of_line_then(ts[0], text_of_tasks(others));
        assert forall|i: int| 0 <= i < others.len() implies plain(
            (#[trigger] others[i]).description,
        ) by {
            assert(others[i] == ts[i + 1]);
        }
        lemma_round_trip(others);
        assert(seq![ts[0]] + others =~= ts);
    }
}

/// Whatever the text, the descriptions read from it hold neither a tab nor
/// a line feed: what was read can always be written and read back.
pub proof fn lemma_read_is_plain(s: Seq<char>)
    ensures
        all_plain(tasks_of_text(s)),
    decreases s.len(),
{
    if s.len() > 0 {
        let line = first_line(s);
        let later = tasks_of_text(after_first_line(s));
        lemma_first_index(s, '\n');
        lemma_first_index(line, '\t');
        lemma_read_is_plain(after_first_line(s));
        let here = tasks_of_line(line);
        if here.len() > 0 {
            let d = here[0].description;
            assert forall|j: int| 0 <= j < d.len() implies d[j] != '\t' && d[j] != '\n' by {
                assert(d[j] == line[j]);
                assert(line[j] == s[j]);
            }
        }
        let all = tasks_of_text(s);
        assert forall|i: int| 0 <= i < all.len() implies plain((#[trigger] all[i]).description) by {
            if i >= here.len() {
                assert(all[i] == later[i - here.len()]);
            }
        }
    }
}

/// A line with more than one tab is no task.
pub proof fn lemma_two_tabs_no_task(line: Seq<char>, i: int, j: int)
    requires
        0 <= i < j < line.len(),
        line[i] == '\t',
        line[j] == '\t',
    ensures
        task_of_line(line) is None,
{
    lemma_first_index(line, '\t');
    let f = first_index(line, '\t');
    let after = line.subrange(f + 1, line.len() as int);
    assert(after[j - f - 1] == '\t');
}

/// A line without a tab is no task.
pub proof fn lemma_no_tab_no_task(line: Seq<char>)
    requires
        !line.contains('\t'),
    ensures
        task_of_line(line) is None,
{
    lemma_first_index(line, '\t');
}

} // verus!
