use to_do_cli::format::{load_tasks, parse_line, same_text, save_tasks};
use to_do_cli::task::Task;

fn pairs(tasks: &[Task]) -> Vec<(String, bool)> {
    let mut out = Vec::new();
    for task in tasks {
        out.push((task.description.clone(), task.done));
    }
    out
}

fn pair(description: &str, done: bool) -> (String, bool) {
    (String::from(description), done)
}

fn task(description: &str, done: bool) -> Task {
    let mut t = Task::new(String::from(description));
    if done {
        t.mark_done();
    }
    t
}

#[test]
fn same_text_tells_equal_from_different() {
    assert!(same_text("done", "done"));
    assert!(same_text("", ""));
    assert!(!same_text("done", "Done"));
    assert!(!same_text("done", "done "));
    assert!(!same_text("done", "don"));
    assert!(!same_text("", "x"));
    assert!(same_text("caf\u{e9}", "caf\u{e9}"));
    assert!(!same_text("caf\u{e9}", "cafe"));
}

#[test]
fn parse_line_reads_a_done_task() {
    let t = parse_line("buy milk\tdone").unwrap();
    assert_eq!(t.description, "buy milk");
    assert!(t.done);
}

#[test]
fn parse_line_reads_an_open_task() {
    let t = parse_line("buy milk\tnot done").unwrap();
    assert_eq!(t.description, "buy milk");
    assert!(!t.done);
}

#[test]
fn parse_line_takes_any_other_status_as_not_done() {
    for status in ["", "Done", "done ", " done", "yes", "DONE"] {
        let line = format!("walk\t{}", status);
        let t = parse_line(&line).unwrap();
        assert_eq!(t.description, "walk");
        assert!(!t.done);
    }
}

#[test]
fn parse_line_accepts_an_empty_description() {
    let t = parse_line("\tdone").unwrap();
    assert_eq!(t.description, "");
    assert!(t.done);
}

#[test]
fn parse_line_rejects_a_line_without_a_tab() {
    assert!(parse_line("buy milk").is_none());
    assert!(parse_line("").is_none());
    assert!(parse_line("buy milk done").is_none());
}

#[test]
fn parse_line_rejects_a_line_with_three_fields() {
    assert!(parse_line("a\tb\tc").is_none());
    assert!(parse_line("buy milk\tdone\t").is_none());
    assert!(parse_line("\t\t").is_none());
    assert!(parse_line("a\tdone\textra\tmore").is_none());
}

#[test]
fn load_of_an_empty_text_is_empty() {
    assert!(load_tasks("").is_empty());
}

#[test]
fn load_reads_tasks_in_file_order() {
    let tasks = load_tasks("buy milk\tnot done\nwalk dog\tdone\ncall mom\tnot done\n");
    assert_eq!(
        pairs(&tasks),
        vec![pair("buy milk", false), pair("walk dog", true), pair("call mom", false)]
    );
}

#[test]
fn load_accepts_a_last_line_without_line_feed() {
    let tasks = load_tasks("a\tdone\nb\tdone");
    assert_eq!(pairs(&tasks), vec![pair("a", true), pair("b", true)]);
}

#[test]
fn load_ignores_a_line_with_three_fields() {
    let tasks = load_tasks("a\tdone\nb\tdone\textra\nc\tnot done\n");
    assert_eq!(pairs(&tasks), vec![pair("a", true), pair("c", false)]);
}

#[test]
fn load_ignores_lines_without_a_tab_and_empty_lines() {
    let tasks = load_tasks("\n\nnothing here\na\tdone\n\n");
    assert_eq!(pairs(&tasks), vec![pair("a", true)]);
}

#[test]
fn load_takes_carriage_return_and_line_feed_as_one_line_ending() {
    let tasks = load_tasks("a\tdone\r\nb\tnot done\r\n");
    assert_eq!(pairs(&tasks), vec![pair("a", true), pair("b", false)]);
}

#[test]
fn load_keeps_a_carriage_return_that_no_line_feed_follows() {
    let tasks = load_tasks("a\tdone\r");
    assert_eq!(pairs(&tasks), vec![pair("a", false)]);
    let tasks = load_tasks("a\rb\tdone\n");
    assert_eq!(pairs(&tasks), vec![pair("a\rb", true)]);
}

#[test]
fn load_strips_one_carriage_return_only() {
    let tasks = load_tasks("a\tdone\r\r\n");
    assert_eq!(pairs(&tasks), vec![pair("a", false)]);
}

#[test]
fn load_agrees_with_lines_and_split() {
    let texts = [
        "",
        "\n",
        "\r\n",
        "a\tdone",
        "a\tdone\n\nb\tnot done\r\n\tdone\nx\ty\tz\nlast\t",
        "\t\n\t\t\n",
        "caf\u{e9}\tdone\n\u{2714}\u{fe0f} tick\tnot done\n",
    ];
    for text in texts {
        let mut expected = Vec::new();
        for line in text.lines() {
            let parts: Vec<&str> = line.split('\t').collect();
            if parts.len() == 2 {
                expected.push((parts[0].to_string(), parts[1] == "done"));
            }
        }
        assert_eq!(pairs(&load_tasks(text)), expected);
    }
}

#[test]
fn load_handles_descriptions_outside_ascii() {
    let tasks = load_tasks("caf\u{e9} \u{1f600}\tdone\n\u{4e70}\u{725b}\u{5976}\tnot done\n");
    assert_eq!(
        pairs(&tasks),
        vec![pair("caf\u{e9} \u{1f600}", true), pair("\u{4e70}\u{725b}\u{5976}", false)]
    );
}

#[test]
fn save_of_no_tasks_is_the_empty_text() {
    assert_eq!(save_tasks(&[]), "");
}

#[test]
fn save_writes_one_line_per_task() {
    let tasks = vec![task("buy milk", false), task("walk dog", true)];
    assert_eq!(save_tasks(&tasks), "buy milk\tnot done\nwalk dog\tdone\n");
}

#[test]
fn save_then_load_gives_the_same_tasks() {
    let tasks = vec![
        task("buy milk", false),
        task("walk dog", true),
        task("buy milk", true),
        task("a b  c", false),
        task("caf\u{e9}", true),
        task("with\rreturn", false),
    ];
    let text = save_tasks(&tasks);
    assert_eq!(pairs(&load_tasks(&text)), pairs(&tasks));
}

#[test]
fn load_then_save_writes_the_standard_form() {
    let text = save_tasks(&load_tasks("a\tyes\r\njunk\nb\tdone"));
    assert_eq!(text, "a\tnot done\nb\tdone\n");
    assert_eq!(save_tasks(&load_tasks(&text)), text);
}
