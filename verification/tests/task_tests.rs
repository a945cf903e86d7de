use to_do_cli::task::Task;

#[test]
fn new_task_is_not_done() {
    let task = Task::new(String::from("buy milk"));
    assert_eq!(task.description, "buy milk");
    assert!(!task.done);
}

#[test]
fn mark_done_sets_the_flag_and_keeps_the_description() {
    let mut task = Task::new(String::from("buy milk"));
    task.mark_done();
    assert!(task.done);
    assert_eq!(task.description, "buy milk");
}

#[test]
fn mark_done_twice_is_mark_done_once() {
    let mut task = Task::new(String::from("buy milk"));
    task.mark_done();
    task.mark_done();
    assert!(task.done);
    assert_eq!(task.description, "buy milk");
}

#[test]
fn display_of_an_open_task_shows_a_cross() {
    let task = Task::new(String::from("buy milk"));
    assert_eq!(task.display(), "\u{274c} - buy milk");
}

#[test]
fn display_of_a_done_task_shows_a_check_mark() {
    let mut task = Task::new(String::from("buy milk"));
    task.mark_done();
    assert_eq!(task.display(), "\u{2714}\u{fe0f} - buy milk");
}

#[test]
fn display_of_an_empty_description() {
    let task = Task::new(String::new());
    assert_eq!(task.display(), "\u{274c} - ");
}
