use taskmaster::task::{Priority, Project, Task};
use taskmaster::Serializer;

fn sample() -> Task {
    Task::new("Buy milk".to_string(), "2% organic".to_string(), Priority::High)
}

#[test]
fn priority_texts() {
    assert_eq!(Priority::High.serialize(), "High");
    assert_eq!(Priority::Medium.serialize(), "Medium");
    assert_eq!(Priority::Low.serialize(), "Low");
}

#[test]
fn priority_reads_its_three_texts_only() {
    assert_eq!(Priority::deserialize("High"), Some(Priority::High));
    assert_eq!(Priority::deserialize("Medium"), Some(Priority::Medium));
    assert_eq!(Priority::deserialize("Low"), Some(Priority::Low));
    assert_eq!(Priority::deserialize("Urgent"), None);
    assert_eq!(Priority::deserialize("high"), None);
    assert_eq!(Priority::deserialize(""), None);
    assert_eq!(Priority::deserialize("High "), None);
}

#[test]
fn new_task_is_not_completed() {
    let task = sample();
    assert_eq!(task.name(), "Buy milk");
    assert_eq!(task.description(), "2% organic");
    assert_eq!(*task.priority(), Priority::High);
    assert!(!task.is_completed());
}

#[test]
fn task_line_has_four_fields_in_order() {
    assert_eq!(sample().serialize(), "false ` Buy milk ` 2% organic ` High");
    assert_eq!(sample().encode(), "false ` Buy milk ` 2% organic ` High");
}

#[test]
fn task_line_is_read_back() {
    let task = Task::deserialize("true ` Walk ` Round the block ` Low").unwrap();
    assert_eq!(task.name(), "Walk");
    assert_eq!(task.description(), "Round the block");
    assert_eq!(*task.priority(), Priority::Low);
    assert!(task.is_completed());
}

#[test]
fn task_round_trip() {
    let back = Task::deserialize(&sample().serialize()).unwrap();
    assert_eq!(back.name(), "Buy milk");
    assert_eq!(back.description(), "2% organic");
    assert_eq!(*back.priority(), Priority::High);
    assert!(!back.is_completed());
    let done = Task::deserialize("true ` a ` b ` Medium").unwrap();
    assert_eq!(done.serialize(), "true ` a ` b ` Medium");
}

#[test]
fn task_with_empty_fields_round_trips() {
    let task = Task::new(String::new(), String::new(), Priority::Medium);
    let line = task.serialize();
    assert_eq!(line, "false `  `  ` Medium");
    let back = Task::deserialize(&line).unwrap();
    assert_eq!(back.name(), "");
    assert_eq!(back.description(), "");
    assert_eq!(*back.priority(), Priority::Medium);
}

#[test]
fn task_line_with_three_fields_fails() {
    assert!(Task::deserialize("false ` Buy milk ` High").is_none());
    assert!(Task::deserialize("false ` Buy milk").is_none());
    assert!(Task::deserialize("false").is_none());
    assert!(Task::deserialize("").is_none());
}

#[test]
fn task_line_with_unknown_priority_fails() {
    assert!(Task::deserialize("false ` Buy milk ` 2% organic ` Urgent").is_none());
    assert!(Task::deserialize("false ` Buy milk ` 2% organic ` ").is_none());
}

#[test]
fn any_flag_but_true_is_false() {
    assert!(Task::deserialize("true ` a ` b ` High").unwrap().is_completed());
    assert!(!Task::deserialize("false ` a ` b ` High").unwrap().is_completed());
    assert!(!Task::deserialize("yes ` a ` b ` High").unwrap().is_completed());
    assert!(!Task::deserialize("True ` a ` b ` High").unwrap().is_completed());
    assert!(!Task::deserialize(" ` a ` b ` High").unwrap().is_completed());
}

#[test]
fn fields_after_the_fourth_are_ignored() {
    let task = Task::deserialize("false ` a ` b ` High ` more").unwrap();
    assert_eq!(task.name(), "a");
    assert_eq!(task.description(), "b");
    assert_eq!(*task.priority(), Priority::High);
}

#[test]
fn name_ending_in_blank_and_backtick_is_not_read_back() {
    let task = Task::new("a `".to_string(), "b".to_string(), Priority::High);
    let line = task.serialize();
    assert_eq!(line, "false ` a ` ` b ` High");
    let back = Task::deserialize(&line).unwrap();
    assert_eq!(back.name(), "a");
    assert_eq!(back.description(), "` b");
}

#[test]
fn non_ascii_fields_round_trip() {
    let task = Task::new("caf\u{e9}".to_string(), "na\u{ef}ve \u{2603}".to_string(), Priority::Low);
    let back = Task::deserialize(&task.serialize()).unwrap();
    assert_eq!(back.name(), "caf\u{e9}");
    assert_eq!(back.description(), "na\u{ef}ve \u{2603}");
}

#[test]
fn new_project_is_empty() {
    let project = Project::new("Home".to_string());
    assert_eq!(project.name(), "Home");
    assert!(project.tasks().is_empty());
}

#[test]
fn add_task_appends() {
    let mut project = Project::new("Home".to_string());
    project.add_task(Task::new("one".to_string(), "1".to_string(), Priority::High));
    project.add_task(Task::new("two".to_string(), "2".to_string(), Priority::Low));
    assert_eq!(project.name(), "Home");
    assert_eq!(project.tasks().len(), 2);
    assert_eq!(project.tasks()[0].name(), "one");
    assert_eq!(project.tasks()[1].name(), "two");
}

#[test]
fn remove_task_counts_from_one() {
    let mut project = Project::new("Home".to_string());
    project.add_task(Task::new("one".to_string(), "1".to_string(), Priority::High));
    project.add_task(Task::new("two".to_string(), "2".to_string(), Priority::Low));
    project.add_task(Task::new("three".to_string(), "3".to_string(), Priority::Low));
    assert!(project.remove_task(0).is_none());
    assert!(project.remove_task(4).is_none());
    assert_eq!(project.tasks().len(), 3);
    let removed = project.remove_task(2).unwrap();
    assert_eq!(removed.name(), "two");
    assert_eq!(project.tasks().len(), 2);
    assert_eq!(project.tasks()[0].name(), "one");
    assert_eq!(project.tasks()[1].name(), "three");
    assert_eq!(project.name(), "Home");
}

#[test]
fn empty_project_is_its_name_alone() {
    assert_eq!(Project::new("Home".to_string()).serialize(), "Home");
    let back = Project::deserialize("Home").unwrap();
    assert_eq!(back.name(), "Home");
    assert!(back.tasks().is_empty());
}

#[test]
fn project_text_is_name_then_task_lines() {
    let mut project = Project::new("Home".to_string());
    project.add_task(Task::new("Clean".to_string(), "Clean the kitchen".to_string(), Priority::High));
    project.add_task(Task::new("Cook".to_string(), "Dinner".to_string(), Priority::Medium));
    assert_eq!(
        project.serialize(),
        "Home\nfalse ` Clean ` Clean the kitchen ` High\nfalse ` Cook ` Dinner ` Medium"
    );
}

#[test]
fn project_round_trip() {
    let mut project = Project::new("Home".to_string());
    project.add_task(Task::new("Clean".to_string(), "Clean the kitchen".to_string(), Priority::High));
    project.add_task(Task::new("Cook".to_string(), "Dinner".to_string(), Priority::Medium));
    project.add_task(Task::new("Rest".to_string(), "".to_string(), Priority::Low));
    let back = Project::deserialize(&project.encode()).unwrap();
    assert_eq!(back.name(), "Home");
    assert_eq!(back.tasks().len(), 3);
    for (old, new) in project.tasks().iter().zip(back.tasks().iter()) {
        assert_eq!(old.name(), new.name());
        assert_eq!(old.description(), new.description());
        assert_eq!(old.priority(), new.priority());
        assert_eq!(old.is_completed(), new.is_completed());
    }
    assert_eq!(back.serialize(), project.serialize());
}

#[test]
fn project_with_a_bad_line_fails_whole() {
    assert!(Project::deserialize("Home\nfalse ` a ` b").is_none());
    assert!(Project::deserialize("Home\nfalse ` a ` b ` High\nbroken").is_none());
    assert!(Project::deserialize("Home\nbroken\nfalse ` a ` b ` High").is_none());
    assert!(Project::deserialize("Home\nfalse ` a ` b ` Urgent").is_none());
}

#[test]
fn empty_line_is_no_task() {
    assert!(Project::deserialize("Home\n").is_none());
    assert!(Project::deserialize("Home\nfalse ` a ` b ` High\n").is_none());
}

#[test]
fn empty_text_is_a_project_without_a_name() {
    let project = Project::deserialize("").unwrap();
    assert_eq!(project.name(), "");
    assert!(project.tasks().is_empty());
}

#[test]
fn project_name_may_hold_the_delimiter() {
    let project = Project::deserialize("a ` b\ntrue ` x ` y ` Low").unwrap();
    assert_eq!(project.name(), "a ` b");
    assert_eq!(project.tasks().len(), 1);
    assert!(project.tasks()[0].is_completed());
}
