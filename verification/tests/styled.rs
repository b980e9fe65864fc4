use taskmaster::task::{Priority, Project, Task};
use taskmaster::ToTableLikeString;

#[test]
fn heading_is_styled_when_colours_are_on() {
    colored::control::set_override(true);
    let mut project = Project::new("Home".to_string());
    project.add_task(Task::new("Clean".to_string(), "Clean the kitchen".to_string(), Priority::High));
    let table = project.to_table_string(20).unwrap();
    let expected = "        \x1b[47;30mHome\x1b[0m        \n\
                    \x1b[4mID \x1b[0m \x1b[4mName \x1b[0m \x1b[4mDescriptio\x1b[0m\n\
                    1   Clean Clean the \n\
                    \x20         kitchen   \n";
    assert_eq!(table, expected);
}

#[test]
fn trait_method_gives_the_same_table() {
    colored::control::set_override(true);
    let project = Project::new("Home".to_string());
    let by_trait = ToTableLikeString::to_table_string(&project, 30).unwrap();
    assert_eq!(by_trait, project.to_table_string(30).unwrap());
    assert!(ToTableLikeString::to_table_string(&project, 8).is_err());
}
