use taskmaster::table::{column_widths, LayoutError, INDEX_WIDTH, MIN_ROW_WIDTH, MIN_WIDTH};
use taskmaster::task::{Priority, Project, Task};

fn home() -> Project {
    let mut project = Project::new("Home".to_string());
    project.add_task(Task::new("Clean".to_string(), "Clean the kitchen".to_string(), Priority::High));
    project
}

#[test]
fn columns_split_two_fifths_down_three_fifths_up() {
    assert_eq!(column_widths(9), Ok((1, 3)));
    assert_eq!(column_widths(10), Ok((1, 4)));
    assert_eq!(column_widths(20), Ok((5, 10)));
    assert_eq!(column_widths(24), Ok((7, 12)));
    assert_eq!(column_widths(25), Ok((7, 13)));
    assert_eq!(column_widths(80), Ok((29, 46)));
}

#[test]
fn columns_fill_the_width() {
    for width in MIN_WIDTH..300 {
        let (name, description) = column_widths(width).unwrap();
        assert_eq!(3 + 1 + name + 1 + description, width);
        assert!(name >= 1);
    }
}

#[test]
fn too_narrow_is_an_error() {
    assert_eq!(MIN_WIDTH, 9);
    for width in 0..MIN_WIDTH {
        assert_eq!(column_widths(width), Err(LayoutError::TooNarrow));
        assert_eq!(home().to_plain_table_string(width), Err(LayoutError::TooNarrow));
        assert_eq!(home().to_table_string(width), Err(LayoutError::TooNarrow));
        assert_eq!(home().assemble_table(width, "", "", "", ""), Err(LayoutError::TooNarrow));
    }
    assert!(home().to_plain_table_string(MIN_WIDTH).is_ok());
}

#[test]
fn task_lines_need_six_columns_after_the_index() {
    assert_eq!(MIN_ROW_WIDTH, 6);
    assert_eq!(MIN_ROW_WIDTH + INDEX_WIDTH, MIN_WIDTH);
    for width in 0..MIN_ROW_WIDTH {
        assert_eq!(home().tasks()[0].to_table_string(1, width), Err(LayoutError::TooNarrow));
    }
    assert!(home().tasks()[0].to_table_string(1, MIN_ROW_WIDTH).is_ok());
}

#[test]
fn task_lines_are_three_wider_than_the_width_given() {
    let task = Task::new("A rather long name".to_string(), "and a description".to_string(), Priority::Low);
    for width in MIN_ROW_WIDTH..100 {
        for id in [1, 7, 42, 999] {
            let rows = task.to_table_string(id, width).unwrap();
            assert!(rows.ends_with('\n'));
            for line in rows[..rows.len() - 1].split('\n') {
                assert_eq!(line.len(), width + 3);
            }
        }
    }
}

#[test]
fn table_rows_are_the_task_lines_at_three_less() {
    let mut project = Project::new("Home".to_string());
    project.add_task(Task::new("Clean".to_string(), "Clean the kitchen".to_string(), Priority::High));
    project.add_task(Task::new("Cook".to_string(), "Dinner for four".to_string(), Priority::Low));
    for width in MIN_WIDTH..60 {
        let table = project.to_plain_table_string(width).unwrap();
        let rest = table.splitn(3, '\n').nth(2).unwrap().to_string();
        let mut expected = String::new();
        for (i, task) in project.tasks().iter().enumerate() {
            expected.push_str(&task.to_table_string(i + 1, width - 3).unwrap());
        }
        assert_eq!(rest, expected);
    }
}

#[test]
fn task_of_three_name_lines_at_width_eleven() {
    let task = Task::new("abcdefgh".to_string(), "xy".to_string(), Priority::High);
    assert_eq!(
        task.to_table_string(1, 11).unwrap(),
        "1   abc xy    \n    def       \n    gh        \n"
    );
}

#[test]
fn task_at_width_twelve() {
    let task = Task::new("Clean".to_string(), "Clean the kitchen".to_string(), Priority::High);
    assert_eq!(
        task.to_table_string(1, 12).unwrap(),
        "1   Cle Clean t\n    an  he kitc\n        hen    \n"
    );
}

#[test]
fn empty_task_at_width_eleven() {
    let task = Task::new(String::new(), String::new(), Priority::Low);
    assert_eq!(task.to_table_string(1, 11).unwrap(), format!("1{}\n", " ".repeat(13)));
}

#[test]
fn one_task_table() {
    let table = home().to_plain_table_string(20).unwrap();
    let expected = "        Home        \n\
                    ID  Name  Descriptio\n\
                    1   Clean Clean the \n\
                    \x20         kitchen   \n";
    assert_eq!(table, expected);
}

#[test]
fn first_data_row_begins_with_index_one() {
    let table = home().to_plain_table_string(40).unwrap();
    let lines: Vec<&str> = table.lines().collect();
    assert!(lines[2].starts_with("1  "));
    assert_eq!(lines[2], format!("{:<3} {:<13} {:<22}", "1", "Clean", "Clean the kitchen"));
    assert_eq!(lines.len(), 3);
}

#[test]
fn table_without_tasks_is_heading_only() {
    let mut project = home();
    project.remove_task(1);
    let table = project.to_plain_table_string(20).unwrap();
    assert_eq!(table, "        Home        \nID  Name  Descriptio\n");
}

#[test]
fn wide_table_pads_labels() {
    let table = Project::new("Home".to_string()).to_plain_table_string(40).unwrap();
    let lines: Vec<&str> = table.lines().collect();
    assert_eq!(lines[0], format!("{:18}Home{:18}", "", ""));
    assert_eq!(lines[1], format!("{:<3} {:<13} {:<22}", "ID", "Name", "Description"));
}

#[test]
fn every_line_is_as_wide_as_the_table() {
    let mut project = Project::new("Errands".to_string());
    project.add_task(Task::new("Clean".to_string(), "Clean the kitchen".to_string(), Priority::High));
    project.add_task(Task::new(
        "A rather long name that wraps".to_string(),
        "x".to_string(),
        Priority::Low,
    ));
    project.add_task(Task::new(String::new(), String::new(), Priority::Medium));
    for width in MIN_WIDTH..120 {
        let table = project.to_plain_table_string(width).unwrap();
        assert!(table.ends_with('\n'));
        for line in table[..table.len() - 1].split('\n') {
            assert_eq!(line.chars().count(), width);
        }
    }
}

#[test]
fn name_of_three_lines_beside_description_of_one() {
    let task = Task::new("abcdefghijkl".to_string(), "short".to_string(), Priority::High);
    let rows = task.to_table_string(1, 17).unwrap();
    let expected = format!(
        "{:<20}\n{:<20}\n{:<20}\n",
        "1   abcde short", "    fghij", "    kl"
    );
    assert_eq!(rows, expected);
    let lines: Vec<&str> = rows.lines().collect();
    assert_eq!(lines.len(), 3);
    assert_eq!(&lines[1][10..], "          ");
    assert_eq!(&lines[2][10..], "          ");
}

#[test]
fn description_longer_than_name() {
    let task = Task::new("ab".to_string(), "0123456789abcdefghijKLM".to_string(), Priority::Low);
    let rows = task.to_table_string(12, 17).unwrap();
    let expected = format!(
        "{:<20}\n{:<20}\n{:<20}\n",
        "12  ab    0123456789", "          abcdefghij", "          KLM"
    );
    assert_eq!(rows, expected);
}

#[test]
fn field_that_fills_its_column_takes_one_more_line() {
    let task = Task::new("abcde".to_string(), "0123456789".to_string(), Priority::Low);
    let rows = task.to_table_string(3, 17).unwrap();
    assert_eq!(rows, format!("{:<20}\n{:<20}\n", "3   abcde 0123456789", ""));
}

#[test]
fn empty_fields_take_one_blank_line() {
    let task = Task::new(String::new(), String::new(), Priority::Low);
    assert_eq!(task.to_table_string(7, 6).unwrap(), "7        \n");
}

#[test]
fn index_zero_is_blank() {
    let task = Task::new("a".to_string(), "b".to_string(), Priority::Low);
    assert_eq!(task.to_table_string(0, 17).unwrap(), format!("{:<20}\n", "    a     b"));
}

#[test]
fn narrowest_table_wraps_every_character_of_the_name() {
    let task = Task::new("abc".to_string(), "xyz".to_string(), Priority::Low);
    let rows = task.to_table_string(1, 6).unwrap();
    assert_eq!(rows, "1   a xyz\n    b    \n    c    \n         \n");
}

#[test]
fn index_of_four_digits_widens_its_line() {
    let task = Task::new("a".to_string(), "b".to_string(), Priority::Low);
    let rows = task.to_table_string(1000, 17).unwrap();
    assert_eq!(rows, format!("{:<21}\n", "1000 a     b"));
}

#[test]
fn tasks_are_numbered_from_one() {
    let mut project = Project::new("P".to_string());
    project.add_task(Task::new("a".to_string(), "x".to_string(), Priority::Low));
    project.add_task(Task::new("b".to_string(), "y".to_string(), Priority::Low));
    let table = project.to_plain_table_string(20).unwrap();
    let lines: Vec<&str> = table.lines().collect();
    assert_eq!(lines.len(), 4);
    assert_eq!(lines[0], "          P         ");
    assert_eq!(lines[2], format!("{:<20}", "1   a     x"));
    assert_eq!(lines[3], format!("{:<20}", "2   b     y"));
}

#[test]
fn long_project_name_has_no_margins() {
    let project = Project::new("A very long project name".to_string());
    let table = project.to_plain_table_string(10).unwrap();
    assert_eq!(table, "A very long project name\nID  N Desc\n");
}

#[test]
fn assemble_table_takes_the_heading_as_given() {
    let table = home().assemble_table(20, "<Home>", "[I]", "[N]", "[D]").unwrap();
    let expected = "        <Home>        \n\
                    [I] [N] [D]\n\
                    1   Clean Clean the \n\
                    \x20         kitchen   \n";
    assert_eq!(table, expected);
}

#[test]
fn unstyled_table_when_colours_are_off() {
    colored::control::set_override(false);
    assert_eq!(
        home().to_table_string(20).unwrap(),
        home().to_plain_table_string(20).unwrap()
    );
}
