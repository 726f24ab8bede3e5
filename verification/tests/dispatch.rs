use kashan786_cli_app::{
    begin, one_or_two_values, proceed, run, two_values, Command, Invocation, Progress,
};

fn nothing() -> Invocation {
    Invocation {
        make_directory: None,
        make_file: None,
        echo: None,
        list: false,
        remove: None,
        view_file: None,
        match_pattern: None,
        remove_directory: None,
        clear_terminal: false,
        copy_file: None,
        directory_path: false,
        date: false,
        zip_directory: None,
        rename: None,
    }
}

fn text(s: &str) -> String {
    s.to_string()
}

#[test]
fn no_flag_asks_for_nothing() {
    assert_eq!(run(&nothing()), Vec::<Command>::new());
}

#[test]
fn one_flag_asks_for_one_command() {
    let mut invocation = nothing();
    invocation.rename = Some((text("old.txt"), text("new.txt")));
    assert_eq!(
        run(&invocation),
        vec![Command::Rename { filename: text("old.txt"), new_filename: text("new.txt") }]
    );
}

#[test]
fn echo_takes_one_or_two_values() {
    let mut invocation = nothing();
    invocation.echo = Some((text("hi"), None));
    assert_eq!(run(&invocation), vec![Command::Echo { text: text("hi"), filename: None }]);
    invocation.echo = Some((text("hi"), Some(text("out.txt"))));
    assert_eq!(
        run(&invocation),
        vec![Command::Echo { text: text("hi"), filename: Some(text("out.txt")) }]
    );
}

#[test]
fn every_flag_gives_its_command_in_declaration_order() {
    let invocation = Invocation {
        make_directory: Some(text("d")),
        make_file: Some(text("f")),
        echo: Some((text("t"), Some(text("e")))),
        list: true,
        remove: Some(text("r")),
        view_file: Some(text("v")),
        match_pattern: Some((text("p"), text("m"))),
        remove_directory: Some(text("rd")),
        clear_terminal: true,
        copy_file: Some((text("from"), text("to"))),
        directory_path: true,
        date: true,
        zip_directory: Some((text("dir"), text("out.zip"))),
        rename: Some((text("old"), text("new"))),
    };
    assert_eq!(
        run(&invocation),
        vec![
            Command::MakeDirectory { name: text("d") },
            Command::MakeFile { name: text("f") },
            Command::Echo { text: text("t"), filename: Some(text("e")) },
            Command::List,
            Command::Remove { filename: text("r") },
            Command::ViewFile { filename: text("v") },
            Command::MatchPattern { pattern: text("p"), filename: text("m") },
            Command::RemoveDirectory { name: text("rd") },
            Command::ClearTerminal,
            Command::CopyFile { filename: text("from"), destination: text("to") },
            Command::DirectoryPath,
            Command::Date,
            Command::ZipDirectory { directory_name: text("dir"), output: text("out.zip") },
            Command::Rename { filename: text("old"), new_filename: text("new") },
        ]
    );
}

#[test]
fn absent_flags_leave_no_gap() {
    let mut invocation = nothing();
    invocation.date = true;
    invocation.list = true;
    invocation.zip_directory = Some((text("dir"), text("out.zip")));
    invocation.make_file = Some(text("f"));
    assert_eq!(
        run(&invocation),
        vec![
            Command::MakeFile { name: text("f") },
            Command::List,
            Command::Date,
            Command::ZipDirectory { directory_name: text("dir"), output: text("out.zip") },
        ]
    );
}

#[test]
fn flags_without_values_are_told_apart() {
    let mut invocation = nothing();
    invocation.clear_terminal = true;
    assert_eq!(run(&invocation), vec![Command::ClearTerminal]);
    invocation.clear_terminal = false;
    invocation.directory_path = true;
    assert_eq!(run(&invocation), vec![Command::DirectoryPath]);
}

#[test]
fn a_run_without_commands_ends_at_once() {
    assert_eq!(begin(&Vec::new()), Progress::Exit { code: 0 });
}

#[test]
fn a_run_begins_with_the_first_command() {
    assert_eq!(begin(&vec![Command::List, Command::Date]), Progress::Perform { index: 0 });
}

#[test]
fn after_a_success_the_next_command_follows() {
    let commands = vec![Command::List, Command::ClearTerminal, Command::Date];
    assert_eq!(proceed(&commands, 0, true), Progress::Perform { index: 1 });
    assert_eq!(proceed(&commands, 1, true), Progress::Perform { index: 2 });
    assert_eq!(proceed(&commands, 2, true), Progress::Exit { code: 0 });
}

#[test]
fn a_failure_ends_the_run_with_exit_code_one() {
    let commands = vec![Command::List, Command::ClearTerminal, Command::Date];
    assert_eq!(proceed(&commands, 0, false), Progress::Exit { code: 1 });
    assert_eq!(proceed(&commands, 2, false), Progress::Exit { code: 1 });
}

#[test]
fn past_the_end_there_is_nothing_to_perform() {
    let commands = vec![Command::List];
    assert_eq!(proceed(&commands, 5, true), Progress::Exit { code: 0 });
    assert_eq!(proceed(&commands, usize::MAX, true), Progress::Exit { code: 0 });
}

#[test]
fn a_whole_run_stops_at_the_first_failure() {
    let commands = vec![Command::List, Command::ClearTerminal, Command::Date, Command::DirectoryPath];
    let succeeds = [true, true, false, true];
    let mut performed = Vec::new();
    let mut progress = begin(&commands);
    let code = loop {
        match progress {
            Progress::Perform { index } => {
                performed.push(index);
                progress = proceed(&commands, index, succeeds[index]);
            }
            Progress::Exit { code } => break code,
        }
    };
    assert_eq!(performed, vec![0, 1, 2]);
    assert_eq!(code, 1);
}

#[test]
fn two_values_are_taken_in_their_order() {
    assert_eq!(two_values(&vec![text("a"), text("b")]), Some((text("a"), text("b"))));
    assert_eq!(two_values(&vec![text("a")]), None);
    assert_eq!(two_values(&Vec::new()), None);
    assert_eq!(two_values(&vec![text("a"), text("b"), text("c")]), None);
}

#[test]
fn a_second_value_may_be_missing() {
    assert_eq!(one_or_two_values(&vec![text("a")]), Some((text("a"), None)));
    assert_eq!(one_or_two_values(&vec![text("a"), text("b")]), Some((text("a"), Some(text("b")))));
    assert_eq!(one_or_two_values(&Vec::new()), None);
    assert_eq!(one_or_two_values(&vec![text("a"), text("b"), text("c")]), None);
}
