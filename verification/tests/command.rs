use todo_list::command::{join_from, Command, Reply};
use todo_list::store::TaskManager;

fn words(list: &[&str]) -> Vec<String> {
    list.iter().map(|word| word.to_string()).collect()
}

#[test]
fn no_command_asks_for_the_usage() {
    assert!(matches!(Command::parse(&words(&["todo_list"])), Command::Usage));
    assert!(matches!(Command::parse(&words(&[])), Command::Usage));
}

#[test]
fn add_joins_the_words_with_spaces() {
    match Command::parse(&words(&["todo_list", "add", "Buy", "milk", "today"])) {
        Command::Add(description) => assert_eq!(description, "Buy milk today"),
        other => panic!("{:?}", other),
    }
    match Command::parse(&words(&["todo_list", "add", "Buy milk"])) {
        Command::Add(description) => assert_eq!(description, "Buy milk"),
        other => panic!("{:?}", other),
    }
    match Command::parse(&words(&["todo_list", "add", "", "a", ""])) {
        Command::Add(description) => assert_eq!(description, " a "),
        other => panic!("{:?}", other),
    }
}

#[test]
fn add_without_words_asks_for_nothing() {
    assert!(matches!(Command::parse(&words(&["todo_list", "add"])), Command::Nothing));
}

#[test]
fn list_takes_no_argument() {
    assert!(matches!(Command::parse(&words(&["todo_list", "list"])), Command::List));
    assert!(matches!(Command::parse(&words(&["todo_list", "list", "all"])), Command::List));
}

#[test]
fn complete_takes_an_identifier() {
    assert!(matches!(Command::parse(&words(&["todo_list", "complete", "3"])), Command::Complete(3)));
    assert!(matches!(Command::parse(&words(&["todo_list", "complete", "+3", "4"])), Command::Complete(3)));
    assert!(matches!(
        Command::parse(&words(&["todo_list", "complete", "4294967295"])),
        Command::Complete(4294967295)
    ));
}

#[test]
fn complete_without_an_identifier_asks_for_nothing() {
    assert!(matches!(Command::parse(&words(&["todo_list", "complete"])), Command::Nothing));
    assert!(matches!(Command::parse(&words(&["todo_list", "complete", "three"])), Command::Nothing));
    assert!(matches!(Command::parse(&words(&["todo_list", "complete", "-1"])), Command::Nothing));
    assert!(matches!(Command::parse(&words(&["todo_list", "complete", ""])), Command::Nothing));
    assert!(matches!(
        Command::parse(&words(&["todo_list", "complete", "4294967296"])),
        Command::Nothing
    ));
}

#[test]
fn other_words_are_unknown() {
    assert!(matches!(Command::parse(&words(&["todo_list", "remove", "1"])), Command::Unknown));
    assert!(matches!(Command::parse(&words(&["todo_list", "Add", "x"])), Command::Unknown));
    assert!(matches!(Command::parse(&words(&["todo_list", "adds"])), Command::Unknown));
    assert!(matches!(Command::parse(&words(&["todo_list", ""])), Command::Unknown));
    assert!(matches!(Command::parse(&words(&["todo_list", " list"])), Command::Unknown));
}

#[test]
fn join_from_starts_at_the_given_word() {
    let args = words(&["a", "b", "c", "d"]);
    assert_eq!(join_from(&args, 0), "a b c d");
    assert_eq!(join_from(&args, 2), "c d");
    assert_eq!(join_from(&args, 3), "d");
    assert_eq!(join_from(&args, 4), "");
}

#[test]
fn join_from_agrees_with_the_standard_join() {
    let args = words(&["x", "", "two words", "\u{e9}", ""]);
    for from in 0..=args.len() {
        assert_eq!(join_from(&args, from), args[from..].join(" "));
    }
}

fn triples(store: &TaskManager) -> Vec<(u32, String, bool)> {
    store
        .list_tasks()
        .iter()
        .map(|task| (task.id(), task.description().to_string(), task.is_completed()))
        .collect()
}

fn triple(id: u32, description: &str, completed: bool) -> (u32, String, bool) {
    (id, description.to_string(), completed)
}

#[test]
fn run_add_adds_the_task_and_says_nothing() {
    let mut store = TaskManager::load(Some("4,a,true\n"));
    let reply = Command::Add(String::from("Buy milk")).run(&mut store);
    assert!(matches!(reply, Reply::Done));
    assert_eq!(triples(&store), vec![triple(4, "a", true), triple(5, "Buy milk", false)]);
    assert_eq!(store.next_id(), 6);
}

#[test]
fn run_list_asks_to_show_the_tasks() {
    let mut store = TaskManager::load(Some("4,a,true\n"));
    let reply = Command::List.run(&mut store);
    assert!(matches!(reply, Reply::Show));
    assert_eq!(store.save(), "4,a,true\n");
}

#[test]
fn run_complete_marks_a_task_that_is_there() {
    let mut store = TaskManager::load(Some("4,a,false\n5,b,false\n"));
    let reply = Command::Complete(5).run(&mut store);
    assert!(matches!(reply, Reply::Done));
    assert_eq!(store.save(), "4,a,false\n5,b,true\n");
}

#[test]
fn run_complete_reports_a_task_that_is_not_there() {
    let mut store = TaskManager::load(Some("4,a,false\n5,b,false\n"));
    let reply = Command::Complete(6).run(&mut store);
    assert!(matches!(reply, Reply::NotFound(6)));
    assert_eq!(store.save(), "4,a,false\n5,b,false\n");
    assert_eq!(store.next_id(), 6);
}

#[test]
fn run_of_the_other_requests_leaves_the_store_alone() {
    let mut store = TaskManager::load(Some("4,a,false\n"));
    assert!(matches!(Command::Unknown.run(&mut store), Reply::Unknown));
    assert!(matches!(Command::Usage.run(&mut store), Reply::Usage));
    assert!(matches!(Command::Nothing.run(&mut store), Reply::Done));
    assert_eq!(store.save(), "4,a,false\n");
    assert_eq!(store.next_id(), 5);
}

#[test]
fn a_command_line_is_carried_out_on_the_file() {
    let mut store = TaskManager::load(None);
    Command::parse(&words(&["todo_list", "add", "Buy", "milk"])).run(&mut store);
    let mut store = TaskManager::load(Some(&store.save()));
    Command::parse(&words(&["todo_list", "add", "Walk the dog"])).run(&mut store);
    let mut store = TaskManager::load(Some(&store.save()));
    let reply = Command::parse(&words(&["todo_list", "complete", "1"])).run(&mut store);
    assert!(matches!(reply, Reply::Done));
    assert_eq!(store.save(), "1,Buy milk,true\n2,Walk the dog,false\n");
}
