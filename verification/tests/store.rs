use todo_list::store::TaskManager;
use todo_list::task::Task;

fn triples(store: &TaskManager) -> Vec<(u32, String, bool)> {
    store
        .list_tasks()
        .iter()
        .map(|task| (task.id(), task.description().to_string(), task.is_completed()))
        .collect()
}

fn triple(id: u32, description: &str, completed: bool) -> (u32, String, bool) {
    (id, description.to_string(), completed)
}

#[test]
fn new_task_is_not_done() {
    let task = Task::new(3, String::from("Buy milk"));
    assert_eq!(task.id(), 3);
    assert_eq!(task.description(), "Buy milk");
    assert!(!task.is_completed());
}

#[test]
fn completed_task_is_done_and_stays_done() {
    let mut task = Task::new(3, String::from("Buy milk"));
    task.complete();
    assert!(task.is_completed());
    task.complete();
    assert!(task.is_completed());
    assert_eq!(task.id(), 3);
    assert_eq!(task.description(), "Buy milk");
}

#[test]
fn task_shows_its_fields() {
    let task = Task::new(1, String::from("x"));
    assert_eq!(format!("{:?}", task), "Task { id: 1, description: \"x\", completed: false }");
}

#[test]
fn new_store_is_empty_and_starts_at_one() {
    let store = TaskManager::new();
    assert!(store.list_tasks().is_empty());
    assert_eq!(store.next_id(), 1);
}

#[test]
fn add_task_gives_the_next_identifier() {
    let mut store = TaskManager::new();
    assert_eq!(store.add_task(String::from("a")), 1);
    assert_eq!(store.next_id(), 2);
    assert_eq!(store.add_task(String::from("b")), 2);
    assert_eq!(store.add_task(String::from("c")), 3);
    assert_eq!(store.next_id(), 4);
    assert_eq!(triples(&store), vec![triple(1, "a", false), triple(2, "b", false), triple(3, "c", false)]);
}

#[test]
fn add_task_takes_any_description() {
    let mut store = TaskManager::new();
    store.add_task(String::new());
    store.add_task(String::from("a,b\nc"));
    assert_eq!(triples(&store), vec![triple(1, "", false), triple(2, "a,b\nc", false)]);
}

#[test]
fn add_task_after_load_goes_on_above_the_largest_identifier() {
    let mut store = TaskManager::load(Some("7,a,true\n3,b,false\n"));
    assert_eq!(store.next_id(), 8);
    assert_eq!(store.add_task(String::from("c")), 8);
    assert_eq!(triples(&store), vec![triple(7, "a", true), triple(3, "b", false), triple(8, "c", false)]);
}

#[test]
fn add_task_can_hand_out_the_largest_identifier() {
    let mut store = TaskManager::load(Some("4294967294,a,false\n"));
    assert_eq!(store.next_id(), 4294967295);
    assert_eq!(store.add_task(String::from("b")), u32::MAX);
    assert_eq!(store.next_id(), 4294967296);
}

#[test]
fn complete_task_marks_the_task_and_no_other() {
    let mut store = TaskManager::new();
    store.add_task(String::from("a"));
    store.add_task(String::from("b"));
    store.add_task(String::from("c"));
    assert!(store.complete_task(2));
    assert_eq!(triples(&store), vec![triple(1, "a", false), triple(2, "b", true), triple(3, "c", false)]);
    assert_eq!(store.next_id(), 4);
}

#[test]
fn complete_task_of_an_unknown_identifier_changes_nothing() {
    let mut store = TaskManager::new();
    store.add_task(String::from("a"));
    store.add_task(String::from("b"));
    assert!(!store.complete_task(3));
    assert!(!store.complete_task(0));
    assert_eq!(triples(&store), vec![triple(1, "a", false), triple(2, "b", false)]);
    assert_eq!(store.next_id(), 3);
}

#[test]
fn complete_task_on_an_empty_store_finds_nothing() {
    let mut store = TaskManager::new();
    assert!(!store.complete_task(1));
    assert!(store.list_tasks().is_empty());
}

#[test]
fn complete_task_twice_keeps_the_task_done() {
    let mut store = TaskManager::new();
    store.add_task(String::from("a"));
    assert!(store.complete_task(1));
    assert!(store.complete_task(1));
    assert_eq!(triples(&store), vec![triple(1, "a", true)]);
}

#[test]
fn complete_task_marks_the_first_of_equal_identifiers() {
    let mut store = TaskManager::load(Some("4,a,false\n9,b,false\n9,c,false\n4,d,false\n"));
    assert!(store.complete_task(9));
    assert_eq!(
        triples(&store),
        vec![triple(4, "a", false), triple(9, "b", true), triple(9, "c", false), triple(4, "d", false)]
    );
    assert!(store.complete_task(9));
    assert_eq!(
        triples(&store),
        vec![triple(4, "a", false), triple(9, "b", true), triple(9, "c", false), triple(4, "d", false)]
    );
}

#[test]
fn load_of_a_missing_file_is_the_empty_store() {
    let store = TaskManager::load(None);
    assert!(store.list_tasks().is_empty());
    assert_eq!(store.next_id(), 1);
}

#[test]
fn load_of_an_empty_file_is_the_empty_store() {
    let store = TaskManager::load(Some(""));
    assert!(store.list_tasks().is_empty());
    assert_eq!(store.next_id(), 1);
}

#[test]
fn load_reads_a_done_task_and_counts_on_from_it() {
    let store = TaskManager::load(Some("5,Buy milk,true\n"));
    assert_eq!(triples(&store), vec![triple(5, "Buy milk", true)]);
    assert!(store.next_id() >= 6);
    assert_eq!(store.next_id(), 6);
}

#[test]
fn load_sets_the_counter_above_the_largest_identifier() {
    let store = TaskManager::load(Some("2,a,false\n10,b,false\n4,c,true\n"));
    assert_eq!(store.next_id(), 11);
    let store = TaskManager::load(Some("0,a,false\nx,b,false\n"));
    assert_eq!(store.next_id(), 1);
    let store = TaskManager::load(Some("4294967295,a,false\n1,b,false\n"));
    assert_eq!(store.next_id(), 4294967296);
}

#[test]
fn load_drops_a_line_with_fewer_than_three_fields() {
    let store = TaskManager::load(Some("1,a,false\n2,b\n3,c,true\n"));
    assert_eq!(triples(&store), vec![triple(1, "a", false), triple(3, "c", true)]);
    assert_eq!(store.next_id(), 4);
}

#[test]
fn dropped_line_does_not_move_the_counter() {
    let store = TaskManager::load(Some("1,a,false\n99\n98,b\n97,c,d,true\n"));
    assert_eq!(triples(&store), vec![triple(1, "a", false)]);
    assert_eq!(store.next_id(), 2);
}

#[test]
fn save_writes_a_line_for_each_task() {
    let mut store = TaskManager::new();
    store.add_task(String::from("Buy milk"));
    store.add_task(String::from("Walk the dog"));
    store.complete_task(1);
    assert_eq!(store.save(), "1,Buy milk,true\n2,Walk the dog,false\n");
}

#[test]
fn save_of_the_empty_store_is_empty() {
    assert_eq!(TaskManager::new().save(), "");
}

#[test]
fn save_then_load_gives_the_same_tasks() {
    let mut store = TaskManager::new();
    store.add_task(String::from("Buy milk"));
    store.add_task(String::from("caf\u{e9}: 2 cups; \"now\""));
    store.add_task(String::new());
    store.complete_task(2);
    let back = TaskManager::load(Some(&store.save()));
    assert_eq!(triples(&back), triples(&store));
    assert_eq!(back.next_id(), store.next_id());
}

#[test]
fn load_then_save_gives_a_clean_file_back() {
    let text = "3,a,true\n1,b,false\n4294967295,c,false\n";
    assert_eq!(TaskManager::load(Some(text)).save(), text);
    assert_eq!(TaskManager::load(Some("+3,a,yes\r\nskip me\n")).save(), "3,a,false\n");
}

#[test]
fn save_then_load_loses_a_task_with_a_comma() {
    let mut store = TaskManager::new();
    store.add_task(String::from("eggs, milk"));
    store.add_task(String::from("b"));
    let back = TaskManager::load(Some(&store.save()));
    assert_eq!(triples(&back), vec![triple(2, "b", false)]);
}
