use auto_check_rs::aggregator::{apply_event, Action, Changes, RawEvent};
use ignore::gitignore::{Gitignore, GitignoreBuilder};

fn bytes(s: &str) -> Vec<u8> {
    s.as_bytes().to_vec()
}

fn empty_rules() -> Gitignore {
    GitignoreBuilder::new("/proj").build().unwrap()
}

#[test]
fn write_events_with_ignored_build_dir() {
    let mut builder = GitignoreBuilder::new("/proj");
    builder.add_line(None, "target/").unwrap();
    let rules = builder.build().unwrap();
    let mut changes = Changes::new(bytes("/proj"), rules);
    apply_event(&mut changes, &RawEvent::Written(bytes("/proj/src/a.rs")));
    apply_event(&mut changes, &RawEvent::Written(bytes("/proj/target/debug/x")));
    let action = changes.take_current_action();
    assert_eq!(action, Action::FilesChanged(vec![bytes("src/a.rs")]));
}

#[test]
fn initial_run_fires_with_zero_events() {
    let mut changes = Changes::new(bytes("/proj"), empty_rules());
    // startup with the initial run enabled queues a custom trigger before
    // the first debounce timeout
    changes.add_custom(String::from("initial run"));
    let action = changes.take_current_action();
    assert_eq!(action, Action::Custom(String::from("initial run")));
}

#[test]
fn rename_surfaces_both_ends_sorted() {
    let mut changes = Changes::new(bytes("/proj"), empty_rules());
    apply_event(
        &mut changes,
        &RawEvent::Renamed(bytes("/proj/old.rs"), bytes("/proj/new.rs")),
    );
    let action = changes.take_current_action();
    assert_eq!(
        action,
        Action::FilesChanged(vec![bytes("new.rs"), bytes("old.rs")])
    );
}

#[test]
fn spurious_events_change_nothing() {
    let mut changes = Changes::new(bytes("/proj"), empty_rules());
    apply_event(&mut changes, &RawEvent::MetadataOnly(bytes("/proj/a.rs")));
    apply_event(&mut changes, &RawEvent::RescanRequested);
    apply_event(
        &mut changes,
        &RawEvent::ErrorEvent(String::from("watch error"), Some(bytes("/proj/a.rs"))),
    );
    assert_eq!(changes.take_current_action(), Action::Nothing);
}

#[test]
fn create_and_remove_are_recorded() {
    let mut changes = Changes::new(bytes("/proj"), empty_rules());
    apply_event(&mut changes, &RawEvent::Created(bytes("/proj/new_file.rs")));
    apply_event(&mut changes, &RawEvent::Removed(bytes("/proj/gone.rs")));
    let action = changes.take_current_action();
    assert_eq!(
        action,
        Action::FilesChanged(vec![bytes("gone.rs"), bytes("new_file.rs")])
    );
}
