use auto_check_rs::aggregator::{Action, Changes};
use ignore::gitignore::{Gitignore, GitignoreBuilder};

fn bytes(s: &str) -> Vec<u8> {
    s.as_bytes().to_vec()
}

fn empty_rules() -> Gitignore {
    GitignoreBuilder::new("/proj").build().unwrap()
}

fn rules_with(lines: &[&str]) -> Gitignore {
    let mut builder = GitignoreBuilder::new("/proj");
    for line in lines {
        builder.add_line(None, line).unwrap();
    }
    builder.build().unwrap()
}

#[test]
fn burst_collects_sorted_dedup() {
    let mut changes = Changes::new(bytes("/proj"), empty_rules());
    changes.add(&bytes("/proj/src/main.rs"));
    changes.add(&bytes("/proj/Cargo.toml"));
    changes.add(&bytes("/proj/src/lib.rs"));
    changes.add(&bytes("/proj/src/main.rs"));
    let action = changes.take_current_action();
    assert_eq!(
        action,
        Action::FilesChanged(vec![
            bytes("Cargo.toml"),
            bytes("src/lib.rs"),
            bytes("src/main.rs"),
        ])
    );
}

#[test]
fn add_is_idempotent() {
    let mut changes = Changes::new(bytes("/proj"), empty_rules());
    changes.add(&bytes("/proj/a.rs"));
    changes.add(&bytes("/proj/a.rs"));
    let action = changes.take_current_action();
    assert_eq!(action, Action::FilesChanged(vec![bytes("a.rs")]));
}

#[test]
fn custom_reason_wins_and_discards_pending() {
    let mut changes = Changes::new(bytes("/proj"), empty_rules());
    changes.add(&bytes("/proj/a.rs"));
    changes.add_custom(String::from("requested"));
    let action = changes.take_current_action();
    assert_eq!(action, Action::Custom(String::from("requested")));
    changes.clear_inhibition();
    // the pending file change was discarded with the custom trigger
    let next = changes.take_current_action();
    assert_eq!(next, Action::Nothing);
}

#[test]
fn later_custom_reason_overwrites_earlier() {
    let mut changes = Changes::new(bytes("/proj"), empty_rules());
    changes.add_custom(String::from("first"));
    changes.add_custom(String::from("second"));
    let action = changes.take_current_action();
    assert_eq!(action, Action::Custom(String::from("second")));
}

#[test]
fn inhibition_drops_changes_until_cleared() {
    let mut changes = Changes::new(bytes("/proj"), empty_rules());
    changes.add(&bytes("/proj/a.rs"));
    let action = changes.take_current_action();
    assert_eq!(action, Action::FilesChanged(vec![bytes("a.rs")]));
    // the taken action set the inhibition flag: new changes are dropped
    changes.add(&bytes("/proj/b.rs"));
    assert_eq!(changes.take_current_action(), Action::Nothing);
    // after the batch clears the flag, changes are recorded again
    changes.clear_inhibition();
    changes.add(&bytes("/proj/b.rs"));
    assert_eq!(
        changes.take_current_action(),
        Action::FilesChanged(vec![bytes("b.rs")])
    );
}

#[test]
fn custom_trigger_also_inhibits() {
    let mut changes = Changes::new(bytes("/proj"), empty_rules());
    changes.add_custom(String::from("go"));
    let action = changes.take_current_action();
    assert_eq!(action, Action::Custom(String::from("go")));
    changes.add(&bytes("/proj/a.rs"));
    assert_eq!(changes.take_current_action(), Action::Nothing);
}

#[test]
fn ignored_path_never_flushed() {
    let mut changes = Changes::new(bytes("/proj"), rules_with(&["target/"]));
    for _ in 0..3 {
        changes.add(&bytes("/proj/target/debug/app"));
    }
    changes.add(&bytes("/proj/src/a.rs"));
    let action = changes.take_current_action();
    assert_eq!(action, Action::FilesChanged(vec![bytes("src/a.rs")]));
}

#[test]
fn whitelisted_path_is_recorded() {
    let mut changes = Changes::new(bytes("/proj"), rules_with(&["*.log", "!keep.log"]));
    changes.add(&bytes("/proj/noise.log"));
    changes.add(&bytes("/proj/keep.log"));
    let action = changes.take_current_action();
    assert_eq!(action, Action::FilesChanged(vec![bytes("keep.log")]));
}

#[test]
fn uncanonical_paths_are_normalized_before_matching() {
    // a non-empty rule set makes the matcher strip and check the queried
    // path; the canonical relative form keeps every such query safe
    let mut changes = Changes::new(bytes("/proj"), rules_with(&["target/"]));
    changes.add(&bytes("/proj/.//x"));
    changes.add(&bytes("/proj//src//a.rs"));
    changes.add(&bytes("/proj/./target/debug/app"));
    let action = changes.take_current_action();
    assert_eq!(
        action,
        Action::FilesChanged(vec![bytes("src/a.rs"), bytes("x")])
    );
}

#[test]
fn outside_base_directory_is_dropped() {
    let mut changes = Changes::new(bytes("/proj"), empty_rules());
    changes.add(&bytes("/other/file.rs"));
    changes.add(&bytes("/pro/file.rs"));
    changes.add(&bytes("/projX/file.rs"));
    assert_eq!(changes.take_current_action(), Action::Nothing);
}

#[test]
fn base_with_trailing_separator() {
    let mut changes = Changes::new(bytes("/proj/"), empty_rules());
    changes.add(&bytes("/proj/x.rs"));
    assert_eq!(
        changes.take_current_action(),
        Action::FilesChanged(vec![bytes("x.rs")])
    );
}

#[test]
fn empty_state_gives_nothing_and_stays_quiet() {
    let mut changes = Changes::new(bytes("/proj"), empty_rules());
    assert_eq!(changes.take_current_action(), Action::Nothing);
    assert_eq!(changes.take_current_action(), Action::Nothing);
    // a Nothing action does not inhibit: a change still counts
    changes.add(&bytes("/proj/a.rs"));
    assert_eq!(
        changes.take_current_action(),
        Action::FilesChanged(vec![bytes("a.rs")])
    );
}

#[test]
fn triggers_run_classification() {
    assert!(!Action::Nothing.triggers_run());
    assert!(Action::Custom(String::from("x")).triggers_run());
    assert!(Action::FilesChanged(vec![bytes("a")]).triggers_run());
}
