use auto_check_rs::order::{bytes_lt, insert_sorted};
use auto_check_rs::paths::relative_to_base;

fn bytes(s: &str) -> Vec<u8> {
    s.as_bytes().to_vec()
}

#[test]
fn lexicographic_order_on_bytes() {
    assert!(bytes_lt(&bytes("a"), &bytes("b")));
    assert!(!bytes_lt(&bytes("b"), &bytes("a")));
    assert!(!bytes_lt(&bytes("a"), &bytes("a")));
    // a strict prefix comes first
    assert!(bytes_lt(&bytes("a"), &bytes("ab")));
    assert!(!bytes_lt(&bytes("ab"), &bytes("a")));
    assert!(bytes_lt(&bytes(""), &bytes("a")));
    assert!(!bytes_lt(&bytes(""), &bytes("")));
    assert!(bytes_lt(&bytes("new.rs"), &bytes("old.rs")));
}

#[test]
fn sorted_insert_keeps_order_and_dedups() {
    let mut v: Vec<Vec<u8>> = Vec::new();
    insert_sorted(&mut v, bytes("m"));
    insert_sorted(&mut v, bytes("a"));
    insert_sorted(&mut v, bytes("z"));
    insert_sorted(&mut v, bytes("m"));
    assert_eq!(v, vec![bytes("a"), bytes("m"), bytes("z")]);
}

#[test]
fn relative_to_base_strips_prefix() {
    assert_eq!(
        relative_to_base(&bytes("/proj"), &bytes("/proj/src/a.rs")),
        Some(bytes("src/a.rs"))
    );
    // the base directory itself has an empty relative form
    assert_eq!(relative_to_base(&bytes("/proj"), &bytes("/proj")), Some(bytes("")));
    // doubled separators are swallowed
    assert_eq!(
        relative_to_base(&bytes("/proj"), &bytes("/proj//a.rs")),
        Some(bytes("a.rs"))
    );
    assert_eq!(relative_to_base(&bytes("/proj/"), &bytes("/proj/a.rs")), Some(bytes("a.rs")));
}

#[test]
fn relative_to_base_canonicalizes() {
    // interior doubled separators collapse
    assert_eq!(
        relative_to_base(&bytes("/proj"), &bytes("/proj/a//b.rs")),
        Some(bytes("a/b.rs"))
    );
    // leading `.` components are dropped
    assert_eq!(
        relative_to_base(&bytes("/proj"), &bytes("/proj/.//x")),
        Some(bytes("x"))
    );
    assert_eq!(
        relative_to_base(&bytes("/proj"), &bytes("/proj/././a.rs")),
        Some(bytes("a.rs"))
    );
    assert_eq!(relative_to_base(&bytes("/proj"), &bytes("/proj/./")), Some(bytes("")));
}

#[test]
fn relative_to_base_rejects_outside_paths() {
    assert_eq!(relative_to_base(&bytes("/proj"), &bytes("/other/a.rs")), None);
    // a sibling whose name extends the base is not inside it
    assert_eq!(relative_to_base(&bytes("/proj"), &bytes("/project/a.rs")), None);
    assert_eq!(relative_to_base(&bytes("/proj"), &bytes("/pro")), None);
}
