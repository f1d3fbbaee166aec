use edison_note::operation::{OpComponent, TextOperation};

fn kinds(op: &TextOperation) -> Vec<String> {
    op.ops
        .iter()
        .map(|c| match c {
            OpComponent::Retain(n) => format!("retain {}", n),
            OpComponent::Insert(s) => format!("insert {}", s),
            OpComponent::Delete(n) => format!("delete {}", n),
        })
        .collect()
}

#[test]
fn test_text_operation_creation() {
    let old_text = "Hello World";
    let new_text = "Hello Beautiful World";

    let operation = TextOperation::from_text_change(old_text, new_text, 6).unwrap();

    // Should retain "Hello ", insert "Beautiful ", retain "World"
    assert_eq!(operation.ops.len(), 3);
    assert_eq!(operation.base_length, 11);
    assert_eq!(operation.target_length, 21);
}

#[test]
fn from_text_change_gives_the_three_expected_components() {
    let operation =
        TextOperation::from_text_change("Hello World", "Hello Beautiful World", 6).unwrap();
    assert_eq!(kinds(&operation), vec!["retain 6", "insert Beautiful ", "retain 5"]);
    assert_eq!(operation.apply("Hello World"), "Hello Beautiful World");
}

#[test]
fn new_operation_is_the_identity() {
    let op = TextOperation::new(5);
    assert_eq!(op.ops.len(), 0);
    assert_eq!(op.base_length, 5);
    assert_eq!(op.target_length, 5);
    assert_eq!(op.apply("hello"), "hello");
}

#[test]
fn builder_skips_empty_steps() {
    let mut op = TextOperation::new(3);
    op.retain(0).insert("").delete(0);
    assert_eq!(op.ops.len(), 0);
    assert_eq!(op.target_length, 3);
}

#[test]
fn builder_tracks_the_target_length() {
    let mut op = TextOperation::new(11);
    op.retain(6).delete(5).insert("Earth");
    assert_eq!(kinds(&op), vec!["retain 6", "delete 5", "insert Earth"]);
    assert_eq!(op.base_length, 11);
    assert_eq!(op.target_length, 11);
    assert!(op.is_well_formed());
    assert_eq!(op.apply("Hello World"), "Hello Earth");
}

#[test]
fn delete_never_takes_the_target_length_below_zero() {
    let mut op = TextOperation::new(2);
    op.delete(5);
    assert_eq!(op.target_length, 0);
    assert!(!op.is_well_formed());
}

#[test]
fn diff_round_trip_on_several_pairs() {
    let pairs = [
        ("", ""),
        ("", "abc"),
        ("abc", ""),
        ("abc", "abc"),
        ("abc", "xyz"),
        ("abcdef", "abXYef"),
        ("aaaa", "aa"),
        ("aa", "aaaa"),
        ("abab", "ab"),
        ("prefix only", "prefix only and more"),
        ("some suffix", "awesome suffix"),
        ("gr\u{fc}n", "gr\u{fc}ner"),
        ("\u{1f600} smile", "\u{1f601} smile"),
    ];
    for (old, new) in pairs {
        let op = TextOperation::from_text_change(old, new, 0).unwrap();
        assert!(op.is_well_formed(), "{:?} -> {:?}", old, new);
        assert_eq!(op.base_length, old.chars().count());
        assert_eq!(op.target_length, new.chars().count());
        assert_eq!(op.apply(old), new, "{:?} -> {:?}", old, new);
    }
}

#[test]
fn identical_texts_give_a_single_retain() {
    let op = TextOperation::from_text_change("same text", "same text", 3).unwrap();
    assert_eq!(kinds(&op), vec!["retain 9"]);
    assert_eq!(op.apply("same text"), "same text");
}

#[test]
fn identical_empty_texts_give_no_component() {
    let op = TextOperation::from_text_change("", "", 0).unwrap();
    assert_eq!(op.ops.len(), 0);
    assert_eq!(op.apply(""), "");
}

#[test]
fn complete_replacement_is_delete_then_insert() {
    let op = TextOperation::from_text_change("abc", "xy", 0).unwrap();
    assert_eq!(kinds(&op), vec!["delete 3", "insert xy"]);
    assert_eq!(op.base_length, 3);
    assert_eq!(op.target_length, 2);
}

#[test]
fn common_end_is_taken_after_the_common_start() {
    // "aa" -> "aaa": the common start takes both characters of the old text.
    let op = TextOperation::from_text_change("aa", "aaa", 0).unwrap();
    assert_eq!(kinds(&op), vec!["retain 2", "insert a"]);
}

#[test]
fn lengths_count_characters() {
    let op = TextOperation::from_text_change("na\u{ef}ve", "na\u{ef}vet\u{e9}", 0).unwrap();
    assert_eq!(op.base_length, 5);
    assert_eq!(op.target_length, 7);
    assert_eq!(kinds(&op), vec!["retain 5", "insert t\u{e9}"]);
}

#[test]
fn apply_keeps_what_the_steps_leave_untouched() {
    let mut op = TextOperation::new(3);
    op.retain(1).insert("X");
    assert_eq!(op.apply("abcdef"), "aXbcdef");
}

#[test]
fn apply_stops_at_the_end_of_the_text() {
    let mut op = TextOperation::new(10);
    op.retain(2).delete(20).insert("!");
    assert_eq!(op.apply("abc"), "ab!");
    let mut keep = TextOperation::new(10);
    keep.retain(10).insert("?");
    assert_eq!(keep.apply("abc"), "abc?");
}

#[test]
fn is_well_formed_tells_complete_operations_apart() {
    let mut op = TextOperation::new(4);
    op.retain(2);
    assert!(!op.is_well_formed());
    op.delete(2);
    assert!(op.is_well_formed());
    let broken = TextOperation {
        ops: vec![OpComponent::Retain(0)],
        base_length: 0,
        target_length: 0,
    };
    assert!(!broken.is_well_formed());
    let wrong_target = TextOperation {
        ops: vec![OpComponent::Insert("ab".to_string())],
        base_length: 0,
        target_length: 3,
    };
    assert!(!wrong_target.is_well_formed());
    let huge = TextOperation {
        ops: vec![OpComponent::Retain(usize::MAX), OpComponent::Retain(1)],
        base_length: 0,
        target_length: 0,
    };
    assert!(!huge.is_well_formed());
}

#[test]
fn clone_keeps_the_operation() {
    let mut op = TextOperation::new(3);
    op.retain(1).insert("xy").delete(2);
    let copy = op.clone();
    assert_eq!(kinds(&copy), kinds(&op));
    assert_eq!(copy.base_length, 3);
    assert_eq!(copy.target_length, 3);
}
