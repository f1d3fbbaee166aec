use edison_note::json::Json;
use edison_note::operation::{OpComponent, TextOperation};
use edison_note::session::CollaborativeEdit;
use edison_note::wire::{
    decode_component, decode_edit, decode_operation, encode_component, encode_edit,
    encode_operation, parse_edit, write_edit,
};

fn sample() -> CollaborativeEdit {
    let mut operation = TextOperation::new(11);
    operation.retain(6).delete(5).insert("Earth");
    CollaborativeEdit {
        id: "e-1".to_string(),
        note_id: "note 7".to_string(),
        user_id: "user2".to_string(),
        operation,
        timestamp: 1_700_000_000_123,
        revision: 4,
    }
}

fn same(a: &CollaborativeEdit, b: &CollaborativeEdit) -> bool {
    a.id == b.id
        && a.note_id == b.note_id
        && a.user_id == b.user_id
        && a.timestamp == b.timestamp
        && a.revision == b.revision
        && a.operation.base_length == b.operation.base_length
        && a.operation.target_length == b.operation.target_length
        && format!("{:?}", a.operation.ops) == format!("{:?}", b.operation.ops)
}

#[test]
fn edit_is_written_as_one_json_object() {
    assert_eq!(
        write_edit(&sample()),
        "{\"author_id\":\"user2\",\"document_id\":\"note 7\",\"id\":\"e-1\",\
         \"operation\":{\"base_length\":11,\"components\":[{\"retain\":6},{\"delete\":5},\
         {\"insert\":\"Earth\"}],\"target_length\":11},\"revision\":4,\
         \"timestamp\":1700000000123}"
    );
}

#[test]
fn edit_is_read_from_json_text() {
    let text = r#"
        { "id": "abc", "document_id": "n1", "author_id": "u9",
          "operation": { "components": [ {"retain": 2}, {"insert": "x\ny é"}, {"delete": 1} ],
                         "base_length": 3, "target_length": 7 },
          "timestamp": -5, "revision": 18446744073709551615, "extra": [1, 2.5, null, true] }
    "#;
    let edit = parse_edit(text).unwrap();
    assert_eq!(edit.id, "abc");
    assert_eq!(edit.note_id, "n1");
    assert_eq!(edit.user_id, "u9");
    assert_eq!(edit.timestamp, -5);
    assert_eq!(edit.revision, u64::MAX);
    assert_eq!(edit.operation.base_length, 3);
    assert_eq!(edit.operation.target_length, 7);
    assert_eq!(
        format!("{:?}", edit.operation.ops),
        "[Retain(2), Insert(\"x\\ny \u{e9}\"), Delete(1)]"
    );
    assert!(edit.operation.is_well_formed());
}

#[test]
fn written_edit_is_read_back_unchanged() {
    let mut edits = vec![sample()];
    let mut other = sample();
    other.id = "quote \" backslash \\ tab \t \u{1f600}".to_string();
    other.timestamp = i64::MIN;
    other.revision = u64::MAX;
    other.operation = TextOperation {
        ops: vec![
            OpComponent::Insert("{\"retain\":1}".to_string()),
            OpComponent::Retain(usize::MAX),
            OpComponent::Delete(0),
        ],
        base_length: usize::MAX,
        target_length: 0,
    };
    edits.push(other);
    let mut empty = sample();
    empty.operation = TextOperation::new(0);
    empty.timestamp = 0;
    empty.revision = 0;
    empty.id = String::new();
    edits.push(empty);
    for edit in &edits {
        let back = parse_edit(&write_edit(edit)).unwrap();
        assert!(same(edit, &back), "{:?}", edit);
        let tree_back = decode_edit(&encode_edit(edit)).unwrap();
        assert!(same(edit, &tree_back), "{:?}", edit);
    }
}

#[test]
fn texts_that_hold_no_edit_are_turned_down() {
    let good = write_edit(&sample());
    assert!(parse_edit(&good).is_some());
    let bad = [
        "",
        "not json",
        "[]",
        "null",
        "{}",
        "{\"id\": 7}",
        // no id
        "{\"author_id\":\"u\",\"document_id\":\"n\",\"operation\":{\"base_length\":0,\"components\":[],\"target_length\":0},\"revision\":1,\"timestamp\":1}",
        // revision is not an unsigned integer
        "{\"author_id\":\"u\",\"document_id\":\"n\",\"id\":\"e\",\"operation\":{\"base_length\":0,\"components\":[],\"target_length\":0},\"revision\":1.5,\"timestamp\":1}",
        "{\"author_id\":\"u\",\"document_id\":\"n\",\"id\":\"e\",\"operation\":{\"base_length\":0,\"components\":[],\"target_length\":0},\"revision\":-1,\"timestamp\":1}",
        "{\"author_id\":\"u\",\"document_id\":\"n\",\"id\":\"e\",\"operation\":{\"base_length\":0,\"components\":[],\"target_length\":0},\"revision\":\"1\",\"timestamp\":1}",
        // timestamp beyond the signed range
        "{\"author_id\":\"u\",\"document_id\":\"n\",\"id\":\"e\",\"operation\":{\"base_length\":0,\"components\":[],\"target_length\":0},\"revision\":1,\"timestamp\":18446744073709551615}",
        // operation is not an object
        "{\"author_id\":\"u\",\"document_id\":\"n\",\"id\":\"e\",\"operation\":[],\"revision\":1,\"timestamp\":1}",
        // components missing
        "{\"author_id\":\"u\",\"document_id\":\"n\",\"id\":\"e\",\"operation\":{\"base_length\":0,\"target_length\":0},\"revision\":1,\"timestamp\":1}",
        // a component with two members
        "{\"author_id\":\"u\",\"document_id\":\"n\",\"id\":\"e\",\"operation\":{\"base_length\":0,\"components\":[{\"retain\":1,\"delete\":1}],\"target_length\":0},\"revision\":1,\"timestamp\":1}",
        // a component of an unknown kind
        "{\"author_id\":\"u\",\"document_id\":\"n\",\"id\":\"e\",\"operation\":{\"base_length\":0,\"components\":[{\"keep\":1}],\"target_length\":0},\"revision\":1,\"timestamp\":1}",
        // a negative length
        "{\"author_id\":\"u\",\"document_id\":\"n\",\"id\":\"e\",\"operation\":{\"base_length\":0,\"components\":[{\"retain\":-1}],\"target_length\":0},\"revision\":1,\"timestamp\":1}",
        // an insert that is no text
        "{\"author_id\":\"u\",\"document_id\":\"n\",\"id\":\"e\",\"operation\":{\"base_length\":0,\"components\":[{\"insert\":1}],\"target_length\":0},\"revision\":1,\"timestamp\":1}",
        // a bad component after a good one
        "{\"author_id\":\"u\",\"document_id\":\"n\",\"id\":\"e\",\"operation\":{\"base_length\":0,\"components\":[{\"retain\":1},7],\"target_length\":0},\"revision\":1,\"timestamp\":1}",
    ];
    for text in bad {
        assert!(parse_edit(text).is_none(), "{}", text);
    }
}

#[test]
fn components_and_operations_as_trees() {
    let retain = encode_component(&OpComponent::Retain(3));
    assert_eq!(format!("{:?}", retain), "Object([(\"retain\", Number(Some(3), Some(3)))])");
    let insert = encode_component(&OpComponent::Insert("a".to_string()));
    assert_eq!(format!("{:?}", insert), "Object([(\"insert\", Text(\"a\"))])");
    let delete = encode_component(&OpComponent::Delete(u64::MAX as usize));
    assert_eq!(
        format!("{:?}", delete),
        format!("Object([(\"delete\", Number(Some({}), None))])", u64::MAX)
    );
    assert!(matches!(decode_component(&retain), Some(OpComponent::Retain(3))));
    assert!(matches!(decode_component(&Json::Null), None));
    let mut operation = TextOperation::new(1);
    operation.delete(1);
    let tree = encode_operation(&operation);
    assert_eq!(
        format!("{:?}", tree),
        "Object([(\"components\", Array([Object([(\"delete\", Number(Some(1), Some(1)))])])), \
         (\"base_length\", Number(Some(1), Some(1))), (\"target_length\", Number(Some(0), Some(0)))])"
    );
    let back = decode_operation(&tree).unwrap();
    assert_eq!(back.base_length, 1);
    assert_eq!(back.target_length, 0);
    assert_eq!(back.ops.len(), 1);
}

#[test]
fn members_are_found_by_name() {
    let tree = Json::Object(vec![
        ("a".to_string(), Json::from_u64(1)),
        ("b".to_string(), Json::Text("x".to_string())),
        ("a".to_string(), Json::from_i64(-2)),
    ]);
    assert_eq!(tree.get("a").unwrap().as_u64(), Some(1));
    assert_eq!(tree.get("b").unwrap().as_text().unwrap(), "x");
    assert!(tree.get("c").is_none());
    assert!(Json::Null.get("a").is_none());
    assert_eq!(Json::from_i64(-2).as_i64(), Some(-2));
    assert_eq!(Json::from_i64(-2).as_u64(), None);
    assert_eq!(Json::from_u64(u64::MAX).as_i64(), None);
    assert_eq!(Json::from_i64(5).as_u64(), Some(5));
    assert!(Json::Bool(true).as_text().is_none());
}
