//! Edits on the wire: one JSON object per edit,
//!
//! ```text
//! { "id": "..", "document_id": "..", "author_id": "..",
//!   "operation": { "components": [ {"retain": n} | {"insert": ".."} | {"delete": n}, .. ],
//!                  "base_length": n, "target_length": n },
//!   "timestamp": milliseconds since the start of 1970, "revision": n }
//! ```
//!
//! Members that are not named here are passed over.

use vstd::prelude::*;
use crate::json::{
    field, is_named, member, item_views, json_of, json_text, lemma_item_views, lemma_member_views,
    member_views, parse_json, signed_number, unsigned_number, writable, write_json, Json, JsonView,
};
use crate::operation::{lemma_steps_push, steps_of, OpComponent, OperationView, Step, TextOperation};
use crate::session::{CollaborativeEdit, EditView};

verus! {

/// The text of a member that is a text.
pub open spec fn text_field(tree: JsonView, name: Seq<char>) -> Option<Seq<char>> {
    match field(tree, name) {
        Some(JsonView::Text(s)) => Some(s),
        _ => None,
    }
}

/// The value of a member that is an unsigned integer.
pub open spec fn unsigned_field(tree: JsonView, name: Seq<char>) -> Option<u64> {
    match field(tree, name) {
        Some(JsonView::Number(Some(n), _)) => Some(n),
        _ => None,
    }
}

/// The value of a member that is a length this machine can count.
pub open spec fn length_field(tree: JsonView, name: Seq<char>) -> Option<usize> {
    match unsigned_field(tree, name) {
        Some(n) => if n <= usize::MAX {
            Some(n as usize)
        } else {
            None
        },
        None => None,
    }
}

/// The value of a member that is a signed integer.
pub open spec fn signed_field(tree: JsonView, name: Seq<char>) -> Option<i64> {
    match field(tree, name) {
        Some(JsonView::Number(_, Some(n))) => Some(n),
        _ => None,
    }
}

/// The step that a tree stands for: an object with one member, `retain` or
/// `delete` with a length or `insert` with a text.
pub open spec fn decoded_step(tree: JsonView) -> Option<Step> {
    match tree {
        JsonView::Object(members) => if members.len() != 1 {
            None
        } else if members[0].0 == "retain"@ {
            match members[0].1 {
                JsonView::Number(Some(n), _) => if n <= usize::MAX {
                    Some(Step::Retain(n as nat))
                } else {
                    None
                },
                _ => None,
            }
        } else if members[0].0 == "insert"@ {
            match members[0].1 {
                JsonView::Text(s) => Some(Step::Insert(s)),
                _ => None,
            }
        } else if members[0].0 == "delete"@ {
            match members[0].1 {
                JsonView::Number(Some(n), _) => if n <= usize::MAX {
                    Some(Step::Delete(n as nat))
                } else {
                    None
                },
                _ => None,
            }
        } else {
            None
        },
        _ => None,
    }
}

/// The steps that the items of an array stand for, if each stands for one.
pub open spec fn decoded_steps(items: Seq<JsonView>) -> Option<Seq<Step>>
    decreases items.len(),
{
    if items.len() == 0 {
        Some(Seq::<Step>::empty())
    } else {
        match (decoded_steps(items.drop_last()), decoded_step(items.last())) {
            (Some(steps), Some(step)) => Some(steps.push(step)),
            _ => None,
        }
    }
}

/// The operation that a tree stands for: an object with the members
/// `components`, an array of steps, `base_length` and `target_length`.
pub open spec fn decoded_operation(tree: JsonView) -> Option<OperationView> {
    match (
        field(tree, "components"@),
        length_field(tree, "base_length"@),
        length_field(tree, "target_length"@),
    ) {
        (Some(JsonView::Array(items)), Some(base), Some(target)) => match decoded_steps(items) {
            Some(steps) => Some(
                OperationView { steps, base_length: base as nat, target_length: target as nat },
            ),
            None => None,
        },
        _ => None,
    }
}

/// The edit that a tree stands for: an object with the members `id`,
/// `document_id`, `author_id`, `operation`, `timestamp` and `revision`.
pub open spec fn decoded_edit(tree: JsonView) -> Option<EditView> {
    match (
        text_field(tree, "id"@),
        text_field(tree, "document_id"@),
        text_field(tree, "author_id"@),
        field(tree, "operation"@),
        signed_field(tree, "timestamp"@),
        unsigned_field(tree, "revision"@),
    ) {
        (Some(id), Some(note_id), Some(user_id), Some(operation), Some(timestamp), Some(revision)) => {
            match decoded_operation(operation) {
                Some(operation) => Some(
                    EditView { id, note_id, user_id, operation, timestamp, revision },
                ),
                None => None,
            }
        },
        _ => None,
    }
}

/// The edit that a text stands for, if it is the JSON text of one.
pub open spec fn parsed_edit(text: Seq<char>) -> Option<EditView> {
    match json_of(text) {
        Some(tree) => decoded_edit(tree),
        None => None,
    }
}

/// The tree of a step.
pub open spec fn encoded_step(step: Step) -> JsonView {
    match step {
        Step::Retain(n) => JsonView::Object(seq![("retain"@, unsigned_number(n as u64))]),
        Step::Insert(s) => JsonView::Object(seq![("insert"@, JsonView::Text(s))]),
        Step::Delete(n) => JsonView::Object(seq![("delete"@, unsigned_number(n as u64))]),
    }
}

/// The trees of the steps of an edit script.
pub open spec fn encoded_steps(steps: Seq<Step>) -> Seq<JsonView> {
    Seq::new(steps.len(), |k: int| encoded_step(steps[k]))
}

/// The tree of an operation.
pub open spec fn encoded_operation(operation: OperationView) -> JsonView {
    JsonView::Object(
        seq![
            ("components"@, JsonView::Array(encoded_steps(operation.steps))),
            ("base_length"@, unsigned_number(operation.base_length as u64)),
            ("target_length"@, unsigned_number(operation.target_length as u64)),
        ],
    )
}

/// The tree of an edit.
pub open spec fn encoded_edit(edit: EditView) -> JsonView {
    JsonView::Object(
        seq![
            ("id"@, JsonView::Text(edit.id)),
            ("document_id"@, JsonView::Text(edit.note_id)),
            ("author_id"@, JsonView::Text(edit.user_id)),
            ("operation"@, encoded_operation(edit.operation)),
            ("timestamp"@, signed_number(edit.timestamp)),
            ("revision"@, unsigned_number(edit.revision)),
        ],
    )
}

/// The lengths of the operation are lengths that this machine can count.
pub open spec fn fits(operation: OperationView) -> bool {
    &&& operation.base_length <= usize::MAX
    &&& operation.target_length <= usize::MAX
    &&& forall|k: int|
        0 <= k < operation.steps.len() ==> (#[trigger] operation.steps[k]).consumed() <= usize::MAX
}

/// The text of a member that is a text.
fn get_text(tree: &Json, name: &str) -> (text: Option<String>)
    ensures
        match text {
            Some(s) => text_field(tree@, name@) == Some(s@),
            None => text_field(tree@, name@) is None,
        },
{
    match tree.get(name) {
        Some(value) => match value.as_text() {
            Some(s) => Some(s.clone()),
            None => None,
        },
        None => None,
    }
}

/// The value of a member that is an unsigned integer.
fn get_unsigned(tree: &Json, name: &str) -> (n: Option<u64>)
    ensures
        n == unsigned_field(tree@, name@),
{
    match tree.get(name) {
        Some(value) => value.as_u64(),
        None => None,
    }
}

/// The value of a member that is a length this machine can count.
fn get_length(tree: &Json, name: &str) -> (n: Option<usize>)
    ensures
        n == length_field(tree@, name@),
{
    match get_unsigned(tree, name) {
        Some(n) => if n <= usize::MAX as u64 {
            Some(n as usize)
        } else {
            None
        },
        None => None,
    }
}

/// The value of a member that is a signed integer.
fn get_signed(tree: &Json, name: &str) -> (n: Option<i64>)
    ensures
        n == signed_field(tree@, name@),
{
    match tree.get(name) {
        Some(value) => value.as_i64(),
        None => None,
    }
}

/// The length that a tree holds, if it is one that this machine can count.
fn as_length(tree: &Json) -> (n: Option<usize>)
    ensures
        n == (match tree@ {
            JsonView::Number(Some(n), _) => if n <= usize::MAX {
                Some(n as usize)
            } else {
                None
            },
            _ => None,
        }),
{
    match tree.as_u64() {
        Some(n) => if n <= usize::MAX as u64 {
            Some(n as usize)
        } else {
            None
        },
        None => None,
    }
}

/// Reads a component from a tree, as `decoded_step` says.
pub fn decode_component(tree: &Json) -> (component: Option<OpComponent>)
    ensures
        match component {
            Some(c) => decoded_step(tree@) == Some(c@),
            None => decoded_step(tree@) is None,
        },
{
    match tree {
        Json::Object(members) => {
            proof {
                lemma_member_views(members@);
            }
            if members.len() != 1 {
                None
            } else if is_named(&members[0].0, "retain") {
                match as_length(&members[0].1) {
                    Some(n) => Some(OpComponent::Retain(n)),
                    None => None,
                }
            } else if is_named(&members[0].0, "insert") {
                match members[0].1.as_text() {
                    Some(s) => Some(OpComponent::Insert(s.clone())),
                    None => None,
                }
            } else if is_named(&members[0].0, "delete") {
                match as_length(&members[0].1) {
                    Some(n) => Some(OpComponent::Delete(n)),
                    None => None,
                }
            } else {
                None
            }
        },
        _ => None,
    }
}

/// Reads an operation from a tree, as `decoded_operation` says.
pub fn decode_operation(tree: &Json) -> (operation: Option<TextOperation>)
    ensures
        match operation {
            Some(op) => decoded_operation(tree@) == Some(op@),
            None => decoded_operation(tree@) is None,
        },
{
    let base = get_length(tree, "base_length");
    let target = get_length(tree, "target_length");
    match tree.get("components") {
        Some(Json::Array(items)) => {
            let ghost all = item_views(items@);
            proof {
                lemma_item_views(items@);
            }
            let mut ops: Vec<OpComponent> = Vec::new();
            let mut k: usize = 0;
            assert(all.take(0) =~= Seq::<JsonView>::empty());
            assert(steps_of(ops@) =~= Seq::<Step>::empty());
            while k < items.len()
                invariant
                    k <= items.len(),
                    field(tree@, "components"@) == Some(JsonView::Array(all)),
                    all.len() == items.len(),
                    forall|j: int| 0 <= j < items.len() ==> (#[trigger] all[j]) == items[j]@,
                    decoded_steps(all.take(k as int)) == Some(steps_of(ops@)),
                decreases items.len() - k,
            {
                proof {
                    assert(all.take(k + 1).drop_last() =~= all.take(k as int));
                    assert(all.take(k + 1).last() == items[k as int]@);
                }
                match decode_component(&items[k]) {
                    Some(c) => {
                        proof {
                            lemma_steps_push(ops@, c);
                        }
                        ops.push(c);
                    },
                    None => {
                        proof {
                            lemma_decoded_steps_prefix(all, k + 1);
                        }
                        return None;
                    },
                }
                k = k + 1;
            }
            assert(all.take(k as int) =~= all);
            match (base, target) {
                (Some(base_length), Some(target_length)) => Some(
                    TextOperation { ops, base_length, target_length },
                ),
                _ => None,
            }
        },
        _ => None,
    }
}

/// Where the first items of an array do not all stand for steps, the items
/// of the array do not.
pub proof fn lemma_decoded_steps_prefix(items: Seq<JsonView>, count: int)
    requires
        0 <= count <= items.len(),
        decoded_steps(items.take(count)) is None,
    ensures
        decoded_steps(items) is None,
    decreases items.len() - count,
{
    if count < items.len() {
        assert(items.take(count + 1).drop_last() =~= items.take(count));
        lemma_decoded_steps_prefix(items, count + 1);
    } else {
        assert(items.take(count) =~= items);
    }
}

/// Reads an edit from a tree, as `decoded_edit` says.
pub fn decode_edit(tree: &Json) -> (edit: Option<CollaborativeEdit>)
    ensures
        match edit {
            Some(e) => decoded_edit(tree@) == Some(e@),
            None => decoded_edit(tree@) is None,
        },
{
    let id = get_text(tree, "id");
    let note_id = get_text(tree, "document_id");
    let user_id = get_text(tree, "author_id");
    let timestamp = get_signed(tree, "timestamp");
    let revision = get_unsigned(tree, "revision");
    let operation = match tree.get("operation") {
        Some(value) => decode_operation(value),
        None => None,
    };
    match (id, note_id, user_id, operation, timestamp, revision) {
        (Some(id), Some(note_id), Some(user_id), Some(operation), Some(timestamp), Some(revision)) => {
            Some(CollaborativeEdit { id, note_id, user_id, operation, timestamp, revision })
        },
        _ => None,
    }
}

/// Reads an edit from the text of a message: the text is taken as JSON, and
/// the tree that it gives is read as `decoded_edit` says.
pub fn parse_edit(text: &str) -> (edit: Option<CollaborativeEdit>)
    ensures
        match edit {
            Some(e) => parsed_edit(text@) == Some(e@),
            None => parsed_edit(text@) is None,
        },
{
    match parse_json(text) {
        Some(tree) => decode_edit(&tree),
        None => None,
    }
}

/// The names of the members are told apart by their first two characters
/// and their lengths.
proof fn lemma_names()
    ensures
        "retain"@ != "insert"@,
        "retain"@ != "delete"@,
        "insert"@ != "delete"@,
        "components"@ != "base_length"@,
        "components"@ != "target_length"@,
        "base_length"@ != "target_length"@,
        "id"@ != "document_id"@,
        "id"@ != "author_id"@,
        "id"@ != "operation"@,
        "id"@ != "timestamp"@,
        "id"@ != "revision"@,
        "document_id"@ != "author_id"@,
        "document_id"@ != "operation"@,
        "document_id"@ != "timestamp"@,
        "document_id"@ != "revision"@,
        "author_id"@ != "operation"@,
        "author_id"@ != "timestamp"@,
        "author_id"@ != "revision"@,
        "operation"@ != "timestamp"@,
        "operation"@ != "revision"@,
        "timestamp"@ != "revision"@,
{
    reveal_strlit("retain");
    reveal_strlit("insert");
    reveal_strlit("delete");
    reveal_strlit("components");
    reveal_strlit("base_length");
    reveal_strlit("target_length");
    reveal_strlit("id");
    reveal_strlit("document_id");
    reveal_strlit("author_id");
    reveal_strlit("operation");
    reveal_strlit("timestamp");
    reveal_strlit("revision");
    assert("components"@.len() == 10 && "base_length"@.len() == 11 && "target_length"@.len() == 13);
    assert("id"@.len() == 2 && "document_id"@.len() == 11 && "author_id"@.len() == 9);
    assert("operation"@.len() == 9 && "timestamp"@.len() == 9 && "revision"@.len() == 8);
    assert("retain"@[0] == 'r' && "insert"@[0] == 'i' && "delete"@[0] == 'd');
    assert("author_id"@[0] == 'a' && "operation"@[0] == 'o' && "timestamp"@[0] == 't');
}

/// A step that is written and read again is the same step.
pub proof fn lemma_step_round_trip(step: Step)
    requires
        step.consumed() <= usize::MAX,
    ensures
        decoded_step(encoded_step(step)) == Some(step),
        writable(encoded_step(step)),
{
    lemma_names();
    reveal_with_fuel(writable, 3);
    match step {
        Step::Retain(n) => {
            assert(n as u64 as nat == n);
        },
        Step::Insert(s) => {},
        Step::Delete(n) => {
            assert(n as u64 as nat == n);
        },
    }
}

/// Steps that are written and read again are the same steps.
pub proof fn lemma_steps_round_trip(steps: Seq<Step>)
    requires
        forall|k: int| 0 <= k < steps.len() ==> (#[trigger] steps[k]).consumed() <= usize::MAX,
    ensures
        decoded_steps(encoded_steps(steps)) == Some(steps),
        forall|k: int| 0 <= k < steps.len() ==> writable(#[trigger] encoded_steps(steps)[k]),
    decreases steps.len(),
{
    if steps.len() > 0 {
        let front = steps.drop_last();
        lemma_steps_round_trip(front);
        lemma_step_round_trip(steps.last());
        assert(encoded_steps(steps).drop_last() =~= encoded_steps(front));
        assert(encoded_steps(steps).last() == encoded_step(steps.last()));
        assert(front.push(steps.last()) =~= steps);
        assert forall|k: int| 0 <= k < steps.len() implies writable(#[trigger] encoded_steps(steps)[k]) by {
            lemma_step_round_trip(steps[k]);
        }
    }
}

/// An operation that is written and read again is the same operation.
pub proof fn lemma_operation_round_trip(operation: OperationView)
    requires
        fits(operation),
    ensures
        decoded_operation(encoded_operation(operation)) == Some(operation),
        writable(encoded_operation(operation)),
{
    lemma_names();
    reveal_with_fuel(writable, 3);
    reveal_with_fuel(member, 4);
    lemma_steps_round_trip(operation.steps);
    let members = encoded_operation(operation)->Object_0;
    assert(members.drop_first()[0] == members[1]);
    assert(members.drop_first().drop_first()[0] == members[2]);
    assert(field(encoded_operation(operation), "components"@) == Some(members[0].1));
    assert(field(encoded_operation(operation), "base_length"@) == Some(members[1].1));
    assert(field(encoded_operation(operation), "target_length"@) == Some(members[2].1));
    assert(operation.base_length as u64 as nat == operation.base_length);
    assert(operation.target_length as u64 as nat == operation.target_length);
    assert(writable(members[0].1));
}

/// An edit that is written and read again is the same edit: nothing is lost
/// or changed on the way through the tree.
pub proof fn lemma_edit_round_trip(edit: EditView)
    requires
        fits(edit.operation),
    ensures
        decoded_edit(encoded_edit(edit)) == Some(edit),
        writable(encoded_edit(edit)),
{
    lemma_names();
    reveal_with_fuel(writable, 3);
    reveal_with_fuel(member, 7);
    lemma_operation_round_trip(edit.operation);
    let tree = encoded_edit(edit);
    let members = tree->Object_0;
    let m1 = members.drop_first();
    let m2 = m1.drop_first();
    let m3 = m2.drop_first();
    let m4 = m3.drop_first();
    let m5 = m4.drop_first();
    assert(m1[0] == members[1]);
    assert(m2[0] == members[2]);
    assert(m3[0] == members[3]);
    assert(m4[0] == members[4]);
    assert(m5[0] == members[5]);
    assert(field(tree, "id"@) == Some(members[0].1));
    assert(field(tree, "document_id"@) == Some(members[1].1));
    assert(field(tree, "author_id"@) == Some(members[2].1));
    assert(field(tree, "operation"@) == Some(members[3].1));
    assert(field(tree, "timestamp"@) == Some(members[4].1));
    assert(field(tree, "revision"@) == Some(members[5].1));
}

/// An object with one member.
fn single(name: &str, value: Json) -> (tree: Json)
    ensures
        tree@ == JsonView::Object(seq![(name@, value@)]),
{
    let mut members: Vec<(String, Json)> = Vec::new();
    members.push((name.to_owned(), value));
    proof {
        lemma_member_views(members@);
        assert(member_views(members@) =~= seq![(name@, value@)]);
    }
    Json::Object(members)
}

/// The tree of a component, as `encoded_step` says.
pub fn encode_component(component: &OpComponent) -> (tree: Json)
    ensures
        tree@ == encoded_step(component@),
        writable(tree@),
{
    proof {
        lemma_step_round_trip(component@);
    }
    match component {
        OpComponent::Retain(n) => single("retain", Json::from_u64(*n as u64)),
        OpComponent::Insert(s) => single("insert", Json::Text(s.clone())),
        OpComponent::Delete(n) => single("delete", Json::from_u64(*n as u64)),
    }
}

/// The tree of an operation, as `encoded_operation` says.
pub fn encode_operation(operation: &TextOperation) -> (tree: Json)
    ensures
        tree@ == encoded_operation(operation@),
        writable(tree@),
{
    let mut items: Vec<Json> = Vec::new();
    let mut k: usize = 0;
    while k < operation.ops.len()
        invariant
            k <= operation.ops.len(),
            items.len() == k,
            forall|j: int| 0 <= j < k ==> (#[trigger] items[j])@ == encoded_step(operation.ops[j]@),
        decreases operation.ops.len() - k,
    {
        items.push(encode_component(&operation.ops[k]));
        k = k + 1;
    }
    proof {
        lemma_item_views(items@);
        assert(item_views(items@) =~= encoded_steps(operation@.steps));
    }
    let mut members: Vec<(String, Json)> = Vec::new();
    members.push(("components".to_owned(), Json::Array(items)));
    members.push(("base_length".to_owned(), Json::from_u64(operation.base_length as u64)));
    members.push(("target_length".to_owned(), Json::from_u64(operation.target_length as u64)));
    proof {
        lemma_member_views(members@);
        assert(member_views(members@) =~= encoded_operation(operation@)->Object_0);
        lemma_operation_round_trip(operation@);
    }
    Json::Object(members)
}

/// The tree of an edit, as `encoded_edit` says.
pub fn encode_edit(edit: &CollaborativeEdit) -> (tree: Json)
    ensures
        tree@ == encoded_edit(edit@),
        writable(tree@),
{
    let mut members: Vec<(String, Json)> = Vec::new();
    members.push(("id".to_owned(), Json::Text(edit.id.clone())));
    members.push(("document_id".to_owned(), Json::Text(edit.note_id.clone())));
    members.push(("author_id".to_owned(), Json::Text(edit.user_id.clone())));
    members.push(("operation".to_owned(), encode_operation(&edit.operation)));
    members.push(("timestamp".to_owned(), Json::from_i64(edit.timestamp)));
    members.push(("revision".to_owned(), Json::from_u64(edit.revision)));
    proof {
        lemma_member_views(members@);
        assert(member_views(members@) =~= encoded_edit(edit@)->Object_0);
        lemma_edit_round_trip(edit@);
    }
    Json::Object(members)
}

/// The text of the message for an edit: the JSON text of its tree.
pub fn write_edit(edit: &CollaborativeEdit) -> (text: String)
    ensures
        text@ == json_text(encoded_edit(edit@)),
{
    let tree = encode_edit(edit);
    write_json(&tree)
}

} // verus!
