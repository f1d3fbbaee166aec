//! JSON values as trees, and their text.

use vstd::prelude::*;

verus! {

/// A JSON value as a mathematical value.
pub enum JsonView {
    Null,
    Bool(bool),
    Number(Option<u64>, Option<i64>),
    Text(Seq<char>),
    Array(Seq<JsonView>),
    Object(Seq<(Seq<char>, JsonView)>),
}

/// A JSON value.
#[derive(Debug)]
pub enum Json {
    Null,
    Bool(bool),
    /// A number, as an unsigned and as a signed integer where it is one.
    Number(Option<u64>, Option<i64>),
    Text(String),
    Array(Vec<Json>),
    /// The members of an object.
    Object(Vec<(String, Json)>),
}

/// The value that a tree stands for.
pub open spec fn tree_view(tree: Json) -> JsonView
    decreases tree, 0nat,
{
    match tree {
        Json::Null => JsonView::Null,
        Json::Bool(b) => JsonView::Bool(b),
        Json::Number(u, i) => JsonView::Number(u, i),
        Json::Text(s) => JsonView::Text(s@),
        Json::Array(items) => JsonView::Array(item_views(items@)),
        Json::Object(members) => JsonView::Object(member_views(members@)),
    }
}

/// The values that the items of an array stand for.
pub open spec fn item_views(items: Seq<Json>) -> Seq<JsonView>
    decreases items, 1nat,
{
    if items.len() == 0 {
        Seq::<JsonView>::empty()
    } else {
        item_views(items.drop_last()).push(tree_view(items.last()))
    }
}

/// The names and values that the members of an object stand for.
pub open spec fn member_views(members: Seq<(String, Json)>) -> Seq<(Seq<char>, JsonView)>
    decreases members, 1nat,
{
    if members.len() == 0 {
        Seq::<(Seq<char>, JsonView)>::empty()
    } else {
        member_views(members.drop_last()).push((members.last().0@, tree_view(members.last().1)))
    }
}

impl View for Json {
    type V = JsonView;

    open spec fn view(&self) -> JsonView {
        tree_view(*self)
    }
}

/// The views of the items of an array, item by item.
pub proof fn lemma_item_views(items: Seq<Json>)
    ensures
        item_views(items).len() == items.len(),
        forall|k: int| 0 <= k < items.len() ==> (#[trigger] item_views(items)[k]) == items[k]@,
    decreases items.len(),
{
    if items.len() > 0 {
        lemma_item_views(items.drop_last());
    }
}

/// The views of the members of an object, member by member.
pub proof fn lemma_member_views(members: Seq<(String, Json)>)
    ensures
        member_views(members).len() == members.len(),
        forall|k: int|
            0 <= k < members.len() ==> (#[trigger] member_views(members)[k]) == (
                members[k].0@,
                members[k].1@,
            ),
    decreases members.len(),
{
    if members.len() > 0 {
        lemma_member_views(members.drop_last());
    }
}

/// A tree that has a text: every number in it is an integer.
pub open spec fn writable(tree: JsonView) -> bool
    decreases tree,
{
    match tree {
        JsonView::Number(unsigned, signed) => unsigned is Some || signed is Some,
        JsonView::Array(items) => forall|k: int| 0 <= k < items.len() ==> writable(#[trigger] items[k]),
        JsonView::Object(members) => forall|k: int|
            0 <= k < members.len() ==> writable((#[trigger] members[k]).1),
        _ => true,
    }
}

/// The number `n` as a tree.
pub open spec fn unsigned_number(n: u64) -> JsonView {
    JsonView::Number(
        Some(n),
        if n <= i64::MAX {
            Some(n as i64)
        } else {
            None
        },
    )
}

/// The number `n` as a tree.
pub open spec fn signed_number(n: i64) -> JsonView {
    JsonView::Number(
        if n >= 0 {
            Some(n as u64)
        } else {
            None
        },
        Some(n),
    )
}

/// The first member of this name among the members of an object.
pub open spec fn member(members: Seq<(Seq<char>, JsonView)>, name: Seq<char>) -> Option<JsonView>
    decreases members.len(),
{
    if members.len() == 0 {
        None
    } else if members[0].0 == name {
        Some(members[0].1)
    } else {
        member(members.drop_first(), name)
    }
}

/// The member of this name of a tree that is an object.
pub open spec fn field(tree: JsonView, name: Seq<char>) -> Option<JsonView> {
    match tree {
        JsonView::Object(members) => member(members, name),
        _ => None,
    }
}

/// The tree that a JSON text stands for, if it is one.
pub uninterp spec fn json_of(text: Seq<char>) -> Option<JsonView>;

/// The JSON text of a tree.
pub uninterp spec fn json_text(tree: JsonView) -> Seq<char>;

#[verifier::external_type_specification]
#[verifier::external_body]
pub struct ExValue(serde_json::Value);

/// A `serde_json::Value` as a tree: each variant as the variant of the same
/// kind, a number by what its `as_u64` and `as_i64` give, the members of an
/// object in the order in which its map hands them out.
#[verifier::external_body]
fn from_value(value: serde_json::Value) -> (tree: Json) {
    match value {
        serde_json::Value::Null => Json::Null,
        serde_json::Value::Bool(b) => Json::Bool(b),
        serde_json::Value::Number(n) => Json::Number(n.as_u64(), n.as_i64()),
        serde_json::Value::String(s) => Json::Text(s),
        serde_json::Value::Array(a) => Json::Array(a.into_iter().map(from_value).collect()),
        serde_json::Value::Object(o) => Json::Object(
            o.into_iter().map(|(k, v)| (k, from_value(v))).collect(),
        ),
    }
}

/// A tree as a `serde_json::Value`: each variant as the variant of the same
/// kind, a number from its unsigned form where it has one, else from its
/// signed form.
#[verifier::external_body]
fn to_value(tree: &Json) -> (value: serde_json::Value)
    requires
        writable(tree@),
{
    match tree {
        Json::Null | Json::Number(None, None) => serde_json::Value::Null,
        Json::Bool(b) => serde_json::Value::Bool(*b),
        Json::Number(Some(u), _) => serde_json::Value::from(*u),
        Json::Number(None, Some(i)) => serde_json::Value::from(*i),
        Json::Text(s) => serde_json::Value::String(s.clone()),
        Json::Array(a) => serde_json::Value::Array(a.iter().map(to_value).collect()),
        Json::Object(o) => serde_json::Value::Object(
            o.iter().map(|(k, v)| (k.clone(), to_value(v))).collect(),
        ),
    }
}

/// `serde_json::from_str` for a `serde_json::Value`, handed over as a tree:
/// `None` where the text is not JSON. What comes back depends on the text
/// alone; which tree a text gives is not stated here.
#[verifier::external_body]
pub(crate) fn parse_json(text: &str) -> (tree: Option<Json>)
    ensures
        match tree {
            Some(t) => json_of(text@) == Some(t@),
            None => json_of(text@) is None,
        },
{
    serde_json::from_str::<serde_json::Value>(text).ok().map(from_value)
}

/// `serde_json::to_string` of a tree handed over as a `serde_json::Value`.
/// The text depends on the tree alone; which text a tree gives is not stated
/// here.
#[verifier::external_body]
pub(crate) fn write_json(tree: &Json) -> (text: String)
    requires
        writable(tree@),
    ensures
        text@ == json_text(tree@),
{
    serde_json::to_string(&to_value(tree)).unwrap_or_default()
}

/// Whether a text is this literal.
pub(crate) fn is_named(text: &String, name: &str) -> (same: bool)
    ensures
        same == (text@ == name@),
{
    *text == name.to_owned()
}

impl Json {
    /// The first member of this name, where the value is an object that has
    /// one.
    pub fn get(&self, name: &str) -> (found: Option<&Json>)
        ensures
            match found {
                Some(value) => field(self@, name@) == Some(value@),
                None => field(self@, name@) is None,
            },
    {
        match self {
            Json::Object(members) => {
                let ghost all = self@->Object_0;
                let mut k: usize = 0;
                proof {
                    lemma_member_views(members@);
                }
                assert(all.skip(0) =~= all);
                while k < members.len()
                    invariant
                        k <= members.len(),
                        self@ == JsonView::Object(all),
                        all.len() == members.len(),
                        forall|j: int|
                            0 <= j < members.len() ==> (#[trigger] all[j]) == (
                                members[j].0@,
                                members[j].1@,
                            ),
                        member(all, name@) == member(all.skip(k as int), name@),
                    decreases members.len() - k,
                {
                    proof {
                        assert(all.skip(k as int)[0] == all[k as int]);
                        assert(all.skip(k as int).drop_first() =~= all.skip(k + 1));
                        assert(all[k as int] == (members[k as int].0@, members[k as int].1@));
                    }
                    if is_named(&members[k].0, name) {
                        return Some(&members[k].1);
                    }
                    k = k + 1;
                }
                assert(all.skip(k as int) =~= Seq::<(Seq<char>, JsonView)>::empty());
                None
            },
            _ => None,
        }
    }

    /// The text of a value that is a text.
    pub fn as_text(&self) -> (text: Option<&String>)
        ensures
            match text {
                Some(s) => self@ == JsonView::Text(s@),
                None => !(self@ is Text),
            },
    {
        match self {
            Json::Text(s) => Some(s),
            _ => None,
        }
    }

    /// The value of a number that is an unsigned integer.
    pub fn as_u64(&self) -> (n: Option<u64>)
        ensures
            n == (match self@ {
                JsonView::Number(unsigned, _) => unsigned,
                _ => None,
            }),
    {
        match self {
            Json::Number(unsigned, _) => *unsigned,
            _ => None,
        }
    }

    /// The value of a number that is a signed integer.
    pub fn as_i64(&self) -> (n: Option<i64>)
        ensures
            n == (match self@ {
                JsonView::Number(_, signed) => signed,
                _ => None,
            }),
    {
        match self {
            Json::Number(_, signed) => *signed,
            _ => None,
        }
    }

    /// The number `n`.
    pub fn from_u64(n: u64) -> (tree: Json)
        ensures
            tree@ == unsigned_number(n),
    {
        if n <= i64::MAX as u64 {
            Json::Number(Some(n), Some(n as i64))
        } else {
            Json::Number(Some(n), None)
        }
    }

    /// The number `n`.
    pub fn from_i64(n: i64) -> (tree: Json)
        ensures
            tree@ == signed_number(n),
    {
        if n >= 0 {
            Json::Number(Some(n as u64), Some(n))
        } else {
            Json::Number(None, Some(n))
        }
    }
}

} // verus!
