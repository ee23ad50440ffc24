//! JSON documents: what they hold, their canonical form, and the passage
//! between documents and text, which `serde_json` performs.
use crate::text::{
    comes_before, same_text, text_before, text_order_is_asymmetric, text_order_is_total,
    text_order_is_transitive, texts,
};
use vstd::prelude::*;

verus! {

/// `serde_json::Value`, which is only carried between `serde_json` and here.
#[verifier::external_type_specification]
#[verifier::external_body]
pub struct ExValue(serde_json::Value);

/// `serde_json::Number`, a JSON number.
#[verifier::external_type_specification]
#[verifier::external_body]
pub struct ExNumber(serde_json::Number);

/// What a JSON number is: a number that fits `u64`, a negative number that
/// fits `i64`, or a floating-point number, given by the text it prints as.
pub enum NumberView {
    Unsigned(u64),
    Negative(i64),
    Float(Seq<char>),
}

/// What a JSON document holds. The members of an object have no order.
pub enum JsonView {
    Null,
    Bool(bool),
    Number(NumberView),
    Text(Seq<char>),
    Array(Seq<JsonView>),
    Object(Map<Seq<char>, JsonView>),
}

/// A JSON document as it is written: the members of an object have an order.
pub enum JsonTree {
    Null,
    Bool(bool),
    Number(NumberView),
    Text(Seq<char>),
    Array(Seq<JsonTree>),
    Object(Seq<(Seq<char>, JsonTree)>),
}

/// A JSON document. The members of an object stand in the order in which they
/// were written; of two members with one name the later counts.
pub enum Json {
    Null,
    Bool(bool),
    Number(serde_json::Number),
    Text(String),
    Array(Vec<Json>),
    Object(Vec<(String, Json)>),
}

/// What a `serde_json::Number` is.
pub uninterp spec fn number_of(n: serde_json::Number) -> NumberView;

/// What a `serde_json::Value` holds.
pub uninterp spec fn value_of(v: serde_json::Value) -> JsonView;

/// The compact text that `serde_json` prints of a document.
pub uninterp spec fn printed(document: JsonView) -> Seq<char>;

/// The document that `serde_json` reads from a text, if it is one.
pub uninterp spec fn parsed(text: Seq<char>) -> Option<JsonView>;

/// The list of strings that `serde_json` reads from a text, if it is one.
pub uninterp spec fn parsed_list(text: Seq<char>) -> Option<Seq<Seq<char>>>;

/// The compact text that `serde_json` prints of a list of strings.
pub uninterp spec fn printed_list(list: Seq<Seq<char>>) -> Seq<char>;

/// The object of strings that `serde_json` reads from a text, if it is one.
pub uninterp spec fn parsed_map(text: Seq<char>) -> Option<Map<Seq<char>, Seq<char>>>;

// ---------------------------------------------------------------------------
// What a document holds
// ---------------------------------------------------------------------------

/// The map that a list of named entries stands for: the last entry of a name
/// counts.
pub open spec fn by_name<T>(entries: Seq<(Seq<char>, T)>) -> Map<Seq<char>, T>
    decreases entries.len(),
{
    if entries.len() == 0 {
        Map::empty()
    } else {
        by_name(entries.drop_last()).insert(entries.last().0, entries.last().1)
    }
}

/// What the document `j` holds.
pub open spec fn json_view(j: Json) -> JsonView
    decreases j,
{
    match j {
        Json::Null => JsonView::Null,
        Json::Bool(b) => JsonView::Bool(b),
        Json::Number(n) => JsonView::Number(number_of(n)),
        Json::Text(s) => JsonView::Text(s@),
        Json::Array(items) => JsonView::Array(item_views(items@)),
        Json::Object(members) => JsonView::Object(by_name(member_views(members@))),
    }
}

/// What each document of a list holds.
pub open spec fn item_views(items: Seq<Json>) -> Seq<JsonView>
    decreases items,
{
    if items.len() == 0 {
        Seq::empty()
    } else {
        item_views(items.drop_last()).push(json_view(items.last()))
    }
}

/// The name of each member and what it holds.
pub open spec fn member_views(members: Seq<(String, Json)>) -> Seq<(Seq<char>, JsonView)>
    decreases members,
{
    if members.len() == 0 {
        Seq::empty()
    } else {
        member_views(members.drop_last()).push(
            (members.last().0@, json_view(members.last().1)),
        )
    }
}

impl View for Json {
    type V = JsonView;

    open spec fn view(&self) -> JsonView {
        json_view(*self)
    }
}

/// The document `j` as it is written.
pub open spec fn tree_of(j: Json) -> JsonTree
    decreases j,
{
    match j {
        Json::Null => JsonTree::Null,
        Json::Bool(b) => JsonTree::Bool(b),
        Json::Number(n) => JsonTree::Number(number_of(n)),
        Json::Text(s) => JsonTree::Text(s@),
        Json::Array(items) => JsonTree::Array(item_trees(items@)),
        Json::Object(members) => JsonTree::Object(member_trees(members@)),
    }
}

/// Each document of a list as it is written.
pub open spec fn item_trees(items: Seq<Json>) -> Seq<JsonTree>
    decreases items,
{
    if items.len() == 0 {
        Seq::empty()
    } else {
        item_trees(items.drop_last()).push(tree_of(items.last()))
    }
}

/// Each member as it is written.
pub open spec fn member_trees(members: Seq<(String, Json)>) -> Seq<(Seq<char>, JsonTree)>
    decreases members,
{
    if members.len() == 0 {
        Seq::empty()
    } else {
        member_trees(members.drop_last()).push(
            (members.last().0@, tree_of(members.last().1)),
        )
    }
}

/// The names of the members stand in strictly ascending order.
pub open spec fn names_ascend(members: Seq<(String, Json)>) -> bool {
    forall|i: int, j: int|
        0 <= i < j < members.len() ==> text_before(#[trigger] members[i].0@, #[trigger] members[j].0@)
}

/// The canonical form: the members of every object stand in strictly
/// ascending order of their names.
pub open spec fn is_canonical(j: Json) -> bool
    decreases j,
{
    match j {
        Json::Array(items) => all_canonical(items@),
        Json::Object(members) => names_ascend(members@) && members_canonical(members@),
        _ => true,
    }
}

/// Every document of the list is canonical.
pub open spec fn all_canonical(items: Seq<Json>) -> bool
    decreases items,
{
    items.len() == 0 || (all_canonical(items.drop_last()) && is_canonical(items.last()))
}

/// What every member holds is canonical.
pub open spec fn members_canonical(members: Seq<(String, Json)>) -> bool
    decreases members,
{
    members.len() == 0 || (members_canonical(members.drop_last()) && is_canonical(
        members.last().1,
    ))
}

// ---------------------------------------------------------------------------
// Facts on lists of members
// ---------------------------------------------------------------------------

proof fn lemma_member_views(members: Seq<(String, Json)>)
    ensures
        member_views(members).len() == members.len(),
        forall|i: int|
            0 <= i < members.len() ==> #[trigger] member_views(members)[i] == (
                members[i].0@,
                json_view(members[i].1),
            ),
    decreases members.len(),
{
    if members.len() > 0 {
        lemma_member_views(members.drop_last());
    }
}

proof fn lemma_member_trees(members: Seq<(String, Json)>)
    ensures
        member_trees(members).len() == members.len(),
        forall|i: int|
            0 <= i < members.len() ==> #[trigger] member_trees(members)[i] == (
                members[i].0@,
                tree_of(members[i].1),
            ),
    decreases members.len(),
{
    if members.len() > 0 {
        lemma_member_trees(members.drop_last());
    }
}

proof fn lemma_item_views(items: Seq<Json>)
    ensures
        item_views(items).len() == items.len(),
        forall|i: int|
            0 <= i < items.len() ==> #[trigger] item_views(items)[i] == json_view(items[i]),
    decreases items.len(),
{
    if items.len() > 0 {
        lemma_item_views(items.drop_last());
    }
}

proof fn lemma_item_trees(items: Seq<Json>)
    ensures
        item_trees(items).len() == items.len(),
        forall|i: int|
            0 <= i < items.len() ==> #[trigger] item_trees(items)[i] == tree_of(items[i]),
    decreases items.len(),
{
    if items.len() > 0 {
        lemma_item_trees(items.drop_last());
    }
}

proof fn lemma_all_canonical(items: Seq<Json>)
    ensures
        all_canonical(items) <==> forall|i: int|
            0 <= i < items.len() ==> is_canonical(#[trigger] items[i]),
    decreases items.len(),
{
    if items.len() > 0 {
        let head = items.drop_last();
        lemma_all_canonical(head);
        assert(forall|i: int| 0 <= i < head.len() ==> head[i] == items[i]);
        if all_canonical(items) {
            assert forall|i: int| 0 <= i < items.len() implies is_canonical(#[trigger] items[i]) by {
                if i < head.len() {
                    assert(is_canonical(head[i]));
                }
            }
        }
        if forall|i: int| 0 <= i < items.len() ==> is_canonical(#[trigger] items[i]) {
            assert(is_canonical(items[items.len() - 1]));
            assert forall|i: int| 0 <= i < head.len() implies is_canonical(#[trigger] head[i]) by {
                assert(is_canonical(items[i]));
            }
        }
    }
}

proof fn lemma_members_canonical(members: Seq<(String, Json)>)
    ensures
        members_canonical(members) <==> forall|i: int|
            0 <= i < members.len() ==> is_canonical(#[trigger] members[i].1),
    decreases members.len(),
{
    if members.len() > 0 {
        let head = members.drop_last();
        lemma_members_canonical(head);
        assert(forall|i: int| 0 <= i < head.len() ==> head[i] == members[i]);
        if members_canonical(members) {
            assert forall|i: int| 0 <= i < members.len() implies is_canonical(
                #[trigger] members[i].1,
            ) by {
                if i < head.len() {
                    assert(is_canonical(head[i].1));
                }
            }
        }
        if forall|i: int| 0 <= i < members.len() ==> is_canonical(#[trigger] members[i].1) {
            assert(is_canonical(members[members.len() - 1].1));
            assert forall|i: int| 0 <= i < head.len() implies is_canonical(#[trigger] head[i].1) by {
                assert(is_canonical(members[i].1));
            }
        }
    }
}

/// What an array holds is smaller than the array.
proof fn lemma_item_is_smaller(j: Json, i: int)
    requires
        j matches Json::Array(items) && 0 <= i < items@.len(),
    ensures
        decreases_to!(j => j->Array_0@[i]),
{
    assert(decreases_to!(j => j->Array_0));
    assert(decreases_to!(j->Array_0 => j->Array_0@));
    assert(decreases_to!(j->Array_0@ => j->Array_0@[i]));
}

/// What a member of an object holds is smaller than the object.
proof fn lemma_member_is_smaller(j: Json, i: int)
    requires
        j matches Json::Object(members) && 0 <= i < members@.len(),
    ensures
        decreases_to!(j => j->Object_0@[i].1),
{
    assert(decreases_to!(j => j->Object_0));
    assert(decreases_to!(j->Object_0 => j->Object_0@));
    assert(decreases_to!(j->Object_0@ => j->Object_0@[i]));
    assert(decreases_to!(j->Object_0@[i] => j->Object_0@[i].1));
}

/// A name stands in the map of a list of entries where some entry has it.
proof fn lemma_named<T>(entries: Seq<(Seq<char>, T)>, name: Seq<char>)
    ensures
        by_name(entries).contains_key(name) <==> exists|i: int|
            0 <= i < entries.len() && (#[trigger] entries[i]).0 == name,
    decreases entries.len(),
{
    if entries.len() > 0 {
        let head = entries.drop_last();
        let last = entries.len() - 1;
        lemma_named(head, name);
        if by_name(entries).contains_key(name) && entries[last].0 != name {
            let i = choose|i: int| 0 <= i < head.len() && (#[trigger] head[i]).0 == name;
            assert(entries[i].0 == name);
        }
        if exists|i: int| 0 <= i < entries.len() && (#[trigger] entries[i]).0 == name {
            let i = choose|i: int| 0 <= i < entries.len() && (#[trigger] entries[i]).0 == name;
            if i < last {
                assert(head[i].0 == name);
            }
        }
    }
}

/// The map of a list of entries is finite.
proof fn lemma_named_finite<T>(entries: Seq<(Seq<char>, T)>)
    ensures
        by_name(entries).dom().finite(),
    decreases entries.len(),
{
    if entries.len() > 0 {
        lemma_named_finite(entries.drop_last());
    }
}

/// The last entry of a name gives the name's value.
proof fn lemma_last_named<T>(entries: Seq<(Seq<char>, T)>, at: int)
    requires
        0 <= at < entries.len(),
        forall|k: int| at < k < entries.len() ==> (#[trigger] entries[k]).0 != entries[at].0,
    ensures
        by_name(entries).contains_key(entries[at].0),
        by_name(entries)[entries[at].0] == entries[at].1,
    decreases entries.len(),
{
    let head = entries.drop_last();
    let last = entries.len() - 1;
    if at < last {
        assert(entries[last].0 != entries[at].0);
        assert forall|k: int| at < k < head.len() implies (#[trigger] head[k]).0 != head[at].0 by {
            assert(entries[k].0 != entries[at].0);
        }
        lemma_last_named(head, at);
    }
}

/// Where no two entries have one name, each entry gives its name's value.
proof fn lemma_distinct_entries<T>(entries: Seq<(Seq<char>, T)>)
    requires
        forall|i: int, j: int|
            0 <= i < j < entries.len() ==> (#[trigger] entries[i]).0 != (#[trigger] entries[j]).0,
    ensures
        forall|i: int|
            0 <= i < entries.len() ==> by_name(entries).contains_key((#[trigger] entries[i]).0)
                && by_name(entries)[entries[i].0] == entries[i].1,
        forall|name: Seq<char>| #[trigger]
            by_name(entries).contains_key(name) ==> exists|i: int|
                0 <= i < entries.len() && (#[trigger] entries[i]).0 == name,
{
    assert forall|i: int| 0 <= i < entries.len() implies by_name(entries).contains_key(
        (#[trigger] entries[i]).0,
    ) && by_name(entries)[entries[i].0] == entries[i].1 by {
        lemma_last_named(entries, i);
    }
    assert forall|name: Seq<char>| #[trigger] by_name(entries).contains_key(name) implies exists|
        i: int,
    |
        0 <= i < entries.len() && (#[trigger] entries[i]).0 == name by {
        lemma_named(entries, name);
    }
}

// ---------------------------------------------------------------------------
// Numbers
// ---------------------------------------------------------------------------

/// `Number::from(u64)` of `serde_json`: the number `x`.
#[verifier::external_body]
fn number_from_u64(x: u64) -> (n: serde_json::Number)
    ensures
        number_of(n) == NumberView::Unsigned(x),
{
    serde_json::Number::from(x)
}

/// The number `x`, which is negative or fits `u64`.
pub open spec fn signed_number(x: i64) -> NumberView {
    if x < 0 {
        NumberView::Negative(x)
    } else {
        NumberView::Unsigned(x as u64)
    }
}

/// `Number::from(i64)` of `serde_json`: the number `x`.
#[verifier::external_body]
fn number_from_i64(x: i64) -> (n: serde_json::Number)
    ensures
        number_of(n) == signed_number(x),
{
    serde_json::Number::from(x)
}

/// `Number::as_u64` of `serde_json`: the number where it fits `u64` and is no
/// floating-point number.
#[verifier::external_body]
fn number_as_u64(n: &serde_json::Number) -> (x: Option<u64>)
    ensures
        x == as_u64_view(number_of(*n)),
{
    n.as_u64()
}

/// `Number::as_i64` of `serde_json`: the number where it fits `i64` and is no
/// floating-point number.
#[verifier::external_body]
fn number_as_i64(n: &serde_json::Number) -> (x: Option<i64>)
    ensures
        x == as_i64_view(number_of(*n)),
{
    n.as_i64()
}

/// `Number::clone` of `serde_json`: an equal number.
#[verifier::external_body]
fn copy_number(n: &serde_json::Number) -> (copy: serde_json::Number)
    ensures
        number_of(copy) == number_of(*n),
{
    n.clone()
}

/// The number as `u64`, where it is one.
pub open spec fn as_u64_view(n: NumberView) -> Option<u64> {
    match n {
        NumberView::Unsigned(x) => Some(x),
        _ => None,
    }
}

/// The number as `i64`, where it is one.
pub open spec fn as_i64_view(n: NumberView) -> Option<i64> {
    match n {
        NumberView::Unsigned(x) => if x <= i64::MAX {
            Some(x as i64)
        } else {
            None
        },
        NumberView::Negative(x) => Some(x),
        NumberView::Float(_) => None,
    }
}

// ---------------------------------------------------------------------------
// Reading
// ---------------------------------------------------------------------------

/// The member `name` of a document, where it is an object that has it.
pub open spec fn member(document: JsonView, name: Seq<char>) -> Option<JsonView> {
    match document {
        JsonView::Object(members) => if members.contains_key(name) {
            Some(members[name])
        } else {
            None
        },
        _ => None,
    }
}

/// The object without members.
pub open spec fn no_members() -> JsonView {
    JsonView::Object(Map::empty())
}

/// An object with one member more.
pub open spec fn with_member(document: JsonView, name: Seq<char>, held: JsonView) -> JsonView {
    match document {
        JsonView::Object(members) => JsonView::Object(members.insert(name, held)),
        other => other,
    }
}

/// The text that the member `name` holds, where it holds one.
pub open spec fn text_member(document: JsonView, name: Seq<char>) -> Option<Seq<char>> {
    match member(document, name) {
        Some(JsonView::Text(s)) => Some(s),
        _ => None,
    }
}

/// The truth value that the member `name` holds, where it holds one.
pub open spec fn bool_member(document: JsonView, name: Seq<char>) -> Option<bool> {
    match member(document, name) {
        Some(JsonView::Bool(b)) => Some(b),
        _ => None,
    }
}

/// The number that the member `name` holds, where it holds one that fits
/// `u64`.
pub open spec fn u64_member(document: JsonView, name: Seq<char>) -> Option<u64> {
    match member(document, name) {
        Some(JsonView::Number(n)) => as_u64_view(n),
        _ => None,
    }
}

/// The number that the member `name` holds, where it holds one that fits
/// `i64`.
pub open spec fn i64_member(document: JsonView, name: Seq<char>) -> Option<i64> {
    match member(document, name) {
        Some(JsonView::Number(n)) => as_i64_view(n),
        _ => None,
    }
}

impl Json {
    /// The number `x` as a document.
    pub fn unsigned(x: u64) -> (j: Json)
        ensures
            j@ == JsonView::Number(NumberView::Unsigned(x)),
            is_canonical(j),
    {
        Json::Number(number_from_u64(x))
    }

    /// The number `x` as a document.
    pub fn signed(x: i64) -> (j: Json)
        ensures
            j@ == JsonView::Number(signed_number(x)),
            is_canonical(j),
    {
        Json::Number(number_from_i64(x))
    }

    /// The text `s` as a document.
    pub fn text(s: &str) -> (j: Json)
        ensures
            j@ == JsonView::Text(s@),
            is_canonical(j),
    {
        Json::Text(s.to_owned())
    }

    /// The text `s` as a document, or null where there is none.
    pub fn text_or_null(s: &Option<String>) -> (j: Json)
        ensures
            j@ == (match *s {
                Some(s) => JsonView::Text(s@),
                None => JsonView::Null,
            }),
    {
        match s {
            Some(s) => Json::Text(s.clone()),
            None => Json::Null,
        }
    }

    /// The object without members.
    pub fn empty_object() -> (j: Json)
        ensures
            j@ == no_members(),
            is_canonical(j),
    {
        let members: Vec<(String, Json)> = Vec::new();
        proof {
            assert(members@ =~= Seq::<(String, Json)>::empty());
        }
        Json::Object(members)
    }

    /// This object with one member more, which counts in the place of an
    /// earlier member of that name.
    pub fn with(self, name: &str, held: Json) -> (j: Json)
        requires
            self@ is Object,
        ensures
            j@ == with_member(self@, name@, held@),
    {
        match self {
            Json::Object(members) => {
                let mut more = members;
                more.push((name.to_owned(), held));
                proof {
                    assert(more@.drop_last() =~= members@);
                    let views = member_views(more@);
                    assert(views.drop_last() =~= member_views(members@));
                }
                Json::Object(more)
            },
            other => other,
        }
    }

    /// The member `name`, where this is an object that has it.
    pub fn get(&self, name: &str) -> (found: Option<&Json>)
        ensures
            found is Some <==> member(self@, name@) is Some,
            found matches Some(j) ==> Some(j@) == member(self@, name@),
    {
        match self {
            Json::Object(members) => {
                proof {
                    lemma_member_views(members@);
                    lemma_named(member_views(members@), name@);
                }
                let mut i: usize = members.len();
                while i > 0
                    invariant
                        i <= members@.len(),
                        *self == Json::Object(*members),
                        forall|k: int| i <= k < members@.len() ==> (#[trigger] members@[k]).0@ != name@,
                    decreases i,
                {
                    i = i - 1;
                    if same_text(members[i].0.as_str(), name) {
                        proof {
                            lemma_member_views(members@);
                            lemma_last_named(member_views(members@), i as int);
                        }
                        return Some(&members[i].1);
                    }
                }
                None
            },
            _ => None,
        }
    }

    /// The text that the member `name` holds, where it holds one.
    pub fn get_text(&self, name: &str) -> (found: Option<String>)
        ensures
            crate::text::opt_text(found) == text_member(self@, name@),
    {
        match self.get(name) {
            Some(Json::Text(s)) => Some(s.clone()),
            _ => None,
        }
    }

    /// The truth value that the member `name` holds, where it holds one.
    pub fn get_bool(&self, name: &str) -> (found: Option<bool>)
        ensures
            found == bool_member(self@, name@),
    {
        match self.get(name) {
            Some(Json::Bool(b)) => Some(*b),
            _ => None,
        }
    }

    /// The number that the member `name` holds, where it holds one that fits
    /// `u64`.
    pub fn get_u64(&self, name: &str) -> (found: Option<u64>)
        ensures
            found == u64_member(self@, name@),
    {
        match self.get(name) {
            Some(Json::Number(n)) => number_as_u64(n),
            _ => None,
        }
    }

    /// The number that the member `name` holds, where it holds one that fits
    /// `i64`.
    pub fn get_i64(&self, name: &str) -> (found: Option<i64>)
        ensures
            found == i64_member(self@, name@),
    {
        match self.get(name) {
            Some(Json::Number(n)) => number_as_i64(n),
            _ => None,
        }
    }
}

// ---------------------------------------------------------------------------
// Canonical form
// ---------------------------------------------------------------------------

/// Adds the member `name` to members in ascending order, in the place of an
/// earlier member of that name.
fn put_member(members: &mut Vec<(String, Json)>, name: String, held: Json)
    requires
        names_ascend(old(members)@),
        members_canonical(old(members)@),
        is_canonical(held),
    ensures
        names_ascend(final(members)@),
        members_canonical(final(members)@),
        by_name(member_views(final(members)@)) == by_name(member_views(old(members)@)).insert(
            name@,
            json_view(held),
        ),
{
    let ghost before = members@;
    let mut at: usize = 0;
    while at < members.len() && comes_before(members[at].0.as_str(), name.as_str())
        invariant
            members@ == before,
            at <= members@.len(),
            forall|k: int| 0 <= k < at ==> text_before(#[trigger] before[k].0@, name@),
        decreases members@.len() - at,
    {
        at = at + 1;
    }
    let ghost entry = (name, held);
    let taken = at < members.len() && same_text(members[at].0.as_str(), name.as_str());
    if taken {
        members.set(at, (name, held));
        proof {
            assert(members@ =~= before.update(at as int, entry));
        }
    } else {
        members.insert(at, (name, held));
        proof {
            assert(members@ =~= before.insert(at as int, entry));
        }
    }
    proof {
        lemma_put(before, at as int, taken, entry);
    }
}

/// Putting a member in its place keeps the order and adds the member.
proof fn lemma_put(before: Seq<(String, Json)>, at: int, taken: bool, entry: (String, Json))
    requires
        names_ascend(before),
        members_canonical(before),
        is_canonical(entry.1),
        0 <= at <= before.len(),
        forall|k: int| 0 <= k < at ==> text_before(#[trigger] before[k].0@, entry.0@),
        at < before.len() ==> !text_before(before[at].0@, entry.0@),
        taken <==> at < before.len() && before[at].0@ == entry.0@,
    ensures
        ({
            let after = if taken {
                before.update(at, entry)
            } else {
                before.insert(at, entry)
            };
            &&& names_ascend(after)
            &&& members_canonical(after)
            &&& by_name(member_views(after)) == by_name(member_views(before)).insert(
                entry.0@,
                json_view(entry.1),
            )
        }),
{
    let after = if taken {
        before.update(at, entry)
    } else {
        before.insert(at, entry)
    };
    if at < before.len() {
        text_order_is_total(before[at].0@, entry.0@);
    }
    // Where each member of `after` comes from.
    let shift: int = if taken {
        0
    } else {
        1
    };
    assert forall|k: int| 0 <= k < after.len() implies #[trigger] after[k] == (if k < at {
        before[k]
    } else if k == at {
        entry
    } else {
        before[k - shift]
    }) by {}
    assert forall|k: int| at + 1 - shift <= k < before.len() implies text_before(
        entry.0@,
        #[trigger] before[k].0@,
    ) by {
        if k > at {
            assert(text_before(before[at].0@, before[k].0@));
            if !taken {
                text_order_is_transitive(entry.0@, before[at].0@, before[k].0@);
            }
        }
    }
    assert(names_ascend(after)) by {
        assert forall|i: int, j: int| 0 <= i < j < after.len() implies text_before(
            #[trigger] after[i].0@,
            #[trigger] after[j].0@,
        ) by {
            if i < at && j < at {
                assert(text_before(before[i].0@, before[j].0@));
            } else if i < at && j > at {
                assert(text_before(before[i].0@, before[j - shift].0@));
            } else if i > at {
                assert(text_before(before[i - shift].0@, before[j - shift].0@));
            } else if i == at {
                assert(text_before(entry.0@, before[j - shift].0@));
            }
        }
    }
    lemma_members_canonical(before);
    lemma_members_canonical(after);
    assert(members_canonical(after)) by {
        assert forall|k: int| 0 <= k < after.len() implies is_canonical(#[trigger] after[k].1) by {
            if k < at {
                assert(is_canonical(before[k].1));
            } else if k > at {
                assert(is_canonical(before[k - shift].1));
            }
        }
    }
    lemma_ascending_members(before);
    lemma_ascending_members(after);
    let old_map = by_name(member_views(before));
    let new_map = by_name(member_views(after));
    let goal = old_map.insert(entry.0@, json_view(entry.1));
    assert forall|name: Seq<char>| #[trigger]
        new_map.contains_key(name) <==> goal.contains_key(name) by {
        if new_map.contains_key(name) {
            let k = choose|k: int| 0 <= k < after.len() && (#[trigger] after[k]).0@ == name;
            if k < at {
                assert(old_map.contains_key(before[k].0@));
            } else if k > at {
                assert(old_map.contains_key(before[k - shift].0@));
            }
        }
        if goal.contains_key(name) {
            if name == entry.0@ {
                assert(after[at] == entry);
            } else {
                let k = choose|k: int| 0 <= k < before.len() && (#[trigger] before[k]).0@ == name;
                if k < at {
                    assert(after[k] == before[k]);
                } else {
                    assert(after[k + shift] == before[k]);
                }
            }
        }
    }
    assert forall|name: Seq<char>| #[trigger] new_map.contains_key(name) implies new_map[name]
        == goal[name] by {
        let k = choose|k: int| 0 <= k < after.len() && (#[trigger] after[k]).0@ == name;
        assert(new_map[name] == json_view(after[k].1));
        if k < at {
            assert(after[k] == before[k]);
            assert(text_before(before[k].0@, entry.0@));
            text_order_is_asymmetric(before[k].0@, entry.0@);
            assert(old_map[before[k].0@] == json_view(before[k].1));
        } else if k > at {
            assert(after[k] == before[k - shift]);
            assert(text_before(entry.0@, before[k - shift].0@));
            text_order_is_asymmetric(entry.0@, before[k - shift].0@);
            assert(old_map[before[k - shift].0@] == json_view(before[k - shift].1));
        }
    }
    assert(new_map =~= goal);
}

/// Members in ascending order give each name its one value.
proof fn lemma_ascending_members(members: Seq<(String, Json)>)
    requires
        names_ascend(members),
    ensures
        ({
            let map = by_name(member_views(members));
            &&& forall|i: int|
                0 <= i < members.len() ==> map.contains_key((#[trigger] members[i]).0@)
                    && map[members[i].0@] == json_view(members[i].1)
            &&& forall|name: Seq<char>| #[trigger]
                map.contains_key(name) ==> exists|i: int|
                    0 <= i < members.len() && (#[trigger] members[i]).0@ == name
        }),
{
    let views = member_views(members);
    lemma_member_views(members);
    assert forall|i: int, j: int| 0 <= i < j < views.len() implies (#[trigger] views[i]).0 != (
    #[trigger] views[j]).0 by {
        assert(text_before(members[i].0@, members[j].0@));
        text_order_is_asymmetric(members[i].0@, members[j].0@);
    }
    lemma_distinct_entries(views);
    let map = by_name(views);
    assert forall|i: int| 0 <= i < members.len() implies map.contains_key(
        (#[trigger] members[i]).0@,
    ) && map[members[i].0@] == json_view(members[i].1) by {
        assert(views[i].0 == members[i].0@);
    }
    assert forall|name: Seq<char>| #[trigger] map.contains_key(name) implies exists|i: int|
        0 <= i < members.len() && (#[trigger] members[i]).0@ == name by {
        let i = choose|i: int| 0 <= i < views.len() && (#[trigger] views[i]).0 == name;
        assert(members[i].0@ == name);
    }
}

/// The canonical form of a document: it holds the same, and the members of
/// every object stand in ascending order of their names.
pub fn canonical_json(value: &Json) -> (canonical: Json)
    ensures
        canonical@ == value@,
        is_canonical(canonical),
    decreases *value,
{
    match value {
        Json::Object(members) => {
            let mut sorted: Vec<(String, Json)> = Vec::new();
            let mut i: usize = 0;
            assert(member_views(members@.take(0)) =~= member_views(sorted@));
            while i < members.len()
                invariant
                    *value == Json::Object(*members),
                    i <= members@.len(),
                    names_ascend(sorted@),
                    members_canonical(sorted@),
                    by_name(member_views(sorted@)) == by_name(
                        member_views(members@.take(i as int)),
                    ),
                decreases members@.len() - i,
            {
                proof {
                    lemma_member_is_smaller(*value, i as int);
                }
                let held: Json = canonical_json(&members[i].1);
                put_member(&mut sorted, members[i].0.clone(), held);
                proof {
                    let next = members@.take(i + 1);
                    assert(next.drop_last() =~= members@.take(i as int));
                    assert(next.last() == members@[i as int]);
                    let views = member_views(next);
                    assert(views.drop_last() =~= member_views(members@.take(i as int)));
                }
                i = i + 1;
            }
            assert(members@.take(i as int) =~= members@);
            Json::Object(sorted)
        },
        Json::Array(items) => {
            let mut out: Vec<Json> = Vec::new();
            let mut i: usize = 0;
            assert(item_views(items@.take(0)) =~= item_views(out@));
            while i < items.len()
                invariant
                    *value == Json::Array(*items),
                    i <= items@.len(),
                    all_canonical(out@),
                    item_views(out@) == item_views(items@.take(i as int)),
                decreases items@.len() - i,
            {
                proof {
                    lemma_item_is_smaller(*value, i as int);
                }
                let item: Json = canonical_json(&items[i]);
                let ghost done = out@;
                out.push(item);
                proof {
                    let next = items@.take(i + 1);
                    assert(next.drop_last() =~= items@.take(i as int));
                    assert(out@.drop_last() =~= done);
                }
                i = i + 1;
            }
            assert(items@.take(i as int) =~= items@);
            Json::Array(out)
        },
        Json::Null => Json::Null,
        Json::Bool(b) => Json::Bool(*b),
        Json::Number(n) => Json::Number(copy_number(n)),
        Json::Text(s) => Json::Text(s.clone()),
    }
}

/// The canonical form depends only on what a document holds: two canonical
/// documents that hold the same are written the same.
pub proof fn canonical_form_is_unique(a: Json, b: Json)
    requires
        is_canonical(a),
        is_canonical(b),
        a@ == b@,
    ensures
        tree_of(a) == tree_of(b),
    decreases a,
{
    match (a, b) {
        (Json::Array(xs), Json::Array(ys)) => {
            lemma_item_views(xs@);
            lemma_item_views(ys@);
            lemma_item_trees(xs@);
            lemma_item_trees(ys@);
            lemma_all_canonical(xs@);
            lemma_all_canonical(ys@);
            assert(xs@.len() == ys@.len());
            assert forall|i: int| 0 <= i < xs@.len() implies #[trigger] item_trees(xs@)[i]
                == item_trees(ys@)[i] by {
                assert(item_views(xs@)[i] == item_views(ys@)[i]);
                canonical_form_is_unique(xs@[i], ys@[i]);
            }
            assert(item_trees(xs@) =~= item_trees(ys@));
        },
        (Json::Object(xs), Json::Object(ys)) => {
            lemma_member_trees(xs@);
            lemma_member_trees(ys@);
            lemma_members_canonical(xs@);
            lemma_members_canonical(ys@);
            lemma_same_names(xs@, ys@);
            lemma_ascending_members(xs@);
            lemma_ascending_members(ys@);
            assert forall|i: int| 0 <= i < xs@.len() implies #[trigger] member_trees(xs@)[i]
                == member_trees(ys@)[i] by {
                assert(xs@[i].0@ == ys@[i].0@);
                canonical_form_is_unique(xs@[i].1, ys@[i].1);
            }
            assert(member_trees(xs@) =~= member_trees(ys@));
        },
        _ => {},
    }
}

/// Two lists of members in ascending order that stand for one map have the
/// same names in the same places.
proof fn lemma_same_names(xs: Seq<(String, Json)>, ys: Seq<(String, Json)>)
    requires
        names_ascend(xs),
        names_ascend(ys),
        by_name(member_views(xs)).dom() == by_name(member_views(ys)).dom(),
    ensures
        xs.len() == ys.len(),
        forall|i: int| 0 <= i < xs.len() ==> (#[trigger] xs[i]).0@ == ys[i].0@,
    decreases xs.len(),
{
    lemma_ascending_members(xs);
    lemma_ascending_members(ys);
    let map_x = by_name(member_views(xs));
    let map_y = by_name(member_views(ys));
    if xs.len() == 0 {
        if ys.len() > 0 {
            assert(map_y.contains_key(ys[0].0@));
            assert(map_x.dom().contains(ys[0].0@));
        }
    } else {
        let last_x = xs.last().0@;
        assert(map_x.contains_key(xs[xs.len() - 1].0@));
        assert(map_y.dom().contains(last_x));
        let at = choose|i: int| 0 <= i < ys.len() && (#[trigger] ys[i]).0@ == last_x;
        let last_y = ys.last().0@;
        assert(map_y.contains_key(ys[ys.len() - 1].0@));
        assert(map_x.dom().contains(last_y));
        let back = choose|i: int| 0 <= i < xs.len() && (#[trigger] xs[i]).0@ == last_y;
        if last_x != last_y {
            assert(text_before(ys[at].0@, ys[ys.len() - 1].0@));
            assert(text_before(xs[back].0@, xs[xs.len() - 1].0@));
            text_order_is_asymmetric(last_x, last_y);
        }
        let head_x = xs.drop_last();
        let head_y = ys.drop_last();
        assert(names_ascend(head_x)) by {
            assert forall|i: int, j: int| 0 <= i < j < head_x.len() implies text_before(
                #[trigger] head_x[i].0@,
                #[trigger] head_x[j].0@,
            ) by {
                assert(text_before(xs[i].0@, xs[j].0@));
            }
        }
        assert(names_ascend(head_y)) by {
            assert forall|i: int, j: int| 0 <= i < j < head_y.len() implies text_before(
                #[trigger] head_y[i].0@,
                #[trigger] head_y[j].0@,
            ) by {
                assert(text_before(ys[i].0@, ys[j].0@));
            }
        }
        lemma_head_names(xs);
        lemma_head_names(ys);
        assert(by_name(member_views(head_x)).dom() =~= map_x.dom().remove(last_x));
        assert(by_name(member_views(head_y)).dom() =~= map_y.dom().remove(last_y));
        lemma_same_names(head_x, head_y);
        assert forall|i: int| 0 <= i < xs.len() implies (#[trigger] xs[i]).0@ == ys[i].0@ by {
            if i < head_x.len() {
                assert(head_x[i].0@ == head_y[i].0@);
            }
        }
    }
}

/// Dropping the last of some members in ascending order takes its name away.
proof fn lemma_head_names(members: Seq<(String, Json)>)
    requires
        names_ascend(members),
        members.len() > 0,
    ensures
        forall|name: Seq<char>| #[trigger]
            by_name(member_views(members.drop_last())).dom().contains(name) <==> by_name(
                member_views(members),
            ).dom().contains(name) && name != members.last().0@,
{
    let head = members.drop_last();
    let views = member_views(members);
    assert(views.drop_last() =~= member_views(head));
    assert(views.last() == (members.last().0@, json_view(members.last().1)));
    lemma_member_views(head);
    assert forall|name: Seq<char>| #[trigger]
        by_name(member_views(head)).dom().contains(name) <==> by_name(views).dom().contains(name)
            && name != members.last().0@ by {
        if by_name(member_views(head)).dom().contains(name) {
            lemma_named(member_views(head), name);
            let i = choose|i: int|
                0 <= i < member_views(head).len() && (#[trigger] member_views(head)[i]).0 == name;
            assert(head[i].0@ == name);
            assert(text_before(members[i].0@, members[members.len() - 1].0@));
            text_order_is_asymmetric(members[i].0@, members.last().0@);
        }
    }
}

/// Taking the canonical form again changes nothing.
pub proof fn canonical_form_is_stable(a: Json, once: Json, twice: Json)
    requires
        once@ == a@,
        is_canonical(once),
        twice@ == once@,
        is_canonical(twice),
    ensures
        tree_of(twice) == tree_of(once),
{
    canonical_form_is_unique(twice, once);
}

/// The order in which the members of an object are written does not matter:
/// where no two members have one name, any two objects with the same members
/// hold the same.
pub proof fn member_order_is_immaterial(xs: Vec<(String, Json)>, ys: Vec<(String, Json)>)
    requires
        forall|i: int, j: int|
            0 <= i < j < xs@.len() ==> (#[trigger] xs@[i]).0@ != (#[trigger] xs@[j]).0@,
        forall|i: int, j: int|
            0 <= i < j < ys@.len() ==> (#[trigger] ys@[i]).0@ != (#[trigger] ys@[j]).0@,
        member_views(xs@).to_set() == member_views(ys@).to_set(),
    ensures
        Json::Object(xs)@ == Json::Object(ys)@,
{
    let vx = member_views(xs@);
    let vy = member_views(ys@);
    lemma_member_views(xs@);
    lemma_member_views(ys@);
    assert forall|i: int, j: int| 0 <= i < j < vx.len() implies (#[trigger] vx[i]).0 != (
    #[trigger] vx[j]).0 by {
        assert(xs@[i].0@ != xs@[j].0@);
    }
    assert forall|i: int, j: int| 0 <= i < j < vy.len() implies (#[trigger] vy[i]).0 != (
    #[trigger] vy[j]).0 by {
        assert(ys@[i].0@ != ys@[j].0@);
    }
    lemma_distinct_entries(vx);
    lemma_distinct_entries(vy);
    assert forall|name: Seq<char>| #[trigger]
        by_name(vx).contains_key(name) <==> by_name(vy).contains_key(name) by {
        if by_name(vx).contains_key(name) {
            let i = choose|i: int| 0 <= i < vx.len() && (#[trigger] vx[i]).0 == name;
            assert(vx.to_set().contains(vx[i]));
            assert(vy.contains(vx[i]));
            let j = choose|j: int| 0 <= j < vy.len() && vy[j] == vx[i];
            assert(vy[j].0 == name);
        }
        if by_name(vy).contains_key(name) {
            let i = choose|i: int| 0 <= i < vy.len() && (#[trigger] vy[i]).0 == name;
            assert(vy.to_set().contains(vy[i]));
            assert(vx.contains(vy[i]));
            let j = choose|j: int| 0 <= j < vx.len() && vx[j] == vy[i];
            assert(vx[j].0 == name);
        }
    }
    assert forall|name: Seq<char>| #[trigger] by_name(vx).contains_key(name) implies by_name(
        vx,
    )[name] == by_name(vy)[name] by {
        let i = choose|i: int| 0 <= i < vx.len() && (#[trigger] vx[i]).0 == name;
        assert(vx.to_set().contains(vx[i]));
        assert(vy.contains(vx[i]));
        let j = choose|j: int| 0 <= j < vy.len() && vy[j] == vx[i];
        assert(by_name(vy)[vy[j].0] == vy[j].1);
        assert(by_name(vx)[vx[i].0] == vx[i].1);
    }
    assert(by_name(vx) =~= by_name(vy));
}

// ---------------------------------------------------------------------------
// Documents and text
// ---------------------------------------------------------------------------

/// One level of a `serde_json::Value`.
enum Node {
    Null,
    Bool(bool),
    Number(serde_json::Number),
    Text(String),
    Array(Vec<serde_json::Value>),
    Object(Vec<(String, serde_json::Value)>),
}

/// What one level and the values below it hold.
spec fn node_view(node: Node) -> JsonView {
    match node {
        Node::Null => JsonView::Null,
        Node::Bool(b) => JsonView::Bool(b),
        Node::Number(n) => JsonView::Number(number_of(n)),
        Node::Text(s) => JsonView::Text(s@),
        Node::Array(items) => JsonView::Array(
            items@.map_values(|v: serde_json::Value| value_of(v)),
        ),
        Node::Object(members) => JsonView::Object(by_name(entry_views(members@))),
    }
}

spec fn entry_views(entries: Seq<(String, serde_json::Value)>) -> Seq<(Seq<char>, JsonView)> {
    entries.map_values(|entry: (String, serde_json::Value)| (entry.0@, value_of(entry.1)))
}

/// The member name under which `serde_json` passes documents through unread:
/// where an object begins with it, `serde_json` does not read an object but
/// what the member's text says.
pub const RESERVED_NAME: &'static str = "$serde_json::private::RawValue";

/// How deep arrays and objects may be nested for `serde_json` to read them.
pub const DEEPEST_NESTING: u64 = 127;

/// The document holds no floating-point number and no member with the reserved
/// name, and no more than `depth` arrays and objects are nested in one another.
pub open spec fn is_plain_within(document: JsonView, depth: nat) -> bool
    decreases depth,
{
    match document {
        JsonView::Number(NumberView::Float(_)) => false,
        JsonView::Array(items) => depth > 0 && forall|i: int|
            0 <= i < items.len() ==> #[trigger] is_plain_within(items[i], (depth - 1) as nat),
        JsonView::Object(members) => depth > 0 && !members.contains_key(RESERVED_NAME@)
            && forall|name: Seq<char>| #[trigger]
            members.contains_key(name) ==> is_plain_within(members[name], (depth - 1) as nat),
        _ => true,
    }
}

/// The document is one that is read back from its text: it holds no
/// floating-point number and no member with the reserved name, and is not
/// nested too deep.
pub open spec fn is_plain(document: JsonView) -> bool {
    is_plain_within(document, DEEPEST_NESTING as nat)
}

/// The document is read back from its text, where it is plain.
pub open spec fn reads_back(document: JsonView) -> bool {
    is_plain(document) ==> parsed(printed(document)) == Some(document)
}

/// No two members have one name.
spec fn node_names_differ(node: Node) -> bool {
    node matches Node::Object(members) ==> forall|i: int, j: int|
        0 <= i < j < members@.len() ==> (#[trigger] members@[i]).0@ != (
        #[trigger] members@[j]).0@
}

/// The variants of `serde_json::Value`: the value that one level and the
/// values below it make up. A `serde_json::Map` that is collected from members
/// with different names holds each of them.
#[verifier::external_body]
fn close_value(node: Node) -> (v: serde_json::Value)
    requires
        node_names_differ(node),
    ensures
        value_of(v) == node_view(node),
{
    match node {
        Node::Null => serde_json::Value::Null,
        Node::Bool(b) => serde_json::Value::Bool(b),
        Node::Number(n) => serde_json::Value::Number(n),
        Node::Text(s) => serde_json::Value::String(s),
        Node::Array(items) => serde_json::Value::Array(items),
        Node::Object(members) => serde_json::Value::Object(members.into_iter().collect()),
    }
}

/// The variants of `serde_json::Value`: one level of a value and the values
/// below it. The members of a `serde_json::Map` have different names.
#[verifier::external_body]
fn open_value(v: serde_json::Value) -> (node: Node)
    ensures
        node_view(node) == value_of(v),
        node_names_differ(node),
{
    match v {
        serde_json::Value::Null => Node::Null,
        serde_json::Value::Bool(b) => Node::Bool(b),
        serde_json::Value::Number(n) => Node::Number(n),
        serde_json::Value::String(s) => Node::Text(s),
        serde_json::Value::Array(items) => Node::Array(items),
        serde_json::Value::Object(members) => Node::Object(members.into_iter().collect()),
    }
}

/// `Display` of `serde_json::Value`: the compact text of a value, which
/// depends on nothing but what the value holds. `serde_json` reads a plain
/// document back from its text. Left out are documents that it reads as
/// something else or not at all: those with floating-point numbers, those with
/// the reserved name, which its deserializer of `Value` takes for a document
/// passed through unread, and those nested deeper than its parser goes.
#[verifier::external_body]
fn print_value(v: &serde_json::Value) -> (text: String)
    ensures
        text@ == printed(value_of(*v)),
        is_plain(value_of(*v)) ==> parsed(text@) == Some(value_of(*v)),
{
    v.to_string()
}

/// `serde_json::from_str` into a `Value`: the document that a text is, or
/// nothing where the text is none.
#[verifier::external_body]
fn parse_value(text: &str) -> (v: Option<serde_json::Value>)
    ensures
        v is Some <==> parsed(text@) is Some,
        v matches Some(v) ==> parsed(text@) == Some(value_of(v)),
{
    serde_json::from_str::<serde_json::Value>(text).ok()
}

/// `serde_json::from_str` into a `Vec<String>`: the list of strings that a
/// text is, or nothing where the text is none.
#[verifier::external_body]
fn parse_list(text: &str) -> (list: Option<Vec<String>>)
    ensures
        list is Some <==> parsed_list(text@) is Some,
        list matches Some(list) ==> parsed_list(text@) == Some(texts(list@)),
{
    serde_json::from_str::<Vec<String>>(text).ok()
}

/// `serde_json::to_string` of a `Vec<String>`: the text of the list, which
/// `serde_json` reads back as the same list. Writing strings into memory does
/// not fail.
#[verifier::external_body]
fn print_list(list: &Vec<String>) -> (text: Option<String>)
    ensures
        text is Some,
        text matches Some(text) ==> text@ == printed_list(texts(list@)),
        text matches Some(text) ==> parsed_list(text@) == Some(texts(list@)),
{
    serde_json::to_string(list).ok()
}

/// `serde_json::from_str` into a map of strings, given out entry by entry in
/// the order of the names: the object that a text is, or nothing where the
/// text is none or a member is no string.
#[verifier::external_body]
fn parse_map(text: &str) -> (entries: Option<Vec<(String, String)>>)
    ensures
        entries is Some <==> parsed_map(text@) is Some,
        entries matches Some(entries) ==> parsed_map(text@) == Some(
            by_name(text_entries(entries@)),
        ) && names_distinct(entries@),
{
    serde_json::from_str::<std::collections::BTreeMap<String, String>>(text)
        .ok()
        .map(|map| map.into_iter().collect())
}

/// The name and the text of each entry.
pub open spec fn text_entries(entries: Seq<(String, String)>) -> Seq<(Seq<char>, Seq<char>)> {
    entries.map_values(|entry: (String, String)| (entry.0@, entry.1@))
}

/// No two entries have one name.
pub open spec fn names_distinct(entries: Seq<(String, String)>) -> bool {
    forall|i: int, j: int|
        0 <= i < j < entries.len() ==> (#[trigger] entries[i]).0@ != (#[trigger] entries[j]).0@
}

/// The canonical document as a `serde_json::Value`.
fn to_value(document: &Json) -> (v: serde_json::Value)
    requires
        is_canonical(*document),
    ensures
        value_of(v) == document@,
    decreases *document,
{
    match document {
        Json::Null => close_value(Node::Null),
        Json::Bool(b) => close_value(Node::Bool(*b)),
        Json::Number(n) => close_value(Node::Number(copy_number(n))),
        Json::Text(s) => close_value(Node::Text(s.clone())),
        Json::Array(items) => {
            let mut values: Vec<serde_json::Value> = Vec::new();
            let mut i: usize = 0;
            while i < items.len()
                invariant
                    *document == Json::Array(*items),
                    is_canonical(*document),
                    i <= items@.len(),
                    values@.len() == i,
                    forall|k: int|
                        0 <= k < i ==> value_of(#[trigger] values@[k]) == json_view(items@[k]),
                decreases items@.len() - i,
            {
                proof {
                    lemma_item_is_smaller(*document, i as int);
                    lemma_all_canonical(items@);
                }
                let value = to_value(&items[i]);
                values.push(value);
                i = i + 1;
            }
            proof {
                lemma_item_views(items@);
                assert(values@.map_values(|v: serde_json::Value| value_of(v)) =~= item_views(
                    items@,
                ));
            }
            close_value(Node::Array(values))
        },
        Json::Object(members) => {
            let mut entries: Vec<(String, serde_json::Value)> = Vec::new();
            let mut i: usize = 0;
            while i < members.len()
                invariant
                    *document == Json::Object(*members),
                    is_canonical(*document),
                    i <= members@.len(),
                    entries@.len() == i,
                    forall|k: int|
                        0 <= k < i ==> (#[trigger] entries@[k]).0@ == members@[k].0@ && value_of(
                            entries@[k].1,
                        ) == json_view(members@[k].1),
                decreases members@.len() - i,
            {
                proof {
                    lemma_member_is_smaller(*document, i as int);
                    lemma_members_canonical(members@);
                }
                let value = to_value(&members[i].1);
                entries.push((members[i].0.clone(), value));
                i = i + 1;
            }
            proof {
                lemma_member_views(members@);
                assert(entry_views(entries@) =~= member_views(members@));
                assert forall|i: int, j: int| 0 <= i < j < entries@.len() implies (
                #[trigger] entries@[i]).0@ != (#[trigger] entries@[j]).0@ by {
                    assert(text_before(members@[i].0@, members@[j].0@));
                    text_order_is_asymmetric(members@[i].0@, members@[j].0@);
                }
            }
            close_value(Node::Object(entries))
        },
    }
}

/// The document that a `serde_json::Value` is.
fn from_value(v: serde_json::Value) -> (document: Json)
    ensures
        document@ == value_of(v),
    decreases value_of(v),
{
    match open_value(v) {
        Node::Null => Json::Null,
        Node::Bool(b) => Json::Bool(b),
        Node::Number(n) => Json::Number(n),
        Node::Text(s) => Json::Text(s),
        Node::Array(items) => {
            let ghost values = items@.map_values(|v: serde_json::Value| value_of(v));
            let mut out: Vec<Json> = Vec::new();
            for item in it: items
                invariant
                    it.seq() == items@,
                    values == items@.map_values(|v: serde_json::Value| value_of(v)),
                    value_of(v) == JsonView::Array(values),
                    out@.len() == it.index(),
                    forall|k: int|
                        0 <= k < it.index() ==> json_view(#[trigger] out@[k]) == values[k],
            {
                assert(values[it.index()] == value_of(item));
                proof {
                    assert(decreases_to!(value_of(v) => value_of(v)->Array_0));
                    assert(decreases_to!(values => values[it.index()]));
                }
                out.push(from_value(item));
            }
            proof {
                lemma_item_views(out@);
                assert(item_views(out@) =~= values);
            }
            Json::Array(out)
        },
        Node::Object(entries) => {
            let ghost views = entry_views(entries@);
            let mut members: Vec<(String, Json)> = Vec::new();
            for entry in it: entries
                invariant
                    it.seq() == entries@,
                    views == entry_views(entries@),
                    forall|i: int, j: int|
                        0 <= i < j < entries@.len() ==> (#[trigger] entries@[i]).0@ != (
                        #[trigger] entries@[j]).0@,
                    value_of(v) == JsonView::Object(by_name(views)),
                    members@.len() == it.index(),
                    forall|k: int|
                        0 <= k < it.index() ==> (#[trigger] members@[k]).0@ == views[k].0
                            && json_view(members@[k].1) == views[k].1,
            {
                proof {
                    let i = it.index();
                    assert(views[i] == (entry.0@, value_of(entry.1)));
                    assert forall|k: int| i < k < views.len() implies (#[trigger] views[k]).0
                        != views[i].0 by {
                        assert(entries@[i].0@ != entries@[k].0@);
                    }
                    lemma_last_named(views, i);
                    lemma_named_finite(views);
                    let map = by_name(views);
                    assert(decreases_to!(value_of(v) => value_of(v)->Object_0));
                    assert(decreases_to!(map => map[views[i].0]));
                }
                let held: Json = from_value(entry.1);
                members.push((entry.0, held));
            }
            proof {
                lemma_member_views(members@);
                assert(member_views(members@) =~= views);
            }
            Json::Object(members)
        },
    }
}

/// The compact text of a document.
pub fn json_text(document: &Json) -> (text: String)
    ensures
        text@ == printed(document@),
        reads_back(document@),
{
    let canonical: Json = canonical_json(document);
    let value = to_value(&canonical);
    print_value(&value)
}

/// The document that a text is, or nothing where the text is none.
pub fn parse_json(text: &str) -> (document: Option<Json>)
    ensures
        document is Some <==> parsed(text@) is Some,
        document matches Some(document) ==> parsed(text@) == Some(document@),
{
    match parse_value(text) {
        Some(value) => Some(from_value(value)),
        None => None,
    }
}

/// The document that a text is; the empty object where the text is none.
pub open spec fn parsed_or_empty(text: Seq<char>) -> JsonView {
    match parsed(text) {
        Some(document) => document,
        None => no_members(),
    }
}

/// The document that a text is; the empty object where the text is none.
pub fn parse_or_empty(text: &str) -> (document: Json)
    ensures
        document@ == parsed_or_empty(text@),
{
    match parse_json(text) {
        Some(document) => document,
        None => Json::empty_object(),
    }
}

/// The list of strings that a text is; the empty list where the text is none.
pub open spec fn list_or_empty(text: Seq<char>) -> Seq<Seq<char>> {
    match parsed_list(text) {
        Some(list) => list,
        None => Seq::empty(),
    }
}

/// The list of strings that a text is; the empty list where the text is none.
pub fn parse_text_list(text: &str) -> (list: Vec<String>)
    ensures
        texts(list@) == list_or_empty(text@),
{
    match parse_list(text) {
        Some(list) => list,
        None => {
            let list: Vec<String> = Vec::new();
            assert(texts(list@) =~= Seq::empty());
            list
        },
    }
}

/// The text of a list of strings, from which the list is read back.
pub fn text_list(list: &Vec<String>) -> (text: String)
    ensures
        text@ == printed_list(texts(list@)),
        list_or_empty(text@) == texts(list@),
{
    match print_list(list) {
        Some(text) => text,
        None => String::new(),
    }
}

/// The entries of the object of strings that a text is, or nothing where the
/// text is none.
pub fn parse_text_map(text: &str) -> (entries: Option<Vec<(String, String)>>)
    ensures
        entries is Some <==> parsed_map(text@) is Some,
        entries matches Some(entries) ==> parsed_map(text@) == Some(
            by_name(text_entries(entries@)),
        ) && names_distinct(entries@),
{
    parse_map(text)
}

/// A copy of a document.
pub fn copy_json(document: &Json) -> (copy: Json)
    ensures
        copy@ == document@,
{
    canonical_json(document)
}

/// What is put into an object under a name is what is read under it, whole and
/// unchanged, and what is read under every other name stays as it was.
pub proof fn member_is_read_back(
    document: JsonView,
    name: Seq<char>,
    held: JsonView,
    other: Seq<char>,
)
    requires
        document is Object,
        other != name,
    ensures
        member(with_member(document, name, held), name) == Some(held),
        member(with_member(document, name, held), other) == member(document, other),
        member(no_members(), name) is None,
{
}

/// A member is read as a text, a truth value or a number exactly where it is
/// one; a number from zero up is read without a sign, and with one where it is
/// not too great; a negative number only with a sign; and a floating-point
/// number as neither.
pub proof fn members_are_read_by_kind(members: Map<Seq<char>, JsonView>, name: Seq<char>)
    ensures
        ({
            let document = JsonView::Object(members);
            let there = members.contains_key(name);
            &&& text_member(document, name) is Some <==> there && members[name] is Text
            &&& text_member(document, name) matches Some(s) ==> members[name] == JsonView::Text(s)
            &&& bool_member(document, name) is Some <==> there && members[name] is Bool
            &&& bool_member(document, name) matches Some(b) ==> members[name] == JsonView::Bool(b)
            &&& u64_member(document, name) is Some <==> there && members[name] is Number
                && members[name]->Number_0 is Unsigned
            &&& u64_member(document, name) matches Some(n) ==> members[name] == JsonView::Number(
                NumberView::Unsigned(n),
            )
            &&& there ==> (members[name] matches JsonView::Number(NumberView::Unsigned(n)) ==> i64_member(
                document,
                name,
            ) == if n <= 0x7fff_ffff_ffff_ffff {
                Some(n as i64)
            } else {
                None
            })
            &&& there ==> (members[name] matches JsonView::Number(NumberView::Negative(n)) ==> i64_member(
                document,
                name,
            ) == Some(n))
            &&& !there || members[name] !is Number || members[name]->Number_0 is Float
                ==> i64_member(document, name) is None && u64_member(document, name) is None
        }),
{
}

/// A whole number is the same document whichever way it is made.
pub proof fn signed_number_keeps_its_value(x: i64)
    ensures
        x >= 0 ==> signed_number(x) == NumberView::Unsigned(x as u64),
        x < 0 ==> signed_number(x) == NumberView::Negative(x),
{
}

/// The members that an object holds are those that were written, and of members
/// with one name the last one.
pub proof fn last_member_counts(members: Vec<(String, Json)>, i: int)
    requires
        0 <= i < members@.len(),
        forall|k: int|
            i < k < members@.len() ==> (#[trigger] members@[k]).0@ != members@[i].0@,
    ensures
        member(Json::Object(members)@, members@[i].0@) == Some(members@[i].1@),
{
    let entries = member_views(members@);
    lemma_member_views(members@);
    assert forall|k: int| i < k < entries.len() implies (#[trigger] entries[k]).0
        != entries[i].0 by {
        assert(members@[k].0@ != members@[i].0@);
    }
    lemma_last_named(entries, i);
}

/// An object has no members but those that were written, and an array holds
/// what was written, in order.
pub proof fn nothing_is_added(members: Vec<(String, Json)>, items: Vec<Json>, name: Seq<char>)
    ensures
        member(Json::Object(members)@, name) is Some ==> exists|i: int|
            0 <= i < members@.len() && (#[trigger] members@[i]).0@ == name,
        Json::Array(items)@ matches JsonView::Array(held) && held.len() == items@.len() && forall|
            i: int,
        |
            0 <= i < held.len() ==> #[trigger] held[i] == items@[i]@,
{
    let entries = member_views(members@);
    lemma_member_views(members@);
    lemma_item_views(items@);
    lemma_named(entries, name);
    if member(Json::Object(members)@, name) is Some {
        let i = choose|i: int| 0 <= i < entries.len() && (#[trigger] entries[i]).0 == name;
        assert(members@[i].0@ == name);
    }
}

/// A text that is no document counts as the empty object, and one that is no
/// list of texts as the empty list; every other text is what it says.
pub proof fn unreadable_text_counts_as_empty(text: Seq<char>)
    ensures
        parsed(text) matches Some(document) ==> parsed_or_empty(text) == document,
        parsed(text) is None ==> parsed_or_empty(text) == JsonView::Object(
            Map::<Seq<char>, JsonView>::empty(),
        ),
        parsed_list(text) matches Some(list) ==> list_or_empty(text) == list,
        parsed_list(text) is None ==> list_or_empty(text).len() == 0,
{
}

} // verus!
