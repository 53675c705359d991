//! JSON replies as plain values.

use vstd::prelude::*;

use crate::text::same_text;

verus! {

/// A JSON value, as the compositors' IPC replies carry it.
pub enum Json {
    /// `null`.
    Null,
    /// `true` or `false`.
    Bool(bool),
    /// A whole number.
    Integer(i128),
    /// Any other number.
    Fraction,
    /// A string.
    Text(String),
    /// An array.
    Array(Vec<Json>),
    /// An object, as its entries.
    Object(Vec<(String, Json)>),
}

/// The mathematical value of a [`Json`].
pub enum Tree {
    /// `null`.
    Null,
    /// `true` or `false`.
    Bool(bool),
    /// A whole number.
    Integer(int),
    /// Any other number.
    Fraction,
    /// A string.
    Text(Seq<char>),
    /// An array.
    Array(Seq<Tree>),
    /// An object, as its entries.
    Object(Seq<(Seq<char>, Tree)>),
}

impl Json {
    /// What the value is, apart from how it is held.
    pub open spec fn tree(self) -> Tree
        decreases self,
    {
        match self {
            Json::Null => Tree::Null,
            Json::Bool(b) => Tree::Bool(b),
            Json::Integer(i) => Tree::Integer(i as int),
            Json::Fraction => Tree::Fraction,
            Json::Text(s) => Tree::Text(s@),
            Json::Array(items) => Tree::Array(
                Seq::new(
                    items@.len(),
                    |i: int|
                        if 0 <= i < items@.len() {
                            items@[i].tree()
                        } else {
                            arbitrary()
                        },
                ),
            ),
            Json::Object(entries) => Tree::Object(
                Seq::new(
                    entries@.len(),
                    |i: int|
                        if 0 <= i < entries@.len() {
                            (entries@[i].0@, entries@[i].1.tree())
                        } else {
                            arbitrary()
                        },
                ),
            ),
        }
    }
}

impl View for Json {
    type V = Tree;

    open spec fn view(&self) -> Tree {
        self.tree()
    }
}

impl Tree {
    /// The value under `key`, where this is an object that has one.
    pub open spec fn field(self, key: Seq<char>) -> Option<Tree> {
        match self {
            Tree::Object(entries) => entry(entries, key),
            _ => None,
        }
    }

    /// The characters, where this is a string.
    pub open spec fn text(self) -> Option<Seq<char>> {
        match self {
            Tree::Text(s) => Some(s),
            _ => None,
        }
    }

    /// The truth value, where this is a boolean.
    pub open spec fn flag(self) -> Option<bool> {
        match self {
            Tree::Bool(b) => Some(b),
            _ => None,
        }
    }

    /// The number, where this is a whole number that an `i64` holds.
    pub open spec fn signed(self) -> Option<i64> {
        match self {
            Tree::Integer(i) => if i64::MIN <= i <= i64::MAX {
                Some(i as i64)
            } else {
                None
            },
            _ => None,
        }
    }

    /// The number, where this is a whole number that a `u64` holds.
    pub open spec fn unsigned(self) -> Option<u64> {
        match self {
            Tree::Integer(i) => if 0 <= i <= u64::MAX {
                Some(i as u64)
            } else {
                None
            },
            _ => None,
        }
    }

    /// The items, where this is an array.
    pub open spec fn items(self) -> Option<Seq<Tree>> {
        match self {
            Tree::Array(items) => Some(items),
            _ => None,
        }
    }

    /// The string under `key`, where there is one.
    pub open spec fn text_field(self, key: Seq<char>) -> Option<Seq<char>> {
        match self.field(key) {
            Some(t) => t.text(),
            None => None,
        }
    }

    /// The boolean under `key`, where there is one.
    pub open spec fn flag_field(self, key: Seq<char>) -> Option<bool> {
        match self.field(key) {
            Some(t) => t.flag(),
            None => None,
        }
    }

    /// The `i64` under `key`, where there is one.
    pub open spec fn signed_field(self, key: Seq<char>) -> Option<i64> {
        match self.field(key) {
            Some(t) => t.signed(),
            None => None,
        }
    }

    /// The `u64` under `key`, where there is one.
    pub open spec fn unsigned_field(self, key: Seq<char>) -> Option<u64> {
        match self.field(key) {
            Some(t) => t.unsigned(),
            None => None,
        }
    }

    /// The items of the array under `key`; none where there is no array.
    pub open spec fn items_field(self, key: Seq<char>) -> Seq<Tree> {
        match self.field(key) {
            Some(Tree::Array(items)) => items,
            _ => Seq::empty(),
        }
    }

    /// Whether there is a value other than `null` under `key`.
    pub open spec fn has_non_null(self, key: Seq<char>) -> bool {
        self.field(key) is Some && self.field(key)->0 !is Null
    }
}

/// The value of the first entry named `key`.
pub open spec fn entry(entries: Seq<(Seq<char>, Tree)>, key: Seq<char>) -> Option<Tree>
    decreases entries.len(),
{
    if entries.len() == 0 {
        None
    } else if entries[0].0 == key {
        Some(entries[0].1)
    } else {
        entry(entries.drop_first(), key)
    }
}

/// What is found by name is one of the entries.
pub(crate) proof fn lemma_entry_member(entries: Seq<(Seq<char>, Tree)>, key: Seq<char>)
    requires
        entry(entries, key) is Some,
    ensures
        exists|i: int|
            0 <= i < entries.len() && (#[trigger] entries[i]).1 == entry(entries, key)->0,
    decreases entries.len(),
{
    if entries[0].0 != key {
        let rest = entries.drop_first();
        lemma_entry_member(rest, key);
        let i = choose|i: int| 0 <= i < rest.len() && (#[trigger] rest[i]).1 == entry(rest, key)->0;
        assert(entries[i + 1] == rest[i]);
    }
}

/// The items of an array inside an object are parts of the object.
pub(crate) proof fn lemma_items_smaller(tree: Tree, key: Seq<char>)
    ensures
        forall|i: int|
            0 <= i < tree.items_field(key).len() ==> decreases_to!(
                tree => #[trigger] tree.items_field(key)[i]
            ),
{
    if let Some(Tree::Array(items)) = tree.field(key) {
        let entries = tree->Object_0;
        lemma_entry_member(entries, key);
        let k = choose|k: int|
            0 <= k < entries.len() && (#[trigger] entries[k]).1 == entry(entries, key)->0;
        assert(decreases_to!(tree => tree->Object_0));
        assert(decreases_to!(entries => entries[k]));
        assert(decreases_to!(entries[k] => entries[k].1));
        assert forall|i: int| 0 <= i < items.len() implies decreases_to!(
            tree => #[trigger] tree.items_field(key)[i]
        ) by {
            assert(decreases_to!(entries[k].1 => entries[k].1->Array_0));
            assert(decreases_to!(items => items[i]));
        }
    }
}

impl Json {
    /// The value under `key`, where this is an object that has one.
    pub fn get(&self, key: &str) -> (found: Option<&Json>)
        ensures
            found is Some <==> self@.field(key@) is Some,
            found is Some ==> (found->0)@ == self@.field(key@)->0,
    {
        match self {
            Json::Object(entries) => {
                let ghost all = self@->Object_0;
                assert(all.skip(0) =~= all);
                let mut i: usize = 0;
                while i < entries.len()
                    invariant
                        i <= entries@.len(),
                        self@ == Tree::Object(all),
                        all.len() == entries@.len(),
                        forall|k: int|
                            0 <= k < all.len() ==> #[trigger] all[k] == (
                                entries@[k].0@,
                                entries@[k].1@,
                            ),
                        entry(all, key@) == entry(all.skip(i as int), key@),
                    decreases entries@.len() - i,
                {
                    assert(all.skip(i as int)[0] == all[i as int]);
                    if same_text(entries[i].0.as_str(), key) {
                        return Some(&entries[i].1);
                    }
                    assert(all.skip(i as int).drop_first() =~= all.skip(i + 1));
                    i += 1;
                }
                None
            },
            _ => None,
        }
    }

    /// The string, where this is one.
    pub fn as_str(&self) -> (text: Option<&str>)
        ensures
            text is Some <==> self@.text() is Some,
            text is Some ==> (text->0)@ == self@.text()->0,
    {
        match self {
            Json::Text(s) => Some(s.as_str()),
            _ => None,
        }
    }

    /// The truth value, where this is one.
    pub fn as_bool(&self) -> (flag: Option<bool>)
        ensures
            flag == self@.flag(),
    {
        match self {
            Json::Bool(b) => Some(*b),
            _ => None,
        }
    }

    /// The number as an `i64`, where it is a whole number that fits.
    pub fn as_i64(&self) -> (number: Option<i64>)
        ensures
            number == self@.signed(),
    {
        match self {
            Json::Integer(i) => if i64::MIN as i128 <= *i && *i <= i64::MAX as i128 {
                Some(*i as i64)
            } else {
                None
            },
            _ => None,
        }
    }

    /// The number as a `u64`, where it is a whole number that fits.
    pub fn as_u64(&self) -> (number: Option<u64>)
        ensures
            number == self@.unsigned(),
    {
        match self {
            Json::Integer(i) => if 0 <= *i && *i <= u64::MAX as i128 {
                Some(*i as u64)
            } else {
                None
            },
            _ => None,
        }
    }

    /// The items, where this is an array.
    pub fn as_array(&self) -> (items: Option<&Vec<Json>>)
        ensures
            items is Some <==> self@.items() is Some,
            items is Some ==> views((items->0)@) == self@.items()->0,
    {
        match self {
            Json::Array(items) => {
                assert(views(items@) =~= self@->Array_0);
                Some(items)
            },
            _ => None,
        }
    }

    /// The string under `key`, where there is one.
    pub fn text_field(&self, key: &str) -> (text: Option<&str>)
        ensures
            text is Some <==> self@.text_field(key@) is Some,
            text is Some ==> (text->0)@ == self@.text_field(key@)->0,
    {
        match self.get(key) {
            Some(value) => value.as_str(),
            None => None,
        }
    }

    /// The truth value under `key`, where there is one.
    pub fn flag_field(&self, key: &str) -> (flag: Option<bool>)
        ensures
            flag == self@.flag_field(key@),
    {
        match self.get(key) {
            Some(value) => value.as_bool(),
            None => None,
        }
    }

    /// The `i64` under `key`, where there is one.
    pub fn signed_field(&self, key: &str) -> (number: Option<i64>)
        ensures
            number == self@.signed_field(key@),
    {
        match self.get(key) {
            Some(value) => value.as_i64(),
            None => None,
        }
    }

    /// The `u64` under `key`, where there is one.
    pub fn unsigned_field(&self, key: &str) -> (number: Option<u64>)
        ensures
            number == self@.unsigned_field(key@),
    {
        match self.get(key) {
            Some(value) => value.as_u64(),
            None => None,
        }
    }

    /// Appends the items of the array under `key`; none where there is no array.
    pub fn push_items<'a>(&'a self, key: &str, out: &mut Vec<&'a Json>)
        ensures
            ref_views(final(out)@) == ref_views(old(out)@) + self@.items_field(key@),
    {
        let ghost before = ref_views(out@);
        if let Some(value) = self.get(key) {
            if let Some(items) = value.as_array() {
                let ghost all = self@.items_field(key@);
                let mut i: usize = 0;
                assert(ref_views(out@) =~= before + all.take(0));
                while i < items.len()
                    invariant
                        i <= items@.len(),
                        views(items@) == all,
                        ref_views(out@) == before + all.take(i as int),
                    decreases items@.len() - i,
                {
                    let ghost so_far = out@;
                    out.push(&items[i]);
                    assert(ref_views(out@) =~= ref_views(so_far).push(all[i as int]));
                    assert(before + all.take(i + 1) =~= (before + all.take(i as int)).push(
                        all[i as int],
                    ));
                    i += 1;
                }
                assert(all.take(items@.len() as int) =~= all);
                return;
            }
        }
        assert(ref_views(out@) =~= before + self@.items_field(key@));
    }

    /// Whether there is a value other than `null` under `key`.
    pub fn has_non_null(&self, key: &str) -> (has: bool)
        ensures
            has == self@.has_non_null(key@),
    {
        match self.get(key) {
            Some(value) => !value.is_null(),
            None => false,
        }
    }

    /// Whether this is `null`.
    pub fn is_null(&self) -> (null: bool)
        ensures
            null == (self@ is Null),
    {
        match self {
            Json::Null => true,
            _ => false,
        }
    }
}

/// The trees of a list of values.
pub open spec fn views(items: Seq<Json>) -> Seq<Tree> {
    Seq::new(items.len(), |i: int| items[i]@)
}

/// The trees of a list of borrowed values.
pub open spec fn ref_views(items: Seq<&Json>) -> Seq<Tree> {
    Seq::new(items.len(), |i: int| items[i]@)
}

/// `serde_json::Value`, a JSON value as that crate holds it.
#[verifier::external_type_specification]
#[verifier::external_body]
pub struct ExValue(serde_json::Value);

/// The JSON tree that a `serde_json::Value` holds: each number by its whole value where
/// `as_u64` or `as_i64` gives one, each object by its entries in the order that the crate's
/// map walks them.
pub uninterp spec fn value_tree(value: serde_json::Value) -> Tree;

/// The JSON tree that `serde_json::from_slice` reads out of a text, or `None` where it
/// reports an error.
pub uninterp spec fn text_tree(text: Seq<u8>) -> Option<Tree>;

/// The outermost layer of a `serde_json::Value`, with what is inside it untouched.
pub(crate) enum Layer<'a> {
    Null,
    Bool(bool),
    Number(Option<i64>, Option<u64>),
    Text(&'a String),
    Array(&'a Vec<serde_json::Value>),
    Object(Vec<(&'a String, &'a serde_json::Value)>),
}

/// The tree of a number, given its two whole-number readings.
pub open spec fn number_tree(signed: Option<i64>, unsigned: Option<u64>) -> Tree {
    match (unsigned, signed) {
        (Some(u), _) => Tree::Integer(u as int),
        (None, Some(i)) => Tree::Integer(i as int),
        (None, None) => Tree::Fraction,
    }
}

impl<'a> Layer<'a> {
    /// The tree of the whole value.
    pub(crate) open spec fn tree(self) -> Tree {
        match self {
            Layer::Null => Tree::Null,
            Layer::Bool(b) => Tree::Bool(b),
            Layer::Number(signed, unsigned) => number_tree(signed, unsigned),
            Layer::Text(s) => Tree::Text(s@),
            Layer::Array(items) => Tree::Array(
                Seq::new(items@.len(), |i: int| value_tree(items@[i])),
            ),
            Layer::Object(entries) => Tree::Object(
                Seq::new(
                    entries@.len(),
                    |i: int| (entries@[i].0@, value_tree(*entries@[i].1)),
                ),
            ),
        }
    }
}

/// Reads a text with `serde_json::from_slice`. Trusted: whether it is read, and the tree of
/// the value that comes out, depend on the text alone.
#[verifier::external_body]
fn read_value(text: &[u8]) -> (value: Option<serde_json::Value>)
    ensures
        value is Some <==> text_tree(text@) is Some,
        value is Some ==> value_tree(value->0) == text_tree(text@)->0,
{
    serde_json::from_slice(text).ok()
}

/// Tells the variants of `serde_json::Value` apart and hands out their fields, a number by
/// `Number::as_i64` and `Number::as_u64`, an object by `Map::iter`. Trusted: the tree of the
/// value is built of exactly these parts.
#[verifier::external_body]
fn open_value<'a>(value: &'a serde_json::Value) -> (layer: Layer<'a>)
    ensures
        layer.tree() == value_tree(*value),
{
    match value {
        serde_json::Value::Null => Layer::Null,
        serde_json::Value::Bool(b) => Layer::Bool(*b),
        serde_json::Value::Number(n) => Layer::Number(n.as_i64(), n.as_u64()),
        serde_json::Value::String(s) => Layer::Text(s),
        serde_json::Value::Array(items) => Layer::Array(items),
        serde_json::Value::Object(entries) => Layer::Object(entries.iter().collect()),
    }
}

/// Copies a `serde_json::Value` out into plain values.
fn plain(value: &serde_json::Value) -> (json: Json)
    ensures
        json@ == value_tree(*value),
    decreases value_tree(*value),
{
    let ghost tree = value_tree(*value);
    match open_value(value) {
        Layer::Null => Json::Null,
        Layer::Bool(b) => Json::Bool(b),
        Layer::Number(signed, unsigned) => match (unsigned, signed) {
            (Some(u), _) => Json::Integer(u as i128),
            (None, Some(i)) => Json::Integer(i as i128),
            (None, None) => Json::Fraction,
        },
        Layer::Text(s) => Json::Text(s.clone()),
        Layer::Array(items) => {
            let mut copy: Vec<Json> = Vec::new();
            let mut i: usize = 0;
            while i < items.len()
                invariant
                    i == copy@.len(),
                    i <= items@.len(),
                    tree == value_tree(*value),
                    tree is Array,
                    tree->Array_0.len() == items@.len(),
                    forall|k: int|
                        0 <= k < items@.len() ==> #[trigger] tree->Array_0[k] == value_tree(
                            items@[k],
                        ),
                    forall|k: int| 0 <= k < i ==> (#[trigger] copy@[k])@ == tree->Array_0[k],
                decreases items@.len() - i,
            {
                assert(decreases_to!(tree => tree->Array_0));
                assert(decreases_to!(tree->Array_0 => tree->Array_0[i as int]));
                copy.push(plain(&items[i]));
                i += 1;
            }
            let json = Json::Array(copy);
            assert(json@->Array_0 =~= tree->Array_0);
            json
        },
        Layer::Object(entries) => {
            let mut copy: Vec<(String, Json)> = Vec::new();
            let mut i: usize = 0;
            while i < entries.len()
                invariant
                    i == copy@.len(),
                    i <= entries@.len(),
                    tree == value_tree(*value),
                    tree is Object,
                    tree->Object_0.len() == entries@.len(),
                    forall|k: int|
                        0 <= k < entries@.len() ==> #[trigger] tree->Object_0[k] == (
                            entries@[k].0@,
                            value_tree(*entries@[k].1),
                        ),
                    forall|k: int|
                        0 <= k < i ==> (#[trigger] copy@[k]).0@ == tree->Object_0[k].0
                            && copy@[k].1@ == tree->Object_0[k].1,
                decreases entries@.len() - i,
            {
                assert(decreases_to!(tree => tree->Object_0));
                assert(decreases_to!(tree->Object_0 => tree->Object_0[i as int]));
                assert(decreases_to!(tree->Object_0[i as int] => tree->Object_0[i as int].1));
                let inner = plain(entries[i].1);
                copy.push((entries[i].0.clone(), inner));
                i += 1;
            }
            let json = Json::Object(copy);
            assert(json@->Object_0 =~= tree->Object_0);
            json
        },
    }
}

/// Reads a JSON text.
pub fn parse(text: &[u8]) -> (json: Option<Json>)
    ensures
        json is Some <==> text_tree(text@) is Some,
        json is Some ==> (json->0)@ == text_tree(text@)->0,
{
    match read_value(text) {
        Some(value) => Some(plain(&value)),
        None => None,
    }
}

/// A value reads as a string, a boolean, a whole number or an array exactly where it is one, and
/// as the one that it is: nothing is converted, rounded or cut off.
pub proof fn law_readings_are_exact(
    t: Tree,
    s: Seq<char>,
    b: bool,
    i: i64,
    u: u64,
    items: Seq<Tree>,
)
    ensures
        t.text() == Some(s) <==> t == Tree::Text(s),
        t.flag() == Some(b) <==> t == Tree::Bool(b),
        t.signed() == Some(i) <==> t == Tree::Integer(i as int),
        t.unsigned() == Some(u) <==> t == Tree::Integer(u as int),
        t.items() == Some(items) <==> t == Tree::Array(items),
        t is Null || t is Fraction || t is Object ==> t.text() is None && t.flag() is None
            && t.signed() is None && t.unsigned() is None && t.items() is None,
{
}

/// What is found under a key is the value of an entry of that name, and no entry before it has
/// the name.
pub proof fn law_field_is_an_entry(t: Tree, key: Seq<char>)
    ensures
        t.field(key) matches Some(v) ==> t is Object && exists|i: int|
            #![trigger t->Object_0[i]]
            0 <= i < t->Object_0.len() && t->Object_0[i] == (key, v) && forall|j: int|
                0 <= j < i ==> (#[trigger] t->Object_0[j]).0 != key,
        t.field(key) is None && t is Object ==> forall|j: int|
            0 <= j < t->Object_0.len() ==> (#[trigger] t->Object_0[j]).0 != key,
        t !is Object ==> t.field(key) is None,
{
    if t is Object {
        lemma_entry_first(t->Object_0, key);
    }
}

proof fn lemma_entry_first(entries: Seq<(Seq<char>, Tree)>, key: Seq<char>)
    ensures
        entry(entries, key) matches Some(v) ==> exists|i: int|
            #![trigger entries[i]]
            0 <= i < entries.len() && entries[i] == (key, v) && forall|j: int|
                0 <= j < i ==> (#[trigger] entries[j]).0 != key,
        entry(entries, key) is None ==> forall|j: int|
            0 <= j < entries.len() ==> (#[trigger] entries[j]).0 != key,
    decreases entries.len(),
{
    if entries.len() > 0 {
        if entries[0].0 == key {
            assert(entries[0] == (key, entries[0].1));
        } else {
            let rest = entries.drop_first();
            lemma_entry_first(rest, key);
            assert forall|j: int| 1 <= j < entries.len() implies #[trigger] entries[j]
                == rest[j - 1] by {}
            if let Some(v) = entry(rest, key) {
                let i = choose|i: int|
                    #![trigger rest[i]]
                    0 <= i < rest.len() && rest[i] == (key, v) && forall|j: int|
                        0 <= j < i ==> (#[trigger] rest[j]).0 != key;
                assert(entries[i + 1] == (key, v));
                assert forall|j: int| 0 <= j < i + 1 implies (#[trigger] entries[j]).0 != key by {
                    if j > 0 {
                        assert(rest[j - 1].0 != key);
                    }
                }
            }
        }
    }
}

/// An entry is found under its name, whatever other entries the object has, unless one of the
/// same name stands before it.
pub proof fn law_entry_is_found(entries: Seq<(Seq<char>, Tree)>, i: int)
    requires
        0 <= i < entries.len(),
        forall|j: int| 0 <= j < i ==> (#[trigger] entries[j]).0 != entries[i].0,
    ensures
        Tree::Object(entries).field(entries[i].0) == Some(entries[i].1),
{
    let key = entries[i].0;
    lemma_entry_first(entries, key);
    if let Some(v) = entry(entries, key) {
        let k = choose|k: int|
            #![trigger entries[k]]
            0 <= k < entries.len() && entries[k] == (key, v) && forall|j: int|
                0 <= j < k ==> (#[trigger] entries[j]).0 != key;
        assert(k == i);
    }
}

/// A typed field is the field of that name, read as that type.
pub proof fn law_typed_fields_are_fields(
    t: Tree,
    key: Seq<char>,
    s: Seq<char>,
    b: bool,
    i: i64,
    u: u64,
    items: Seq<Tree>,
)
    ensures
        t.text_field(key) == Some(s) <==> t.field(key) == Some(Tree::Text(s)),
        t.flag_field(key) == Some(b) <==> t.field(key) == Some(Tree::Bool(b)),
        t.signed_field(key) == Some(i) <==> t.field(key) == Some(Tree::Integer(i as int)),
        t.unsigned_field(key) == Some(u) <==> t.field(key) == Some(Tree::Integer(u as int)),
        t.field(key) == Some(Tree::Array(items)) ==> t.items_field(key) == items,
        !(t.field(key) is Some && t.field(key)->0 is Array) ==> t.items_field(key).len() == 0,
        t.has_non_null(key) <==> t.field(key) is Some && t.field(key) != Some(Tree::Null),
{
}

/// A value stands for the tree that it looks like: its own kind, its own contents, and its
/// parts in their places.
pub proof fn law_values_are_their_trees(json: Json)
    ensures
        json is Null <==> json@ == Tree::Null,
        json matches Json::Bool(b) ==> json@ == Tree::Bool(b),
        json matches Json::Integer(i) ==> json@ == Tree::Integer(i as int),
        json is Fraction <==> json@ == Tree::Fraction,
        json matches Json::Text(s) ==> json@ == Tree::Text(s@),
        json matches Json::Array(items) ==> json@ is Array && json@->Array_0.len() == items@.len()
            && forall|i: int|
            0 <= i < items@.len() ==> (#[trigger] items@[i])@ == json@->Array_0[i],
        json matches Json::Object(entries) ==> json@ is Object && json@->Object_0.len()
            == entries@.len() && forall|i: int|
            0 <= i < entries@.len() ==> json@->Object_0[i] == (
                (#[trigger] entries@[i]).0@,
                entries@[i].1@,
            ),
{
    match json {
        Json::Array(items) => {
            assert forall|i: int| 0 <= i < items@.len() implies (#[trigger] items@[i])@
                == json@->Array_0[i] by {}
        },
        Json::Object(entries) => {
            assert forall|i: int| 0 <= i < entries@.len() implies json@->Object_0[i] == (
                (#[trigger] entries@[i]).0@,
                entries@[i].1@,
            ) by {}
        },
        _ => {},
    }
}

/// A list of values stands for the list of their trees.
pub proof fn law_lists_are_their_trees(items: Seq<Json>, refs: Seq<&Json>)
    ensures
        views(items).len() == items.len(),
        forall|i: int| 0 <= i < items.len() ==> #[trigger] views(items)[i] == items[i]@,
        ref_views(refs).len() == refs.len(),
        forall|i: int| 0 <= i < refs.len() ==> #[trigger] ref_views(refs)[i] == refs[i]@,
{
}

/// A number is its unsigned reading or else its signed one; without either it is a fraction.
pub proof fn law_number_is_its_reading(signed: Option<i64>, unsigned: Option<u64>)
    ensures
        unsigned matches Some(u) ==> number_tree(signed, unsigned) == Tree::Integer(u as int),
        unsigned is None && signed is Some ==> number_tree(signed, unsigned) == Tree::Integer(
            signed->0 as int,
        ),
        unsigned is None && signed is None <==> number_tree(signed, unsigned) is Fraction,
{
}

} // verus!
