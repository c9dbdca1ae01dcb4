//! The values that a document holds, and the mathematical tree that stands for
//! them in contracts.

use vstd::prelude::*;
use vstd::std_specs::cmp::PartialEqSpecImpl;

verus! {

/// A document as mathematics: what a [`JsonValue`] means, free of machine
/// limits and of the order in which an object happened to be filled.
pub enum Json {
    Null,
    Bool(bool),
    Number(nat),
    String(Seq<char>),
    Array(Seq<Json>),
    Object(Map<Seq<char>, Json>),
}

/// A parsed value. A container owns its children.
#[derive(Debug)]
pub enum JsonValue {
    JsonNull,
    JsonBool(bool),
    JsonNumber(usize),
    JsonString(String),
    JsonArray(Vec<JsonValue>),
    JsonObject(JsonMap),
}

/// The members of an object: a map from keys to values in which each key
/// occurs once. The order of the entries carries no meaning.
#[derive(Debug)]
pub struct JsonMap {
    entries: Vec<(String, JsonValue)>,
}

/// The map that results from inserting `pairs` one after the other, so that
/// of two pairs with one key the later one stays.
pub open spec fn map_of(pairs: Seq<(Seq<char>, Json)>) -> Map<Seq<char>, Json>
    decreases pairs.len(),
{
    if pairs.len() == 0 {
        Map::empty()
    } else {
        map_of(pairs.drop_last()).insert(pairs.last().0, pairs.last().1)
    }
}

/// No two of `pairs` share a key.
pub open spec fn distinct_keys(pairs: Seq<(Seq<char>, Json)>) -> bool {
    forall|i: int, j: int| 0 <= i < j < pairs.len() ==> pairs[i].0 != pairs[j].0
}

/// Each entry with its key and its value replaced by what they stand for.
pub open spec fn pairs_of(entries: Seq<(String, JsonValue)>) -> Seq<(Seq<char>, Json)>
    decreases entries, 0int,
{
    Seq::new(
        entries.len(),
        |i: int|
            if 0 <= i < entries.len() {
                (entries[i].0@, entries[i].1@)
            } else {
                arbitrary()
            },
    )
}

/// Each element replaced by what it stands for.
pub open spec fn items_of(items: Seq<JsonValue>) -> Seq<Json>
    decreases items, 0int,
{
    Seq::new(
        items.len(),
        |i: int|
            if 0 <= i < items.len() {
                items[i]@
            } else {
                arbitrary()
            },
    )
}

impl View for JsonValue {
    type V = Json;

    open spec fn view(&self) -> Json
        decreases self, 1int,
    {
        match self {
            JsonValue::JsonNull => Json::Null,
            JsonValue::JsonBool(b) => Json::Bool(*b),
            JsonValue::JsonNumber(n) => Json::Number(*n as nat),
            JsonValue::JsonString(s) => Json::String(s@),
            JsonValue::JsonArray(items) => Json::Array(items_of(items@)),
            JsonValue::JsonObject(members) => Json::Object(members@),
        }
    }
}

impl View for JsonMap {
    type V = Map<Seq<char>, Json>;

    closed spec fn view(&self) -> Map<Seq<char>, Json>
        decreases self, 1int,
    {
        map_of(pairs_of(self.entries@))
    }
}

impl JsonMap {
    #[verifier::type_invariant]
    spec fn keys_occur_once(&self) -> bool {
        distinct_keys(pairs_of(self.entries@))
    }

    /// An object without members.
    pub fn new() -> (members: Self)
        ensures
            members@ == Map::<Seq<char>, Json>::empty(),
    {
        JsonMap { entries: Vec::new() }
    }

    /// The number of members.
    pub fn len(&self) -> (count: usize)
        ensures
            self@.dom().finite(),
            count == self@.len(),
    {
        proof {
            use_type_invariant(self);
            lemma_map_of_len(pairs_of(self.entries@));
        }
        self.entries.len()
    }

    /// The value under `key`, if the object has that key.
    pub fn get(&self, key: &String) -> (found: Option<&JsonValue>)
        ensures
            match found {
                Some(value) => self@.contains_key(key@) && value@ == self@[key@],
                None => !self@.contains_key(key@),
            },
    {
        proof {
            use_type_invariant(self);
        }
        match position_of(&self.entries, key) {
            Some(i) => {
                proof {
                    lemma_map_of_value(pairs_of(self.entries@), i as int);
                }
                Some(&self.entries[i].1)
            },
            None => {
                proof {
                    lemma_map_of_keys(pairs_of(self.entries@));
                }
                None
            },
        }
    }

    /// Puts `value` under `key`. A value that stood under that key before is
    /// dropped: a key never occurs twice.
    pub fn insert(&mut self, key: String, value: JsonValue)
        ensures
            final(self)@ == old(self)@.insert(key@, value@),
    {
        proof {
            use_type_invariant(&*self);
        }
        let mut entries: Vec<(String, JsonValue)> = Vec::new();
        std::mem::swap(&mut entries, &mut self.entries);
        let ghost before = pairs_of(entries@);
        match position_of(&entries, &key) {
            Some(i) => {
                proof {
                    assert(before[i as int].0 == key@);
                    lemma_map_of_update(before, i as int, value@);
                }
                entries.set(i, (key, value));
                assert(pairs_of(entries@) == before.update(i as int, (key@, value@)));
            },
            None => {
                entries.push((key, value));
                proof {
                    let after = pairs_of(entries@);
                    assert(after.drop_last() == before);
                    assert forall|i: int, j: int| 0 <= i < j < after.len() implies after[i].0
                        != after[j].0 by {
                        if j < before.len() {
                            assert(after[i] == before[i] && after[j] == before[j]);
                        } else {
                            assert(after[i].0 == old(self).entries[i].0@);
                        }
                    }
                }
            },
        }
        self.entries = entries;
    }

    /// Whether the two objects have the same keys with the same values.
    pub fn same(&self, other: &JsonMap) -> (equal: bool)
        ensures
            equal == (self@ == other@),
        decreases self,
    {
        proof {
            use_type_invariant(self);
            use_type_invariant(other);
            lemma_map_of_len(pairs_of(self.entries@));
            lemma_map_of_len(pairs_of(other.entries@));
        }
        if self.entries.len() != other.entries.len() {
            return false;
        }
        let ghost pairs = pairs_of(self.entries@);
        let mut i: usize = 0;
        while i < self.entries.len()
            invariant
                i <= self.entries.len(),
                pairs == pairs_of(self.entries@),
                distinct_keys(pairs),
                forall|j: int|
                    0 <= j < i ==> other@.contains_key((#[trigger] pairs[j]).0)
                        && other@[pairs[j].0] == pairs[j].1,
            decreases self.entries.len() - i,
        {
            proof {
                lemma_map_of_value(pairs, i as int);
            }
            match other.get(&self.entries[i].0) {
                None => {
                    return false;
                },
                Some(value) => {
                    if !self.entries[i].1.same(value) {
                        return false;
                    }
                },
            }
            i += 1;
        }
        proof {
            lemma_map_of_keys(pairs);
            assert(self@.dom().subset_of(other@.dom())) by {
                assert forall|k: Seq<char>| self@.dom().contains(k) implies other@.dom().contains(
                    k,
                ) by {
                    let j = choose|j: int| 0 <= j < pairs.len() && (#[trigger] pairs[j]).0 == k;
                    assert(other@.contains_key(pairs[j].0));
                }
            }
            vstd::set_lib::lemma_subset_equality(self@.dom(), other@.dom());
            assert forall|k: Seq<char>| self@.dom().contains(k) implies self@[k] == other@[k] by {
                let j = choose|j: int| 0 <= j < pairs.len() && (#[trigger] pairs[j]).0 == k;
                lemma_map_of_value(pairs, j);
            }
            assert(self@ =~= other@);
        }
        true
    }

    /// The members as a list, each key once, in no order that carries meaning.
    pub fn entries(&self) -> (list: &Vec<(String, JsonValue)>)
        ensures
            distinct_keys(pairs_of(list@)),
            map_of(pairs_of(list@)) == self@,
    {
        proof {
            use_type_invariant(self);
        }
        &self.entries
    }
}

impl JsonValue {
    /// Whether the two values are the same document: equal scalars, arrays
    /// equal element by element, objects with the same keys and values.
    pub fn same(&self, other: &JsonValue) -> (equal: bool)
        ensures
            equal == (self@ == other@),
        decreases self,
    {
        match self {
            JsonValue::JsonNull => match other {
                JsonValue::JsonNull => true,
                _ => false,
            },
            JsonValue::JsonBool(a) => match other {
                JsonValue::JsonBool(b) => *a == *b,
                _ => false,
            },
            JsonValue::JsonNumber(a) => match other {
                JsonValue::JsonNumber(b) => *a == *b,
                _ => false,
            },
            JsonValue::JsonString(a) => match other {
                JsonValue::JsonString(b) => *a == *b,
                _ => false,
            },
            JsonValue::JsonArray(a) => match other {
                JsonValue::JsonArray(b) => same_items(a, b),
                _ => false,
            },
            JsonValue::JsonObject(a) => match other {
                JsonValue::JsonObject(b) => a.same(b),
                _ => false,
            },
        }
    }
}

impl PartialEq for JsonValue {
    fn eq(&self, other: &JsonValue) -> (equal: bool) {
        self.same(other)
    }
}

impl PartialEqSpecImpl for JsonValue {
    open spec fn obeys_eq_spec() -> bool {
        true
    }

    open spec fn eq_spec(&self, other: &JsonValue) -> bool {
        self@ == other@
    }
}

impl PartialEq for JsonMap {
    fn eq(&self, other: &JsonMap) -> (equal: bool) {
        self.same(other)
    }
}

impl PartialEqSpecImpl for JsonMap {
    open spec fn obeys_eq_spec() -> bool {
        true
    }

    open spec fn eq_spec(&self, other: &JsonMap) -> bool {
        self@ == other@
    }
}

/// Whether the two lists hold the same documents in the same order.
fn same_items(a: &Vec<JsonValue>, b: &Vec<JsonValue>) -> (equal: bool)
    ensures
        equal == (items_of(a@) == items_of(b@)),
    decreases a,
{
    if a.len() != b.len() {
        assert(items_of(a@).len() != items_of(b@).len());
        return false;
    }
    let mut i: usize = 0;
    while i < a.len()
        invariant
            i <= a.len(),
            a.len() == b.len(),
            forall|j: int| 0 <= j < i ==> (#[trigger] a[j])@ == b[j]@,
        decreases a.len() - i,
    {
        if !a[i].same(&b[i]) {
            assert(items_of(a@)[i as int] != items_of(b@)[i as int]);
            return false;
        }
        i += 1;
    }
    assert(items_of(a@) =~= items_of(b@));
    true
}

/// The index of the entry that holds `key`, if one does.
fn position_of(entries: &Vec<(String, JsonValue)>, key: &String) -> (at: Option<usize>)
    ensures
        match at {
            Some(i) => i < entries.len() && entries[i as int].0@ == key@,
            None => forall|i: int| 0 <= i < entries.len() ==> (#[trigger] entries[i]).0@ != key@,
        },
{
    let mut i: usize = 0;
    while i < entries.len()
        invariant
            i <= entries.len(),
            forall|j: int| 0 <= j < i ==> (#[trigger] entries[j]).0@ != key@,
        decreases entries.len() - i,
    {
        if entries[i].0 == *key {
            return Some(i);
        }
        i += 1;
    }
    None
}

/// The keys of `map_of(pairs)` are the keys that occur in `pairs`, and they
/// are finitely many.
pub proof fn lemma_map_of_keys(pairs: Seq<(Seq<char>, Json)>)
    ensures
        map_of(pairs).dom().finite(),
        forall|k: Seq<char>|
            map_of(pairs).contains_key(k) <==> exists|i: int|
                0 <= i < pairs.len() && (#[trigger] pairs[i]).0 == k,
    decreases pairs.len(),
{
    if pairs.len() > 0 {
        let front = pairs.drop_last();
        lemma_map_of_keys(front);
        assert forall|k: Seq<char>| map_of(pairs).contains_key(k) implies exists|i: int|
            0 <= i < pairs.len() && (#[trigger] pairs[i]).0 == k by {
            if k == pairs.last().0 {
                assert(pairs[pairs.len() - 1].0 == k);
            } else {
                let i = choose|i: int| 0 <= i < front.len() && (#[trigger] front[i]).0 == k;
                assert(pairs[i].0 == k);
            }
        }
        assert forall|k: Seq<char>|
            (exists|i: int| 0 <= i < pairs.len() && (#[trigger] pairs[i]).0 == k) implies map_of(
            pairs,
        ).contains_key(k) by {
            let i = choose|i: int| 0 <= i < pairs.len() && (#[trigger] pairs[i]).0 == k;
            if i < pairs.len() - 1 {
                assert(front[i].0 == k);
            }
        }
    }
}

/// Where no key occurs twice, each pair's key is mapped to that pair's value.
pub proof fn lemma_map_of_value(pairs: Seq<(Seq<char>, Json)>, i: int)
    requires
        distinct_keys(pairs),
        0 <= i < pairs.len(),
    ensures
        map_of(pairs).contains_key(pairs[i].0),
        map_of(pairs)[pairs[i].0] == pairs[i].1,
    decreases pairs.len(),
{
    if i < pairs.len() - 1 {
        let front = pairs.drop_last();
        assert(front[i] == pairs[i]);
        lemma_map_of_value(front, i);
    }
}

/// Where no key occurs twice, the map has as many keys as there are pairs.
pub proof fn lemma_map_of_len(pairs: Seq<(Seq<char>, Json)>)
    requires
        distinct_keys(pairs),
    ensures
        map_of(pairs).dom().finite(),
        map_of(pairs).len() == pairs.len(),
    decreases pairs.len(),
{
    lemma_map_of_keys(pairs);
    if pairs.len() > 0 {
        let front = pairs.drop_last();
        lemma_map_of_len(front);
        lemma_map_of_keys(front);
        if map_of(front).contains_key(pairs.last().0) {
            let i = choose|i: int|
                0 <= i < front.len() && (#[trigger] front[i]).0 == pairs.last().0;
            assert(pairs[i].0 == pairs[pairs.len() - 1].0);
        }
    }
}

/// Where no key occurs twice, replacing the value of one pair is an insertion
/// under that pair's key.
pub proof fn lemma_map_of_update(pairs: Seq<(Seq<char>, Json)>, i: int, value: Json)
    requires
        distinct_keys(pairs),
        0 <= i < pairs.len(),
    ensures
        distinct_keys(pairs.update(i, (pairs[i].0, value))),
        map_of(pairs.update(i, (pairs[i].0, value))) == map_of(pairs).insert(pairs[i].0, value),
    decreases pairs.len(),
{
    let key = pairs[i].0;
    let changed = pairs.update(i, (key, value));
    let front = pairs.drop_last();
    if i == pairs.len() - 1 {
        assert(changed.drop_last() == front);
        assert(map_of(changed) == map_of(pairs).insert(key, value));
    } else {
        assert(front[i] == pairs[i]);
        lemma_map_of_update(front, i, value);
        assert(changed.drop_last() == front.update(i, (key, value)));
        assert(changed.last() == pairs.last());
        assert(pairs[pairs.len() - 1].0 != pairs[i].0);
        assert(map_of(changed) == map_of(pairs).insert(key, value));
    }
}

} // verus!
