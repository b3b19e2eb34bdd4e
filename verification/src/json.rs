//! JSON values as the library holds them: songs, playlists, rules and settings files are JSON
//! documents, read and written by the program around the library.
use vstd::prelude::*;
use crate::text::{compare_text, digit_char, parse_i64, parsed_i64, lemma_text_less_irreflexive, lemma_text_less_transitive, text_less, Order};

verus! {

// ---------------------------------------------------------------------------
// The mathematical model
// ---------------------------------------------------------------------------

/// What a JSON value means: objects are finite maps from keys to values.
pub enum Json {
    Null,
    Bool(bool),
    /// A number, by the text that JSON writes for it.
    Number(Seq<char>),
    Str(Seq<char>),
    Array(Seq<Json>),
    Object(Map<Seq<char>, Json>),
}

// ---------------------------------------------------------------------------
// Executable values
// ---------------------------------------------------------------------------

/// A JSON value.
pub enum JsonValue {
    Null,
    Bool(bool),
    /// A number, held as the text that JSON writes for it (`1`, `-3`, `2.5`, `1e20`).
    Number(String),
    Str(String),
    Array(Vec<JsonValue>),
    Object(JsonObject),
}

/// A JSON object: members kept in the order of their keys, each key once, as a
/// `serde_json::Map` keeps them.
pub struct JsonObject {
    entries: Vec<(String, JsonValue)>,
}

/// Keys in strictly increasing order (so each key occurs once).
pub open spec fn keys_sorted(e: Seq<(String, JsonValue)>) -> bool {
    forall|i: int, j: int| 0 <= i < j < e.len() ==> text_less(#[trigger] e[i].0@, #[trigger] e[j].0@)
}

/// The model of a value.
pub open spec fn json_model(v: JsonValue) -> Json
    decreases v, 0nat,
{
    match v {
        JsonValue::Null => Json::Null,
        JsonValue::Bool(b) => Json::Bool(b),
        JsonValue::Number(t) => Json::Number(t@),
        JsonValue::Str(s) => Json::Str(s@),
        JsonValue::Array(items) => Json::Array(models(items@, items@.len())),
        JsonValue::Object(o) => Json::Object(object_model(o)),
    }
}

/// The model of an object: the map that its members make.
pub closed spec fn object_model(o: JsonObject) -> Map<Seq<char>, Json>
    decreases o, 0nat,
{
    members_model(o.entries@, o.entries@.len())
}

/// The models of the first `n` values of `items`.
pub open spec fn models(items: Seq<JsonValue>, n: nat) -> Seq<Json>
    decreases items, n,
{
    if n == 0 || n > items.len() {
        Seq::empty()
    } else {
        models(items, (n - 1) as nat).push(json_model(items[n - 1]))
    }
}

/// The map that the first `n` members of `e` make.
pub open spec fn members_model(e: Seq<(String, JsonValue)>, n: nat) -> Map<Seq<char>, Json>
    decreases e, n,
{
    if n == 0 || n > e.len() {
        Map::empty()
    } else {
        members_model(e, (n - 1) as nat).insert(e[n - 1].0@, json_model(e[n - 1].1))
    }
}

/// The member of `e` (among the first `n`) whose key is `k`, the last one if several.
pub open spec fn find_member(e: Seq<(String, JsonValue)>, k: Seq<char>, n: int) -> Option<
    JsonValue,
>
    decreases n,
{
    if n <= 0 || n > e.len() {
        None
    } else if e[n - 1].0@ == k {
        Some(e[n - 1].1)
    } else {
        find_member(e, k, n - 1)
    }
}

impl View for JsonValue {
    type V = Json;

    open spec fn view(&self) -> Json {
        json_model(*self)
    }
}

impl View for JsonObject {
    type V = Map<Seq<char>, Json>;

    open spec fn view(&self) -> Map<Seq<char>, Json> {
        object_model(*self)
    }
}

impl JsonObject {
    #[verifier::type_invariant]
    spec fn well_ordered(self) -> bool {
        keys_sorted(self.entries@)
    }

    /// The members, in key order.
    pub closed spec fn members(self) -> Seq<(String, JsonValue)> {
        self.entries@
    }

    /// The executable value of the member with key `k`.
    pub open spec fn member(self, k: Seq<char>) -> Option<JsonValue> {
        find_member(self.members(), k, self.members().len() as int)
    }
}

impl JsonValue {
    /// The model of an object value is the object's model.
    pub proof fn lemma_object_view(o: JsonObject)
        ensures
            JsonValue::Object(o)@ == Json::Object(o@),
    {
    }

    /// The model of an array value holds the models of its items.
    pub proof fn lemma_array_view(items: Vec<JsonValue>)
        ensures
            JsonValue::Array(items)@ matches Json::Array(s) && s.len() == items@.len() && forall|
                i: int,
            |
                0 <= i < items@.len() ==> s[i] == (#[trigger] items@[i])@,
    {
        lemma_models(items@, items@.len());
    }
}

// ---------------------------------------------------------------------------
// Facts about the models
// ---------------------------------------------------------------------------

/// The models of a sequence of values, item by item.
pub proof fn lemma_models(items: Seq<JsonValue>, n: nat)
    requires
        n <= items.len(),
    ensures
        models(items, n).len() == n,
        forall|i: int| 0 <= i < n ==> #[trigger] models(items, n)[i] == items[i]@,
    decreases n,
{
    if n > 0 {
        lemma_models(items, (n - 1) as nat);
    }
}

/// Which keys the first `n` members give the map, and which values.
pub proof fn lemma_members_model(e: Seq<(String, JsonValue)>, n: nat)
    requires
        keys_sorted(e),
        n <= e.len(),
    ensures
        forall|k: Seq<char>|
            #![trigger members_model(e, n).contains_key(k)]
            members_model(e, n).contains_key(k) <==> exists|i: int| 0 <= i < n && e[i].0@ == k,
        forall|i: int|
            0 <= i < n ==> #[trigger] members_model(e, n)[e[i].0@] == json_model(e[i].1),
        forall|k: Seq<char>|
            #![trigger find_member(e, k, n as int)]
            find_member(e, k, n as int) matches Some(v) ==> members_model(e, n).contains_key(k)
                && members_model(e, n)[k] == json_model(v),
        forall|k: Seq<char>|
            #![trigger find_member(e, k, n as int)]
            find_member(e, k, n as int) is None ==> !members_model(e, n).contains_key(k),
        forall|i: int|
            0 <= i < n ==> #[trigger] find_member(e, e[i].0@, n as int) == Some(e[i].1),
        members_model(e, n).dom().finite(),
        members_model(e, n).dom().len() == n,
    decreases n,
{
    if n > 0 {
        let m = (n - 1) as nat;
        lemma_members_model(e, m);
        let last = e[m as int];
        assert forall|i: int| 0 <= i < m implies e[i].0@ != last.0@ by {
            lemma_text_less_irreflexive(e[i].0@);
        }
        assert(!members_model(e, m).contains_key(last.0@));
        assert forall|k: Seq<char>|
            #![trigger members_model(e, n).contains_key(k)]
            members_model(e, n).contains_key(k) <==> exists|i: int| 0 <= i < n && e[i].0@ == k by {
            if members_model(e, n).contains_key(k) && k != last.0@ {
                assert(members_model(e, m).contains_key(k));
            }
            if exists|i: int| 0 <= i < n && e[i].0@ == k {
                let i = choose|i: int| 0 <= i < n && e[i].0@ == k;
                if i < m {
                    assert(members_model(e, m).contains_key(k));
                }
            }
        }
        assert forall|i: int|
            0 <= i < n implies #[trigger] find_member(e, e[i].0@, n as int) == Some(e[i].1) by {
            if i < m {
                assert(e[i].0@ != last.0@);
                assert(find_member(e, e[i].0@, m as int) == Some(e[i].1));
            }
        }
        assert forall|k: Seq<char>|
            #![trigger find_member(e, k, n as int)]
            find_member(e, k, n as int) matches Some(v) ==> members_model(e, n).contains_key(k)
                && members_model(e, n)[k] == json_model(v) by {
            if k != last.0@ {
                assert(find_member(e, k, n as int) == find_member(e, k, m as int));
            }
        }
        assert forall|k: Seq<char>|
            #![trigger find_member(e, k, n as int)]
            find_member(e, k, n as int) is None implies !members_model(e, n).contains_key(k) by {
            if k != last.0@ {
                assert(find_member(e, k, n as int) == find_member(e, k, m as int));
            }
        }
        assert(members_model(e, n).dom() == members_model(e, m).dom().insert(last.0@));
    } else {
        assert(members_model(e, n).dom() =~= Set::<Seq<char>>::empty());
    }
}

/// Keys of a sorted sequence are distinct.
pub proof fn lemma_sorted_distinct(e: Seq<(String, JsonValue)>, i: int, j: int)
    requires
        keys_sorted(e),
        0 <= i < e.len(),
        0 <= j < e.len(),
        i != j,
    ensures
        e[i].0@ != e[j].0@,
{
    if i < j {
        lemma_text_less_irreflexive(e[i].0@);
    } else {
        lemma_text_less_irreflexive(e[j].0@);
    }
}

// ---------------------------------------------------------------------------
// Objects
// ---------------------------------------------------------------------------

/// The models of a list of values.
pub open spec fn jviews(s: Seq<JsonValue>) -> Seq<Json> {
    s.map_values(|v: JsonValue| v@)
}

/// The integer that a value holds (`Value::as_i64`): a number whose text is an integer in
/// the `i64` range.
pub open spec fn json_i64(v: Json) -> Option<i64> {
    match v {
        Json::Number(t) => parsed_i64(t),
        _ => None,
    }
}

/// The text held under key `k` of an object, when it is a string.
pub open spec fn str_field(m: Map<Seq<char>, Json>, k: Seq<char>) -> Option<Seq<char>> {
    if m.contains_key(k) {
        match m[k] {
            Json::Str(s) => Some(s),
            _ => None,
        }
    } else {
        None
    }
}

/// The text held under key `k` of an object, or the empty text when there is no string
/// there (`get(k).and_then(as_str).unwrap_or("")`).
pub open spec fn text_field(m: Map<Seq<char>, Json>, k: Seq<char>) -> Seq<char> {
    match str_field(m, k) {
        Some(s) => s,
        None => Seq::empty(),
    }
}

impl JsonObject {
    /// An object without members.
    pub fn new() -> (r: JsonObject)
        ensures
            r@ == Map::<Seq<char>, Json>::empty(),
            r.members().len() == 0,
    {
        let r = JsonObject { entries: Vec::new() };
        assert(r@ =~= Map::<Seq<char>, Json>::empty());
        r
    }

    /// The number of members.
    pub fn len(&self) -> (r: usize)
        ensures
            r == self@.dom().len(),
            r == self.members().len(),
    {
        proof {
            use_type_invariant(self);
            lemma_members_model(self.entries@, self.entries@.len());
        }
        self.entries.len()
    }

    /// The members, in key order.
    pub fn entries(&self) -> (r: &Vec<(String, JsonValue)>)
        ensures
            r@ == self.members(),
            keys_sorted(r@),
            self@ == members_model(r@, r@.len()),
    {
        proof {
            use_type_invariant(self);
        }
        &self.entries
    }

    /// The position of key `k` among the members, or where it would be inserted.
    fn position(&self, k: &str) -> (r: (usize, bool))
        ensures
            r.0 <= self.members().len(),
            r.1 ==> r.0 < self.members().len() && self.members()[r.0 as int].0@ == k@,
            forall|i: int| 0 <= i < r.0 ==> text_less(#[trigger] self.members()[i].0@, k@),
            !r.1 ==> forall|i: int|
                r.0 <= i < self.members().len() ==> text_less(k@, #[trigger] self.members()[i].0@),
    {
        proof {
            use_type_invariant(self);
        }
        let mut p: usize = 0;
        while p < self.entries.len()
            invariant
                p <= self.entries@.len(),
                keys_sorted(self.entries@),
                forall|i: int| 0 <= i < p ==> text_less(#[trigger] self.entries@[i].0@, k@),
            decreases self.entries@.len() - p,
        {
            match compare_text(self.entries[p].0.as_str(), k) {
                Order::Less => {
                    p = p + 1;
                },
                Order::Equal => {
                    return (p, true);
                },
                Order::Greater => {
                    proof {
                        assert forall|i: int|
                            p <= i < self.entries@.len() implies text_less(
                            k@,
                            #[trigger] self.entries@[i].0@,
                        ) by {
                            if i > p {
                                lemma_text_less_transitive(k@, self.entries@[p as int].0@, self.entries@[i].0@);
                            }
                        }
                    }
                    return (p, false);
                },
            }
        }
        (p, false)
    }

    /// The value under key `k` (`Map::get`).
    pub fn get(&self, k: &str) -> (r: Option<&JsonValue>)
        ensures
            r is Some <==> self@.contains_key(k@),
            r matches Some(v) ==> self@[k@] == v@ && self.member(k@) == Some(*v),
            r is None ==> self.member(k@) is None,
    {
        proof {
            use_type_invariant(self);
            lemma_members_model(self.entries@, self.entries@.len());
        }
        let (p, found) = self.position(k);
        if found {
            Some(&self.entries[p].1)
        } else {
            proof {
                assert forall|i: int| 0 <= i < self.entries@.len() implies self.entries@[i].0@
                    != k@ by {
                    lemma_text_less_irreflexive(k@);
                }
                let n = self.entries@.len() as int;
                if self.member(k@) is Some {
                    let v = self.member(k@).unwrap();
                    assert(self@.contains_key(k@));
                }
            }
            None
        }
    }

    /// Whether the object has a member with key `k`.
    pub fn contains_key(&self, k: &str) -> (r: bool)
        ensures
            r == self@.contains_key(k@),
    {
        self.get(k).is_some()
    }

    /// The string under key `k`, when the value there is a string
    /// (`get(k).and_then(|v| v.as_str())`).
    pub fn get_str(&self, k: &str) -> (r: Option<&String>)
        ensures
            r matches Some(s) ==> str_field(self@, k@) == Some(s@),
            r is None ==> str_field(self@, k@) is None,
    {
        match self.get(k) {
            Some(JsonValue::Str(s)) => Some(s),
            _ => None,
        }
    }

    /// The string under key `k`, or the empty string when there is none
    /// (`get(k).and_then(|v| v.as_str()).unwrap_or("")`).
    pub fn text_or_empty(&self, k: &str) -> (r: String)
        ensures
            r@ == text_field(self@, k@),
    {
        match self.get_str(k) {
            Some(s) => s.clone(),
            None => String::new(),
        }
    }

    /// Sets key `k` to `v`, replacing any value it had (`Map::insert`).
    pub fn insert(&mut self, k: String, v: JsonValue)
        ensures
            final(self)@ == old(self)@.insert(k@, v@),
    {
        proof {
            use_type_invariant(&*self);
            lemma_members_model(self.entries@, self.entries@.len());
        }
        let (p, found) = self.position(k.as_str());
        let mut e: Vec<(String, JsonValue)> = Vec::new();
        std::mem::swap(&mut e, &mut self.entries);
        let ghost old_e = e@;
        let ghost kv = k@;
        let ghost vm = v@;
        if found {
            e.remove(p);
            e.insert(p, (k, v));
            proof {
                assert(e@ =~= old_e.update(p as int, e@[p as int]));
                assert(keys_sorted(e@)) by {
                    assert forall|i: int, j: int| 0 <= i < j < e@.len() implies text_less(
                        #[trigger] e@[i].0@,
                        #[trigger] e@[j].0@,
                    ) by {
                        if i != p && j != p {
                            assert(e@[i] == old_e[i] && e@[j] == old_e[j]);
                        } else if i == p {
                            assert(e@[j] == old_e[j]);
                            assert(text_less(old_e[i].0@, old_e[j].0@));
                        } else {
                            assert(e@[i] == old_e[i]);
                            assert(text_less(old_e[i].0@, old_e[j].0@));
                        }
                    }
                }
            }
        } else {
            e.insert(p, (k, v));
            proof {
                assert(keys_sorted(e@)) by {
                    assert forall|i: int, j: int| 0 <= i < j < e@.len() implies text_less(
                        #[trigger] e@[i].0@,
                        #[trigger] e@[j].0@,
                    ) by {
                        if j < p {
                            assert(e@[i] == old_e[i] && e@[j] == old_e[j]);
                        } else if j == p {
                            assert(e@[i] == old_e[i]);
                        } else if i < p {
                            assert(e@[i] == old_e[i] && e@[j] == old_e[j - 1]);
                            lemma_text_less_transitive(old_e[i].0@, kv, old_e[j - 1].0@);
                        } else if i == p {
                            assert(e@[j] == old_e[j - 1]);
                        } else {
                            assert(e@[i] == old_e[i - 1] && e@[j] == old_e[j - 1]);
                        }
                    }
                }
            }
        }
        proof {
            lemma_members_model(e@, e@.len());
            lemma_members_model(old_e, old_e.len());
            let nm = members_model(e@, e@.len());
            let om = members_model(old_e, old_e.len());
            assert(e@[p as int].0@ == kv);
            assert(nm[kv] == vm);
            assert forall|key: Seq<char>| #[trigger] nm.contains_key(key) == om.insert(
                kv,
                vm,
            ).contains_key(key) by {
                if nm.contains_key(key) && key != kv {
                    let i = choose|i: int| 0 <= i < e@.len() && e@[i].0@ == key;
                    if found {
                        assert(i != p);
                        assert(old_e[i] == e@[i]);
                    } else if i < p {
                        assert(old_e[i] == e@[i]);
                    } else {
                        assert(i != p);
                        assert(old_e[i - 1] == e@[i]);
                    }
                }
                if om.contains_key(key) && key != kv {
                    let i = choose|i: int| 0 <= i < old_e.len() && old_e[i].0@ == key;
                    if found || i < p {
                        assert(e@[i] == old_e[i]);
                    } else {
                        assert(e@[i + 1] == old_e[i]);
                    }
                }
            }
            assert forall|key: Seq<char>| #[trigger] nm.contains_key(key) implies nm[key] == om.insert(
                kv,
                vm,
            )[key] by {
                if key != kv {
                    let i = choose|i: int| 0 <= i < e@.len() && e@[i].0@ == key;
                    if found {
                        assert(i != p);
                        assert(old_e[i] == e@[i]);
                    } else if i < p {
                        assert(old_e[i] == e@[i]);
                    } else {
                        assert(i != p);
                        assert(old_e[i - 1] == e@[i]);
                    }
                }
            }
            assert(nm =~= om.insert(kv, vm));
        }
        self.entries = e;
    }

    /// Removes key `k`, giving back the value it had (`Map::remove`).
    pub fn remove(&mut self, k: &str) -> (r: Option<JsonValue>)
        ensures
            final(self)@ == old(self)@.remove(k@),
            r is Some <==> old(self)@.contains_key(k@),
            r matches Some(v) ==> old(self)@[k@] == v@,
    {
        proof {
            use_type_invariant(&*self);
            lemma_members_model(self.entries@, self.entries@.len());
        }
        let (p, found) = self.position(k);
        if !found {
            proof {
                assert forall|i: int| 0 <= i < self.entries@.len() implies self.entries@[i].0@
                    != k@ by {
                    lemma_text_less_irreflexive(k@);
                }
                assert(self@.remove(k@) =~= self@);
            }
            return None;
        }
        let mut e: Vec<(String, JsonValue)> = Vec::new();
        std::mem::swap(&mut e, &mut self.entries);
        let ghost old_e = e@;
        let (_, v) = e.remove(p);
        proof {
            assert(keys_sorted(e@)) by {
                assert forall|i: int, j: int| 0 <= i < j < e@.len() implies text_less(
                    #[trigger] e@[i].0@,
                    #[trigger] e@[j].0@,
                ) by {
                    if j < p {
                        assert(e@[i] == old_e[i] && e@[j] == old_e[j]);
                    } else if i < p {
                        assert(e@[i] == old_e[i] && e@[j] == old_e[j + 1]);
                    } else {
                        assert(e@[i] == old_e[i + 1] && e@[j] == old_e[j + 1]);
                    }
                }
            }
            lemma_members_model(e@, e@.len());
            lemma_members_model(old_e, old_e.len());
            let nm = members_model(e@, e@.len());
            let om = members_model(old_e, old_e.len());
            assert forall|i: int| 0 <= i < e@.len() implies (#[trigger] e@[i]).0@ != k@ by {
                if i < p {
                    assert(e@[i] == old_e[i]);
                    lemma_sorted_distinct(old_e, i, p as int);
                } else {
                    assert(e@[i] == old_e[i + 1]);
                    lemma_sorted_distinct(old_e, i + 1, p as int);
                }
            }
            assert forall|key: Seq<char>| #[trigger] nm.contains_key(key) == om.remove(
                k@,
            ).contains_key(key) by {
                if nm.contains_key(key) {
                    let i = choose|i: int| 0 <= i < e@.len() && e@[i].0@ == key;
                    if i < p {
                        assert(old_e[i] == e@[i]);
                    } else {
                        assert(old_e[i + 1] == e@[i]);
                    }
                }
                if om.contains_key(key) && key != k@ {
                    let i = choose|i: int| 0 <= i < old_e.len() && old_e[i].0@ == key;
                    if i < p {
                        assert(e@[i] == old_e[i]);
                    } else {
                        assert(i != p);
                        assert(e@[i - 1] == old_e[i]);
                    }
                }
            }
            assert forall|key: Seq<char>| #[trigger] nm.contains_key(key) implies nm[key] == om.remove(
                k@,
            )[key] by {
                let i = choose|i: int| 0 <= i < e@.len() && e@[i].0@ == key;
                if i < p {
                    assert(old_e[i] == e@[i]);
                } else {
                    assert(old_e[i + 1] == e@[i]);
                }
            }
            assert(nm =~= om.remove(k@));
        }
        self.entries = e;
        Some(v)
    }
}

// ---------------------------------------------------------------------------
// Copies
// ---------------------------------------------------------------------------

proof fn lemma_models_agree(a: Seq<JsonValue>, b: Seq<JsonValue>, n: nat)
    requires
        n <= a.len(),
        n <= b.len(),
        forall|i: int| 0 <= i < n ==> (#[trigger] a[i])@ == b[i]@,
    ensures
        models(a, n) == models(b, n),
    decreases n,
{
    if n > 0 {
        lemma_models_agree(a, b, (n - 1) as nat);
    }
}

proof fn lemma_members_agree(a: Seq<(String, JsonValue)>, b: Seq<(String, JsonValue)>, n: nat)
    requires
        n <= a.len(),
        n <= b.len(),
        forall|i: int| 0 <= i < n ==> (#[trigger] a[i]).0@ == b[i].0@ && a[i].1@ == b[i].1@,
    ensures
        members_model(a, n) == members_model(b, n),
    decreases n,
{
    if n > 0 {
        lemma_members_agree(a, b, (n - 1) as nat);
    }
}

impl JsonValue {
    /// A copy of the value (`Clone::clone`): the same model.
    pub fn copy(&self) -> (r: JsonValue)
        ensures
            r@ == self@,
        decreases self,
    {
        match self {
            JsonValue::Null => JsonValue::Null,
            JsonValue::Bool(b) => JsonValue::Bool(*b),
            JsonValue::Number(t) => JsonValue::Number(t.clone()),
            JsonValue::Str(t) => JsonValue::Str(t.clone()),
            JsonValue::Array(items) => {
                let mut out: Vec<JsonValue> = Vec::new();
                let mut i: usize = 0;
                while i < items.len()
                    invariant
                        *self == JsonValue::Array(*items),
                        i <= items@.len(),
                        out@.len() == i,
                        forall|j: int| 0 <= j < i ==> (#[trigger] out@[j])@ == items@[j]@,
                    decreases items@.len() - i,
                {
proof {
                        assert(decreases_to!(*items => items@));
                        assert(decreases_to!(items@ => items@[i as int]));
                        assert(decreases_to!(*self => (*self)->Array_0));
                        assert(decreases_to!(*self => items@[i as int]));
                    }
                    let c = items[i].copy();
                    out.push(c);
                    i = i + 1;
                }
                proof {
                    lemma_models_agree(out@, items@, items@.len());
                }
                JsonValue::Array(out)
            },
            JsonValue::Object(o) => JsonValue::Object(o.copy()),
        }
    }

    /// The array of the items.
    pub fn array(items: Vec<JsonValue>) -> (r: JsonValue)
        ensures
            r@ == Json::Array(jviews(items@)),
    {
        let ghost s = items@;
        let r = JsonValue::Array(items);
        proof {
            JsonValue::lemma_array_view(r->Array_0);
            if let Json::Array(m) = r@ {
                assert(m =~= jviews(s));
            }
        }
        r
    }

    /// The integer when the value is a number written as an integer in the `i64` range
    /// (`Value::as_i64`).
    pub fn as_i64(&self) -> (r: Option<i64>)
        ensures
            r == json_i64(self@),
    {
        match self {
            JsonValue::Number(t) => parse_i64(t.as_str()),
            _ => None,
        }
    }

    /// The text when the value is a string (`Value::as_str`).
    pub fn as_str(&self) -> (r: Option<&String>)
        ensures
            r matches Some(s) ==> self@ == Json::Str(s@),
            r is None ==> !(self@ is Str),
    {
        match self {
            JsonValue::Str(s) => Some(s),
            _ => None,
        }
    }
}

impl JsonObject {
    /// A copy of the object (`Clone::clone`): the same model, the same members.
    pub fn copy(&self) -> (r: JsonObject)
        ensures
            r@ == self@,
        decreases self,
    {
        proof {
            use_type_invariant(self);
        }
        let mut out: Vec<(String, JsonValue)> = Vec::new();
        let mut i: usize = 0;
        while i < self.entries.len()
            invariant
                i <= self.entries@.len(),
                keys_sorted(self.entries@),
                out@.len() == i,
                forall|j: int|
                    0 <= j < i ==> (#[trigger] out@[j]).0 == self.entries@[j].0
                        && out@[j].1@ == self.entries@[j].1@,
            decreases self.entries@.len() - i,
        {
            let k = self.entries[i].0.clone();
            let v = self.entries[i].1.copy();
            out.push((k, v));
            i = i + 1;
        }
        proof {
            assert forall|a: int, b: int| 0 <= a < b < out@.len() implies text_less(
                #[trigger] out@[a].0@,
                #[trigger] out@[b].0@,
            ) by {
                assert(text_less(self.entries@[a].0@, self.entries@[b].0@));
            }
            lemma_members_agree(out@, self.entries@, out@.len());
        }
        JsonObject { entries: out }
    }
}

// ---------------------------------------------------------------------------
// JSON text
// ---------------------------------------------------------------------------

/// The lower-case hexadecimal digit for `d < 16`.
pub open spec fn hex_char(d: int) -> char {
    if d < 10 {
        digit_char(d)
    } else if d == 10 {
        'a'
    } else if d == 11 {
        'b'
    } else if d == 12 {
        'c'
    } else if d == 13 {
        'd'
    } else if d == 14 {
        'e'
    } else {
        'f'
    }
}

/// How JSON writes one character inside a string: quote, backslash and control characters
/// escaped, everything else as it is.
pub open spec fn escaped_char(c: char) -> Seq<char> {
    let u = c as u32;
    if c == '"' {
        seq!['\\', '"']
    } else if c == '\\' {
        seq!['\\', '\\']
    } else if u == 0x08 {
        seq!['\\', 'b']
    } else if u == 0x09 {
        seq!['\\', 't']
    } else if u == 0x0a {
        seq!['\\', 'n']
    } else if u == 0x0c {
        seq!['\\', 'f']
    } else if u == 0x0d {
        seq!['\\', 'r']
    } else if u < 0x20 {
        seq!['\\', 'u', '0', '0', hex_char((u / 16) as int), hex_char((u % 16) as int)]
    } else {
        seq![c]
    }
}

/// The characters of `s` escaped.
pub open spec fn escaped(s: Seq<char>) -> Seq<char>
    decreases s.len(),
{
    if s.len() == 0 {
        Seq::empty()
    } else {
        escaped(s.drop_last()) + escaped_char(s.last())
    }
}

/// A string literal in JSON.
pub open spec fn quoted(s: Seq<char>) -> Seq<char> {
    seq!['"'] + escaped(s) + seq!['"']
}

/// The compact JSON text of a value, as `serde_json::Value`'s `Display` writes it: no spaces,
/// object members in key order.
pub open spec fn json_text(v: JsonValue) -> Seq<char>
    decreases v, 0nat,
{
    match v {
        JsonValue::Null => seq!['n', 'u', 'l', 'l'],
        JsonValue::Bool(b) => if b {
            seq!['t', 'r', 'u', 'e']
        } else {
            seq!['f', 'a', 'l', 's', 'e']
        },
        JsonValue::Number(t) => t@,
        JsonValue::Str(s) => quoted(s@),
        JsonValue::Array(items) => seq!['['] + items_text(items@, items@.len()) + seq![']'],
        JsonValue::Object(o) => seq!['{'] + object_text(o) + seq!['}'],
    }
}

/// The first `n` items, written and separated by commas.
pub open spec fn items_text(items: Seq<JsonValue>, n: nat) -> Seq<char>
    decreases items, n,
{
    if n == 0 || n > items.len() {
        Seq::empty()
    } else if n == 1 {
        json_text(items[0])
    } else {
        items_text(items, (n - 1) as nat) + seq![','] + json_text(items[n - 1])
    }
}

/// The members of an object, written `"key":value` and separated by commas.
pub closed spec fn object_text(o: JsonObject) -> Seq<char>
    decreases o, 0nat,
{
    members_text(o.entries@, o.entries@.len())
}

/// The first `n` members, written `"key":value` and separated by commas.
pub open spec fn members_text(e: Seq<(String, JsonValue)>, n: nat) -> Seq<char>
    decreases e, n,
{
    if n == 0 || n > e.len() {
        Seq::empty()
    } else if n == 1 {
        quoted(e[0].0@) + seq![':'] + json_text(e[0].1)
    } else {
        members_text(e, (n - 1) as nat) + seq![','] + quoted(e[n - 1].0@) + seq![':'] + json_text(
            e[n - 1].1,
        )
    }
}

fn hex_digit(d: u32) -> (c: char)
    requires
        d < 16,
    ensures
        c == hex_char(d as int),
{
    if d < 10 {
        if d == 0 {
            '0'
        } else if d == 1 {
            '1'
        } else if d == 2 {
            '2'
        } else if d == 3 {
            '3'
        } else if d == 4 {
            '4'
        } else if d == 5 {
            '5'
        } else if d == 6 {
            '6'
        } else if d == 7 {
            '7'
        } else if d == 8 {
            '8'
        } else {
            '9'
        }
    } else if d == 10 {
        'a'
    } else if d == 11 {
        'b'
    } else if d == 12 {
        'c'
    } else if d == 13 {
        'd'
    } else if d == 14 {
        'e'
    } else {
        'f'
    }
}

fn push_seq(out: &mut Vec<char>, a: char, b: char)
    ensures
        final(out)@ == old(out)@ + seq![a, b],
{
    out.push(a);
    out.push(b);
    assert(out@ =~= old(out)@ + seq![a, b]);
}

fn write_quoted(s: &String, out: &mut Vec<char>)
    ensures
        final(out)@ == old(out)@ + quoted(s@),
{
    let v = crate::text::chars_of(s.as_str());
    let ghost start = out@;
    out.push('"');
    let mut i: usize = 0;
    while i < v.len()
        invariant
            i <= v.len(),
            out@ == start + seq!['"'] + escaped(v@.take(i as int)),
        decreases v.len() - i,
    {
        let c = v[i];
        let u = c as u32;
        let ghost before = out@;
        if c == '"' {
            push_seq(out, '\\', '"');
        } else if c == '\\' {
            push_seq(out, '\\', '\\');
        } else if u == 0x08 {
            push_seq(out, '\\', 'b');
        } else if u == 0x09 {
            push_seq(out, '\\', 't');
        } else if u == 0x0a {
            push_seq(out, '\\', 'n');
        } else if u == 0x0c {
            push_seq(out, '\\', 'f');
        } else if u == 0x0d {
            push_seq(out, '\\', 'r');
        } else if u < 0x20 {
            let h = hex_digit(u / 16);
            let l = hex_digit(u % 16);
            out.push('\\');
            out.push('u');
            out.push('0');
            out.push('0');
            out.push(h);
            out.push(l);
            assert(out@ =~= before + seq!['\\', 'u', '0', '0', h, l]);
        } else {
            out.push(c);
        }
        proof {
            assert(v@.take(i + 1).drop_last() =~= v@.take(i as int));
            assert(v@.take(i + 1).last() == c);
            assert(out@ =~= before + escaped_char(c));
        }
        i = i + 1;
    }
    out.push('"');
    proof {
        assert(v@.take(v.len() as int) =~= s@);
        assert(out@ =~= start + quoted(s@));
    }
}

fn push_text(out: &mut Vec<char>, s: &String)
    ensures
        final(out)@ == old(out)@ + s@,
{
    let v = crate::text::chars_of(s.as_str());
    crate::text::append_chars(out, &v);
}

impl JsonValue {
    fn write_text(&self, out: &mut Vec<char>)
        ensures
            final(out)@ == old(out)@ + json_text(*self),
        decreases self,
    {
        let ghost start = out@;
        match self {
            JsonValue::Null => {
                out.push('n');
                out.push('u');
                out.push('l');
                out.push('l');
                assert(out@ =~= start + seq!['n', 'u', 'l', 'l']);
            },
            JsonValue::Bool(b) => {
                if *b {
                    out.push('t');
                    out.push('r');
                    out.push('u');
                    out.push('e');
                    assert(out@ =~= start + seq!['t', 'r', 'u', 'e']);
                } else {
                    out.push('f');
                    out.push('a');
                    out.push('l');
                    out.push('s');
                    out.push('e');
                    assert(out@ =~= start + seq!['f', 'a', 'l', 's', 'e']);
                }
            },
            JsonValue::Number(t) => {
                push_text(out, t);
            },
            JsonValue::Str(t) => {
                write_quoted(t, out);
            },
            JsonValue::Array(items) => {
                out.push('[');
                let mut i: usize = 0;
                while i < items.len()
                    invariant
                        *self == JsonValue::Array(*items),
                        i <= items@.len(),
                        out@ == start + seq!['['] + items_text(items@, i as nat),
                    decreases items@.len() - i,
                {
                    let ghost before = out@;
                    if i > 0 {
                        out.push(',');
                    }
proof {
                        assert(decreases_to!(*items => items@));
                        assert(decreases_to!(items@ => items@[i as int]));
                        assert(decreases_to!(*self => (*self)->Array_0));
                        assert(decreases_to!(*self => items@[i as int]));
                    }
                    items[i].write_text(out);
                    proof {
                        if i == 0 {
                            assert(out@ =~= start + seq!['['] + items_text(items@, 1));
                        } else {
                            assert(out@ =~= start + seq!['['] + items_text(items@, (i + 1) as nat));
                        }
                    }
                    i = i + 1;
                }
                out.push(']');
                assert(out@ =~= start + json_text(*self));
            },
            JsonValue::Object(o) => {
                out.push('{');
                o.write_members(out);
                out.push('}');
                assert(out@ =~= start + json_text(*self));
            },
        }
    }

    /// The compact JSON text of the value (`serde_json::Value::to_string`).
    pub fn to_text(&self) -> (r: String)
        ensures
            r@ == json_text(*self),
    {
        let mut out: Vec<char> = Vec::new();
        self.write_text(&mut out);
        assert(out@ =~= json_text(*self));
        crate::text::text_of(&out)
    }
}

impl JsonObject {
    fn write_members(&self, out: &mut Vec<char>)
        ensures
            final(out)@ == old(out)@ + object_text(*self),
        decreases self,
    {
        let ghost start = out@;
        let mut i: usize = 0;
        while i < self.entries.len()
            invariant
                i <= self.entries@.len(),
                out@ == start + members_text(self.entries@, i as nat),
            decreases self.entries@.len() - i,
        {
            let ghost before = out@;
            if i > 0 {
                out.push(',');
            }
            write_quoted(&self.entries[i].0, out);
            out.push(':');
            self.entries[i].1.write_text(out);
            proof {
                if i == 0 {
                    assert(out@ =~= start + members_text(self.entries@, 1));
                } else {
                    assert(out@ =~= start + members_text(self.entries@, (i + 1) as nat));
                }
            }
            i = i + 1;
        }
    }
}

// ---------------------------------------------------------------------------
// Sizes, for recursion over nested values
// ---------------------------------------------------------------------------

proof fn lemma_find_member_smaller(o: JsonObject, k: Seq<char>, n: int)
    requires
        n <= o.entries@.len(),
    ensures
        find_member(o.entries@, k, n) matches Some(v) ==> decreases_to!(o => v),
    decreases n,
{
    if n > 0 {
        if o.entries@[n - 1].0@ == k {
            assert(decreases_to!(o => o.entries));
            assert(decreases_to!(o.entries => o.entries@));
            assert(decreases_to!(o.entries@ => o.entries@[n - 1]));
            assert(decreases_to!(o.entries@[n - 1] => o.entries@[n - 1].1));
        } else {
            lemma_find_member_smaller(o, k, n - 1);
        }
    }
}

/// A member's value is smaller than the object that holds it.
pub proof fn lemma_member_smaller(o: JsonObject, k: Seq<char>)
    ensures
        o.member(k) matches Some(v) ==> decreases_to!(o => v),
{
    lemma_find_member_smaller(o, k, o.entries@.len() as int);
}

} // verus!
