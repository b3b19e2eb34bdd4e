//! Smart-playlist rules: a rule is a JSON tree of groups (`"type": "group"`, matching `"all"`
//! or any of their `"items"`) and filters (`"type": "filter"`, comparing one tag of a song
//! with `"val"` by `"op"`).
use vstd::prelude::*;
use crate::json::{json_text, lemma_member_smaller, str_field, Json, JsonObject, JsonValue};
use crate::text::{
    contains, ends_with, has_infix, has_prefix, has_suffix, lowercase, same_text, starts_with,
    to_lowercase,
};

verus! {

/// The tags whose values a filter compares as numbers.
pub open spec fn is_numeric_tag(tag: Seq<char>) -> bool {
    tag == "track"@ || tag == "year"@ || tag == "disc"@ || tag == "bpm"@
}

/// The text of a song's tag that filters compare: a string value lower-cased, a number by
/// its JSON text, anything else (or nothing) as the empty text.
pub open spec fn song_value(song: Map<Seq<char>, Json>, tag: Seq<char>) -> Seq<char> {
    if song.contains_key(tag) {
        match song[tag] {
            Json::Str(s) => lowercase(s),
            Json::Number(t) => t,
            _ => Seq::empty(),
        }
    } else {
        Seq::empty()
    }
}

/// The text that a filter compares a non-numeric tag with: a string value lower-cased,
/// any other value by its compact JSON text.
pub open spec fn target_text(v: JsonValue) -> Seq<char> {
    match v {
        JsonValue::Str(s) => lowercase(s@),
        _ => json_text(v),
    }
}

/// What a text comparison `op` gives; an unknown operation gives `false`.
pub open spec fn text_test(op: Seq<char>, value: Seq<char>, target: Seq<char>) -> bool {
    if op == "contains"@ {
        has_infix(value, target)
    } else if op == "not_contains"@ {
        !has_infix(value, target)
    } else if op == "equals"@ {
        value == target
    } else if op == "not_equals"@ {
        value != target
    } else if op == "startswith"@ {
        has_prefix(value, target)
    } else if op == "endswith"@ {
        has_suffix(value, target)
    } else {
        false
    }
}

/// The string under key `k` of a rule object, or `default`.
pub open spec fn rule_text(o: JsonObject, k: Seq<char>, default: Seq<char>) -> Seq<char> {
    match o.member(k) {
        Some(JsonValue::Str(s)) => s@,
        _ => default,
    }
}

/// Whether a filter holds of a song. `numeric` decides the numeric tags: it is given the
/// operation, the song's value and the filter's `"val"`.
pub open spec fn filter_holds(
    song: Map<Seq<char>, Json>,
    o: JsonObject,
    numeric: spec_fn(Seq<char>, Seq<char>, JsonValue) -> bool,
) -> bool {
    let tag = rule_text(o, "tag"@, Seq::empty());
    let op = rule_text(o, "op"@, Seq::empty());
    let target = match o.member("val"@) {
        Some(v) => v,
        None => JsonValue::Null,
    };
    let value = song_value(song, tag);
    if is_numeric_tag(tag) {
        numeric(op, value, target)
    } else {
        text_test(op, value, target_text(target))
    }
}

/// Whether a rule holds of a song (with `numeric` deciding the numeric comparisons):
/// a group with items holds when all of them hold (`"match": "all"`, the default) or when
/// one of them does (any other `"match"`); a group without an `"items"` array, or with an
/// empty one, holds; a filter holds as `filter_holds` says; anything else does not hold.
pub open spec fn rule_holds(
    song: Map<Seq<char>, Json>,
    rule: JsonValue,
    numeric: spec_fn(Seq<char>, Seq<char>, JsonValue) -> bool,
) -> bool
    decreases rule, 0nat,
{
    match rule {
        JsonValue::Object(o) => {
            let kind = rule_text(o, "type"@, Seq::empty());
            if o.member("type"@) matches Some(JsonValue::Str(_)) && kind == "group"@ {
                let mode = rule_text(o, "match"@, "all"@);
                match o.member("items"@) {
                    Some(JsonValue::Array(items)) => {
                        proof {
                            lemma_member_smaller(o, "items"@);
                            assert(decreases_to!(JsonValue::Array(items) => items));
                            assert(decreases_to!(items => items@));
                        }
                        if items@.len() == 0 {
                            true
                        } else if mode == "all"@ {
                            all_hold(song, items@, items@.len(), numeric)
                        } else {
                            any_holds(song, items@, items@.len(), numeric)
                        }
                    },
                    _ => true,
                }
            } else if o.member("type"@) matches Some(JsonValue::Str(_)) && kind == "filter"@ {
                filter_holds(song, o, numeric)
            } else {
                false
            }
        },
        _ => false,
    }
}

/// A rule in which no filter names a numeric tag, so that no numeric comparison takes part in
/// deciding it.
pub open spec fn textual(rule: JsonValue) -> bool
    decreases rule, 0nat,
{
    match rule {
        JsonValue::Object(o) => {
            let kind = rule_text(o, "type"@, Seq::empty());
            if o.member("type"@) matches Some(JsonValue::Str(_)) && kind == "group"@ {
                match o.member("items"@) {
                    Some(JsonValue::Array(items)) => {
                        proof {
                            lemma_member_smaller(o, "items"@);
                            assert(decreases_to!(JsonValue::Array(items) => items));
                            assert(decreases_to!(items => items@));
                        }
                        all_textual(items@, items@.len())
                    },
                    _ => true,
                }
            } else if o.member("type"@) matches Some(JsonValue::Str(_)) && kind == "filter"@ {
                !is_numeric_tag(rule_text(o, "tag"@, Seq::empty()))
            } else {
                true
            }
        },
        _ => true,
    }
}

/// Whether the first `n` rules are all textual.
pub open spec fn all_textual(items: Seq<JsonValue>, n: nat) -> bool
    decreases items, n,
{
    if n == 0 || n > items.len() {
        true
    } else {
        all_textual(items, (n - 1) as nat) && textual(items[n - 1])
    }
}

proof fn lemma_all_textual_each(items: Seq<JsonValue>, n: nat)
    requires
        n <= items.len(),
        all_textual(items, n),
    ensures
        forall|i: int| 0 <= i < n ==> textual(#[trigger] items[i]),
    decreases n,
{
    if n > 0 {
        lemma_all_textual_each(items, (n - 1) as nat);
    }
}

/// Whether all of the first `n` rules hold.
pub open spec fn all_hold(
    song: Map<Seq<char>, Json>,
    items: Seq<JsonValue>,
    n: nat,
    numeric: spec_fn(Seq<char>, Seq<char>, JsonValue) -> bool,
) -> bool
    decreases items, n,
{
    if n == 0 || n > items.len() {
        true
    } else {
        all_hold(song, items, (n - 1) as nat, numeric) && rule_holds(song, items[n - 1], numeric)
    }
}

/// Whether one of the first `n` rules holds.
pub open spec fn any_holds(
    song: Map<Seq<char>, Json>,
    items: Seq<JsonValue>,
    n: nat,
    numeric: spec_fn(Seq<char>, Seq<char>, JsonValue) -> bool,
) -> bool
    decreases items, n,
{
    if n == 0 || n > items.len() {
        false
    } else {
        any_holds(song, items, (n - 1) as nat, numeric) || rule_holds(song, items[n - 1], numeric)
    }
}

/// A group matching `"all"` asks each of its rules: the first `n` rules all hold exactly when
/// each one of them holds.
pub proof fn lemma_all_hold_each(
    song: Map<Seq<char>, Json>,
    items: Seq<JsonValue>,
    n: nat,
    numeric: spec_fn(Seq<char>, Seq<char>, JsonValue) -> bool,
)
    requires
        n <= items.len(),
    ensures
        all_hold(song, items, n, numeric) <==> forall|i: int|
            0 <= i < n ==> rule_holds(song, #[trigger] items[i], numeric),
    decreases n,
{
    if n > 0 {
        lemma_all_hold_each(song, items, (n - 1) as nat, numeric);
    }
}

/// A group matching anything else asks for one of its rules: one of the first `n` rules holds
/// exactly when some one of them holds.
pub proof fn lemma_any_holds_some(
    song: Map<Seq<char>, Json>,
    items: Seq<JsonValue>,
    n: nat,
    numeric: spec_fn(Seq<char>, Seq<char>, JsonValue) -> bool,
)
    requires
        n <= items.len(),
    ensures
        any_holds(song, items, n, numeric) <==> exists|i: int|
            0 <= i < n && rule_holds(song, #[trigger] items[i], numeric),
    decreases n,
{
    if n > 0 {
        lemma_any_holds_some(song, items, (n - 1) as nat, numeric);
        if rule_holds(song, items[n - 1], numeric) {
            assert(0 <= n - 1 < n && rule_holds(song, items[n - 1], numeric));
        }
    }
}

proof fn lemma_all_hold_stays_false(
    song: Map<Seq<char>, Json>,
    items: Seq<JsonValue>,
    k: nat,
    n: nat,
    numeric: spec_fn(Seq<char>, Seq<char>, JsonValue) -> bool,
)
    requires
        k <= n <= items.len(),
        !all_hold(song, items, k, numeric),
    ensures
        !all_hold(song, items, n, numeric),
    decreases n,
{
    if n > k {
        lemma_all_hold_stays_false(song, items, k, (n - 1) as nat, numeric);
    }
}

proof fn lemma_any_holds_stays_true(
    song: Map<Seq<char>, Json>,
    items: Seq<JsonValue>,
    k: nat,
    n: nat,
    numeric: spec_fn(Seq<char>, Seq<char>, JsonValue) -> bool,
)
    requires
        k <= n <= items.len(),
        any_holds(song, items, k, numeric),
    ensures
        any_holds(song, items, n, numeric),
    decreases n,
{
    if n > k {
        lemma_any_holds_stays_true(song, items, k, (n - 1) as nat, numeric);
    }
}

/// `numeric` decides as `oracle` does, on every input.
pub open spec fn decides_as<F: Fn(&str, &str, &JsonValue) -> bool>(
    numeric: F,
    oracle: spec_fn(Seq<char>, Seq<char>, JsonValue) -> bool,
) -> bool {
    forall|op: &str, value: &str, target: &JsonValue, r: bool|
        #[trigger] call_ensures(numeric, (op, value, target), r) ==> r == oracle(
            op@,
            value@,
            *target,
        )
}

/// `numeric` can be called on any input.
pub open spec fn callable<F: Fn(&str, &str, &JsonValue) -> bool>(numeric: F) -> bool {
    forall|op: &str, value: &str, target: &JsonValue| #[trigger] call_requires(
        numeric,
        (op, value, target),
    )
}

/// The text of the song's tag that filters compare.
pub fn song_value_of(song: &JsonObject, tag: &str) -> (r: String)
    ensures
        r@ == song_value(song@, tag@),
{
    match song.get(tag) {
        Some(JsonValue::Str(s)) => to_lowercase(s.as_str()),
        Some(JsonValue::Number(t)) => t.clone(),
        _ => String::new(),
    }
}

fn rule_text_of(o: &JsonObject, k: &str, default: &str) -> (r: String)
    ensures
        r@ == rule_text(*o, k@, default@),
{
    match o.get(k) {
        Some(JsonValue::Str(s)) => s.clone(),
        _ => default.to_string(),
    }
}

fn is_numeric_tag_text(tag: &str) -> (r: bool)
    ensures
        r == is_numeric_tag(tag@),
{
    same_text(tag, "track") || same_text(tag, "year") || same_text(tag, "disc") || same_text(
        tag,
        "bpm",
    )
}

fn text_test_of(op: &str, value: &str, target: &str) -> (r: bool)
    ensures
        r == text_test(op@, value@, target@),
{
    if same_text(op, "contains") {
        contains(value, target)
    } else if same_text(op, "not_contains") {
        !contains(value, target)
    } else if same_text(op, "equals") {
        same_text(value, target)
    } else if same_text(op, "not_equals") {
        !same_text(value, target)
    } else if same_text(op, "startswith") {
        starts_with(value, target)
    } else if same_text(op, "endswith") {
        ends_with(value, target)
    } else {
        false
    }
}

fn filter_holds_of<F: Fn(&str, &str, &JsonValue) -> bool>(
    song: &JsonObject,
    o: &JsonObject,
    numeric: &F,
) -> (r: bool)
    requires
        callable(*numeric),
    ensures
        forall|oracle: spec_fn(Seq<char>, Seq<char>, JsonValue) -> bool|
            decides_as(*numeric, oracle) ==> r == filter_holds(song@, *o, oracle),
        !is_numeric_tag(rule_text(*o, "tag"@, Seq::empty())) ==> forall|
            oracle: spec_fn(Seq<char>, Seq<char>, JsonValue) -> bool,
        | r == filter_holds(song@, *o, oracle),
{
    proof {
        reveal_strlit("");
    }
    let tag = rule_text_of(o, "tag", "");
    let op = rule_text_of(o, "op", "");
    let null = JsonValue::Null;
    let target: &JsonValue = match o.get("val") {
        Some(v) => v,
        None => &null,
    };
    let value = song_value_of(song, tag.as_str());
    proof {
        let spec_target = match o.member("val"@) {
            Some(v) => v,
            None => JsonValue::Null,
        };
        assert(*target == spec_target);
        assert(tag@ == rule_text(*o, "tag"@, Seq::empty()));
        assert(op@ == rule_text(*o, "op"@, Seq::empty()));
        assert(value@ == song_value(song@, tag@));
    }
    if is_numeric_tag_text(tag.as_str()) {
        (*numeric)(op.as_str(), value.as_str(), target)
    } else {
        let t = match target {
            JsonValue::Str(s) => to_lowercase(s.as_str()),
            _ => target.to_text(),
        };
        text_test_of(op.as_str(), value.as_str(), t.as_str())
    }
}

/// How the song's number stands to a filter's number, as the floating-point comparison of the
/// two gives it: `Unordered` when one of them is not a number (NaN).
pub enum NumOrder {
    Less,
    Equal,
    Greater,
    Unordered,
}

/// What a numeric comparison `op` gives for the song value `value` and the filter's `"val"`
/// `target`, where `order(value, t, text)` is how the number of `value` stands to the number
/// read from `t` (with `text`, a string counts by the number it spells; without, only a JSON
/// number counts). `range` asks for an array of two ends and a number between them, ends
/// included; `equals`, `not_equals`, `greater` and `less` compare with `target`; any other
/// operation gives `false`.
pub open spec fn numeric_holds(
    op: Seq<char>,
    value: Seq<char>,
    target: JsonValue,
    order: spec_fn(Seq<char>, JsonValue, bool) -> NumOrder,
) -> bool {
    if op == "range"@ {
        match target {
            JsonValue::Array(items) => items@.len() == 2 && (order(value, items@[0], false) is Greater || order(
                value,
                items@[0],
                false,
            ) is Equal) && (order(value, items@[1], false) is Less || order(value, items@[1], false) is Equal),
            _ => false,
        }
    } else {
        let o = order(value, target, true);
        if op == "equals"@ {
            o is Equal
        } else if op == "not_equals"@ {
            !(o is Equal)
        } else if op == "greater"@ {
            o is Greater
        } else if op == "less"@ {
            o is Less
        } else {
            false
        }
    }
}

/// `order` gives what `oracle` says, on every input.
pub open spec fn orders_as<C: Fn(&str, &JsonValue, bool) -> NumOrder>(
    order: C,
    oracle: spec_fn(Seq<char>, JsonValue, bool) -> NumOrder,
) -> bool {
    forall|value: &str, target: &JsonValue, text: bool, r: NumOrder|
        #[trigger] call_ensures(order, (value, target, text), r) ==> r == oracle(value@, *target, text)
}

/// The numeric comparison of a filter on track, year, disc or bpm: which comparison `op` asks
/// for and on which numbers, with `order` comparing the numbers (see `numeric_holds`).
pub fn numeric_test<C: Fn(&str, &JsonValue, bool) -> NumOrder>(
    op: &str,
    value: &str,
    target: &JsonValue,
    order: &C,
) -> (r: bool)
    requires
        forall|v: &str, t: &JsonValue, text: bool| #[trigger] call_requires(*order, (v, t, text)),
    ensures
        forall|oracle: spec_fn(Seq<char>, JsonValue, bool) -> NumOrder|
            orders_as(*order, oracle) ==> r == numeric_holds(op@, value@, *target, oracle),
{
    proof {
        reveal_strlit("range");
    }
    if same_text(op, "range") {
        match target {
            JsonValue::Array(items) => {
                if items.len() == 2 {
                    let lo = (*order)(value, &items[0], false);
                    let hi = (*order)(value, &items[1], false);
                    let above = match lo {
                        NumOrder::Greater => true,
                        NumOrder::Equal => true,
                        _ => false,
                    };
                    let below = match hi {
                        NumOrder::Less => true,
                        NumOrder::Equal => true,
                        _ => false,
                    };
                    above && below
                } else {
                    false
                }
            },
            _ => false,
        }
    } else {
        let o = (*order)(value, target, true);
        let (less, equal, greater) = match o {
            NumOrder::Less => (true, false, false),
            NumOrder::Equal => (false, true, false),
            NumOrder::Greater => (false, false, true),
            NumOrder::Unordered => (false, false, false),
        };
        if same_text(op, "equals") {
            equal
        } else if same_text(op, "not_equals") {
            !equal
        } else if same_text(op, "greater") {
            greater
        } else if same_text(op, "less") {
            less
        } else {
            false
        }
    }
}

/// Whether a smart-playlist rule holds of a song (`evaluate_smart_rules`); the comparisons of
/// the numeric tags (track, year, disc, bpm) are made by `numeric`. A rule that names no
/// numeric tag is decided by its text comparisons alone, whatever `numeric` does.
pub fn evaluate_smart_rules<F: Fn(&str, &str, &JsonValue) -> bool>(
    song: &JsonObject,
    rule: &JsonValue,
    numeric: &F,
) -> (r: bool)
    requires
        callable(*numeric),
    ensures
        forall|oracle: spec_fn(Seq<char>, Seq<char>, JsonValue) -> bool|
            decides_as(*numeric, oracle) ==> r == rule_holds(song@, *rule, oracle),
        textual(*rule) ==> forall|oracle: spec_fn(Seq<char>, Seq<char>, JsonValue) -> bool|
            r == rule_holds(song@, *rule, oracle),
    decreases rule,
{
    match rule {
        JsonValue::Object(o) => {
            let kind = match o.get("type") {
                Some(JsonValue::Str(s)) => Some(s),
                _ => None,
            };
            match kind {
                Some(k) => {
                    if same_text(k.as_str(), "group") {
                        let mode = rule_text_of(o, "match", "all");
                        match o.get("items") {
                            Some(JsonValue::Array(items)) => {
                                proof {
                                    lemma_member_smaller(*o, "items"@);
                                    assert(decreases_to!(JsonValue::Array(*items) => *items));
                                    assert(decreases_to!(*items => items@));
                                    assert(decreases_to!(*rule => (*rule)->Object_0));
                                }
                                if items.len() == 0 {
                                    return true;
                                }
                                let all = same_text(mode.as_str(), "all");
                                proof {
                                    if textual(*rule) {
                                        assert(all_textual(items@, items@.len()));
                                    }
                                }
                                let mut i: usize = 0;
                                while i < items.len()
                                    invariant
                                        *rule == JsonValue::Object(*o),
                                        o.member("items"@) == Some(JsonValue::Array(*items)),
                                        decreases_to!(*rule => items@),
                                        o.member("type"@) matches Some(JsonValue::Str(_)),
                                        rule_text(*o, "type"@, Seq::empty()) == "group"@,
                                        all == (rule_text(*o, "match"@, "all"@) == "all"@),
                                        items@.len() > 0,
                                        callable(*numeric),
                                        i <= items@.len(),
                                        textual(*rule) ==> all_textual(items@, items@.len()),
                                        forall|oracle: spec_fn(Seq<char>, Seq<char>, JsonValue) -> bool|
                                            #![trigger decides_as(*numeric, oracle)]
                                            #![trigger all_hold(song@, items@, i as nat, oracle)]
                                            #![trigger any_holds(song@, items@, i as nat, oracle)]
                                            decides_as(*numeric, oracle) || textual(*rule) ==> if all {
                                                all_hold(song@, items@, i as nat, oracle)
                                            } else {
                                                !any_holds(song@, items@, i as nat, oracle)
                                            },
                                    decreases items@.len() - i,
                                {
                                    proof {
                                        assert(decreases_to!(items@ => items@[i as int]));
                                        if textual(*rule) {
                                            lemma_all_textual_each(items@, items@.len());
                                            assert(textual(items@[i as int]));
                                        }
                                    }
                                    let h = evaluate_smart_rules(song, &items[i], numeric);
                                    proof {
                                        if textual(*rule) {
                                            assert(forall|oracle: spec_fn(Seq<char>, Seq<char>, JsonValue) -> bool|
                                                h == #[trigger] rule_holds(song@, items@[i as int], oracle));
                                        }
                                    }
                                    if all && !h {
                                        proof {
                                            assert forall|oracle: spec_fn(Seq<char>, Seq<char>, JsonValue) -> bool|
                                                #![trigger rule_holds(song@, *rule, oracle)]
                                                decides_as(*numeric, oracle) || textual(*rule) implies !rule_holds(
                                                song@,
                                                *rule,
                                                oracle,
                                            ) by {
                                                assert(!rule_holds(song@, items@[i as int], oracle));
                                                assert(!all_hold(song@, items@, (i + 1) as nat, oracle));
                                                lemma_all_hold_stays_false(song@, items@, (i + 1) as nat, items@.len(), oracle);
                                            }
                                        }
                                        return false;
                                    }
                                    if !all && h {
                                        proof {
                                            assert forall|oracle: spec_fn(Seq<char>, Seq<char>, JsonValue) -> bool|
                                                #![trigger rule_holds(song@, *rule, oracle)]
                                                decides_as(*numeric, oracle) || textual(*rule) implies rule_holds(
                                                song@,
                                                *rule,
                                                oracle,
                                            ) by {
                                                assert(rule_holds(song@, items@[i as int], oracle));
                                                assert(any_holds(song@, items@, (i + 1) as nat, oracle));
                                                lemma_any_holds_stays_true(song@, items@, (i + 1) as nat, items@.len(), oracle);
                                            }
                                        }
                                        return true;
                                    }
                                    proof {
                                        assert forall|oracle: spec_fn(Seq<char>, Seq<char>, JsonValue) -> bool|
                                            decides_as(*numeric, oracle) || textual(*rule) implies if all {
                                            all_hold(song@, items@, (i + 1) as nat, oracle)
                                        } else {
                                            !any_holds(song@, items@, (i + 1) as nat, oracle)
                                        } by {
                                            assert(h == rule_holds(song@, items@[i as int], oracle));
                                            assert(if all {
                                                all_hold(song@, items@, i as nat, oracle)
                                            } else {
                                                !any_holds(song@, items@, i as nat, oracle)
                                            });
                                            assert(all_hold(song@, items@, (i + 1) as nat, oracle) == (all_hold(
                                                song@,
                                                items@,
                                                i as nat,
                                                oracle,
                                            ) && h));
                                            assert(any_holds(song@, items@, (i + 1) as nat, oracle) == (any_holds(
                                                song@,
                                                items@,
                                                i as nat,
                                                oracle,
                                            ) || h));
                                        }
                                    }
                                    i = i + 1;
                                }
                                proof {
                                    assert forall|oracle: spec_fn(Seq<char>, Seq<char>, JsonValue) -> bool|
                                        #![trigger rule_holds(song@, *rule, oracle)]
                                        textual(*rule) implies all == rule_holds(song@, *rule, oracle) by {
                                        assert(if all {
                                            all_hold(song@, items@, i as nat, oracle)
                                        } else {
                                            !any_holds(song@, items@, i as nat, oracle)
                                        });
                                        assert(i as nat == items@.len());
                                    }
                                }
                                all
                            },
                            _ => true,
                        }
                    } else if same_text(k.as_str(), "filter") {
                        filter_holds_of(song, o, numeric)
                    } else {
                        false
                    }
                },
                None => false,
            }
        },
        _ => false,
    }
}

/// The numeric comparisons that `numeric_test` makes when `oracle` orders the numbers.
pub open spec fn ordered_by(
    oracle: spec_fn(Seq<char>, JsonValue, bool) -> NumOrder,
) -> spec_fn(Seq<char>, Seq<char>, JsonValue) -> bool {
    |op: Seq<char>, value: Seq<char>, target: JsonValue| numeric_holds(op, value, target, oracle)
}

/// Whether a smart-playlist rule holds of a song, the numeric tags compared by `numeric_test`
/// with `order` ordering their numbers: `evaluate_smart_rules` as the program runs it.
pub fn evaluate_rules_ordered<C: Fn(&str, &JsonValue, bool) -> NumOrder>(
    song: &JsonObject,
    rule: &JsonValue,
    order: &C,
) -> (r: bool)
    requires
        forall|v: &str, t: &JsonValue, text: bool| #[trigger] call_requires(*order, (v, t, text)),
    ensures
        forall|oracle: spec_fn(Seq<char>, JsonValue, bool) -> NumOrder|
            orders_as(*order, oracle) ==> r == rule_holds(song@, *rule, ordered_by(oracle)),
{
    let numeric = |op: &str, value: &str, target: &JsonValue| -> (b: bool)
        requires
            forall|v: &str, t: &JsonValue, text: bool| #[trigger] call_requires(*order, (v, t, text)),
        ensures
            forall|oracle: spec_fn(Seq<char>, JsonValue, bool) -> NumOrder|
                orders_as(*order, oracle) ==> b == numeric_holds(op@, value@, *target, oracle),
        { numeric_test(op, value, target, order) };
    proof {
        assert forall|op: &str, value: &str, target: &JsonValue| #[trigger] call_requires(
            numeric,
            (op, value, target),
        ) by {}
    }
    let r = evaluate_smart_rules(song, rule, &numeric);
    proof {
        assert forall|oracle: spec_fn(Seq<char>, JsonValue, bool) -> NumOrder|
            orders_as(*order, oracle) implies r == rule_holds(song@, *rule, ordered_by(oracle)) by {
            assert forall|op: &str, value: &str, target: &JsonValue, b: bool|
                #[trigger] call_ensures(numeric, (op, value, target), b) implies b == ordered_by(oracle)(
                op@,
                value@,
                *target,
            ) by {}
            assert(decides_as(numeric, ordered_by(oracle)));
        }
    }
    r
}

/// The operations a filter on a numeric tag knows.
pub open spec fn numeric_op(op: Seq<char>) -> bool {
    op == "range"@ || op == "equals"@ || op == "not_equals"@ || op == "greater"@ || op == "less"@
}

/// The operations a filter on any other tag knows.
pub open spec fn text_op(op: Seq<char>) -> bool {
    op == "contains"@ || op == "not_contains"@ || op == "equals"@ || op == "not_equals"@ || op
        == "startswith"@ || op == "endswith"@
}

/// A rule that can hold of no song: not an object; without a `"type"` text `group` or `filter`;
/// a filter whose operation its tag does not know; or a numeric `range` whose `"val"` is not
/// an array of two ends.
pub open spec fn broken_rule(rule: JsonValue) -> bool {
    match rule {
        JsonValue::Object(o) => {
            let kind = rule_text(o, "type"@, Seq::empty());
            let typed = o.member("type"@) matches Some(JsonValue::Str(_));
            if typed && kind == "group"@ {
                false
            } else if typed && kind == "filter"@ {
                let tag = rule_text(o, "tag"@, Seq::empty());
                let op = rule_text(o, "op"@, Seq::empty());
                if is_numeric_tag(tag) {
                    !numeric_op(op) || (op == "range"@ && !(o.member("val"@) matches Some(
                        JsonValue::Array(items),
                    ) && items@.len() == 2))
                } else {
                    !text_op(op)
                }
            } else {
                true
            }
        },
        _ => true,
    }
}

/// A broken rule (see `broken_rule`) holds of no song, however the numbers are ordered.
pub proof fn lemma_broken_rule_fails(
    song: Map<Seq<char>, Json>,
    rule: JsonValue,
    oracle: spec_fn(Seq<char>, JsonValue, bool) -> NumOrder,
)
    requires
        broken_rule(rule),
    ensures
        !rule_holds(song, rule, ordered_by(oracle)),
{
}

/// Two filters that differ only in their operation never agree when one asks `equals` and the
/// other `not_equals`, on any tag, or one `contains` and the other `not_contains`, on a tag
/// that is not numeric.
pub proof fn lemma_negated_filters(
    song: Map<Seq<char>, Json>,
    o1: JsonObject,
    o2: JsonObject,
    oracle: spec_fn(Seq<char>, JsonValue, bool) -> NumOrder,
)
    requires
        o1.member("type"@) matches Some(JsonValue::Str(_)),
        rule_text(o1, "type"@, Seq::empty()) == "filter"@,
        forall|k: Seq<char>| k != "op"@ ==> #[trigger] o1.member(k) == o2.member(k),
        ({
            let op1 = rule_text(o1, "op"@, Seq::empty());
            let op2 = rule_text(o2, "op"@, Seq::empty());
            ||| op1 == "equals"@ && op2 == "not_equals"@
            ||| op1 == "contains"@ && op2 == "not_contains"@ && !is_numeric_tag(
                rule_text(o1, "tag"@, Seq::empty()),
            )
        }),
    ensures
        rule_holds(song, JsonValue::Object(o2), ordered_by(oracle)) == !rule_holds(
            song,
            JsonValue::Object(o1),
            ordered_by(oracle),
        ),
{
    reveal_strlit("op");
    reveal_strlit("type");
    reveal_strlit("tag");
    reveal_strlit("val");
    assert("type"@[0] != "op"@[0]);
    assert("tag"@[0] != "op"@[0]);
    assert("val"@ != "op"@);
    assert(o1.member("type"@) == o2.member("type"@));
    assert(o1.member("tag"@) == o2.member("tag"@));
    assert(o1.member("val"@) == o2.member("val"@));
    assert(rule_text(o1, "tag"@, Seq::empty()) == rule_text(o2, "tag"@, Seq::empty()));
    assert(rule_text(o1, "type"@, Seq::empty()) == rule_text(o2, "type"@, Seq::empty()));
    reveal_strlit("range");
    reveal_strlit("equals");
    reveal_strlit("not_equals");
    reveal_strlit("contains");
    reveal_strlit("not_contains");
    assert("equals"@[0] != "range"@[0] && "equals"@[0] != "contains"@[0] && "equals"@[0] != "not_contains"@[0]);
    assert("not_equals"@[0] != "range"@[0] && "not_equals"@[0] != "contains"@[0] && "not_equals"@[0]
        != "equals"@[0] && "not_equals"@[4] != "not_contains"@[4]);
    assert("not_contains"@[0] != "contains"@[0]);
    reveal_strlit("filter");
    reveal_strlit("group");
    assert("filter"@[0] != "group"@[0]);
    assert(rule_holds(song, JsonValue::Object(o1), ordered_by(oracle)) == filter_holds(song, o1, ordered_by(oracle)));
    assert(rule_holds(song, JsonValue::Object(o2), ordered_by(oracle)) == filter_holds(song, o2, ordered_by(oracle)));
}

/// A filter on a tag that is not numeric, where the song's tag is the string `s` and the
/// filter's `"val"` the string `t`, compares the two lower-cased: `contains` holds when `t`
/// occurs in `s`, `not_contains` when it does not, `equals` and `not_equals` when they are and
/// are not the same, `startswith` when `s` begins with `t`, `endswith` when `s` ends with `t`;
/// however the numbers are compared.
pub proof fn lemma_text_filter(
    song: Map<Seq<char>, Json>,
    o: JsonObject,
    s: Seq<char>,
    t: String,
    numeric: spec_fn(Seq<char>, Seq<char>, JsonValue) -> bool,
)
    requires
        o.member("type"@) matches Some(JsonValue::Str(_)),
        rule_text(o, "type"@, Seq::empty()) == "filter"@,
        !is_numeric_tag(rule_text(o, "tag"@, Seq::empty())),
        str_field(song, rule_text(o, "tag"@, Seq::empty())) == Some(s),
        o.member("val"@) == Some(JsonValue::Str(t)),
    ensures
        ({
            let op = rule_text(o, "op"@, Seq::empty());
            let held = rule_holds(song, JsonValue::Object(o), numeric);
            let v = lowercase(s);
            let w = lowercase(t@);
            &&& op == "contains"@ ==> (held <==> exists|i: int|
                0 <= i && i + w.len() <= v.len() && #[trigger] v.subrange(i, i + w.len()) == w)
            &&& op == "not_contains"@ ==> (held <==> !exists|i: int|
                0 <= i && i + w.len() <= v.len() && #[trigger] v.subrange(i, i + w.len()) == w)
            &&& op == "equals"@ ==> (held <==> v == w)
            &&& op == "not_equals"@ ==> (held <==> v != w)
            &&& op == "startswith"@ ==> (held <==> w.len() <= v.len() && v.subrange(0, w.len() as int) == w)
            &&& op == "endswith"@ ==> (held <==> w.len() <= v.len() && v.subrange(
                v.len() - w.len(),
                v.len() as int,
            ) == w)
        }),
{
    reveal_strlit("filter");
    reveal_strlit("group");
    assert("filter"@[0] != "group"@[0]);
    reveal_strlit("contains");
    reveal_strlit("not_contains");
    reveal_strlit("equals");
    reveal_strlit("not_equals");
    reveal_strlit("startswith");
    reveal_strlit("endswith");
    let (c, nc, e, ne, sw, ew) = (
        "contains"@,
        "not_contains"@,
        "equals"@,
        "not_equals"@,
        "startswith"@,
        "endswith"@,
    );
    assert(c[0] != nc[0] && c[0] != e[0] && c[0] != ne[0] && c[0] != sw[0] && c[0] != ew[0]);
    assert(nc[0] != e[0] && nc[4] != ne[4] && nc[0] != sw[0] && nc[0] != ew[0]);
    assert(e[0] != ne[0] && e[0] != sw[0] && e[1] != ew[1]);
    assert(ne[0] != sw[0] && ne[0] != ew[0]);
    assert(sw[0] != ew[0]);
    assert(c != nc && c != e && c != ne && c != sw && c != ew);
    assert(nc != e && nc != ne && nc != sw && nc != ew);
    assert(e != ne && e != sw && e != ew && ne != sw && ne != ew && sw != ew);
    assert(rule_holds(song, JsonValue::Object(o), numeric) == filter_holds(song, o, numeric));
    let v = lowercase(s);
    let w = lowercase(t@);
    assert(song_value(song, rule_text(o, "tag"@, Seq::empty())) == v);
    if w.len() <= v.len() {
        assert(v.take(w.len() as int) =~= v.subrange(0, w.len() as int));
        assert(v.skip(v.len() - w.len()) =~= v.subrange(v.len() - w.len(), v.len() as int));
    }
}

/// A filter on a numeric tag, where the song's tag is the string `s`, compares the number of
/// the lower-cased `s` with the filter's `"val"` as `oracle` orders them: `equals`,
/// `not_equals`, `greater` and `less` hold when the song's number is, is not, is above and is
/// below the filter's; `range` holds when `"val"` is an array of two ends and the number lies
/// between them, ends included; any other operation does not hold.
pub proof fn lemma_numeric_filter(
    song: Map<Seq<char>, Json>,
    o: JsonObject,
    s: Seq<char>,
    oracle: spec_fn(Seq<char>, JsonValue, bool) -> NumOrder,
)
    requires
        o.member("type"@) matches Some(JsonValue::Str(_)),
        rule_text(o, "type"@, Seq::empty()) == "filter"@,
        is_numeric_tag(rule_text(o, "tag"@, Seq::empty())),
        str_field(song, rule_text(o, "tag"@, Seq::empty())) == Some(s),
    ensures
        ({
            let op = rule_text(o, "op"@, Seq::empty());
            let held = rule_holds(song, JsonValue::Object(o), ordered_by(oracle));
            let v = lowercase(s);
            let target = match o.member("val"@) {
                Some(x) => x,
                None => JsonValue::Null,
            };
            &&& op == "equals"@ ==> (held <==> oracle(v, target, true) is Equal)
            &&& op == "not_equals"@ ==> (held <==> !(oracle(v, target, true) is Equal))
            &&& op == "greater"@ ==> (held <==> oracle(v, target, true) is Greater)
            &&& op == "less"@ ==> (held <==> oracle(v, target, true) is Less)
            &&& op == "range"@ ==> (held <==> (target matches JsonValue::Array(items) && items@.len() == 2
                && !(oracle(v, items@[0], false) is Less) && !(oracle(v, items@[0], false) is Unordered)
                && !(oracle(v, items@[1], false) is Greater) && !(oracle(v, items@[1], false) is Unordered)))
            &&& !(op == "equals"@ || op == "not_equals"@ || op == "greater"@ || op == "less"@ || op
                == "range"@) ==> !held
        }),
{
    reveal_strlit("filter");
    reveal_strlit("group");
    assert("filter"@[0] != "group"@[0]);
    reveal_strlit("range");
    reveal_strlit("equals");
    reveal_strlit("not_equals");
    reveal_strlit("greater");
    reveal_strlit("less");
    let (r, e, ne, g, l) = ("range"@, "equals"@, "not_equals"@, "greater"@, "less"@);
    assert(r[0] != e[0] && r[0] != ne[0] && r[0] != g[0] && r[0] != l[0]);
    assert(e[0] != ne[0] && e[0] != g[0] && e[0] != l[0] && ne[0] != g[0] && ne[0] != l[0] && g[0] != l[0]);
    assert(r != e && r != ne && r != g && r != l && e != ne && e != g && e != l && ne != g && ne != l && g != l);
    assert(rule_holds(song, JsonValue::Object(o), ordered_by(oracle)) == filter_holds(
        song,
        o,
        ordered_by(oracle),
    ));
    assert(song_value(song, rule_text(o, "tag"@, Seq::empty())) == lowercase(s));
}

/// A group rule holds when its `"items"` are missing, not an array, or empty; otherwise, with
/// `"match"` missing or `all`, exactly when every item holds, and with any other `"match"`,
/// exactly when some item holds.
pub proof fn lemma_group_rule(
    song: Map<Seq<char>, Json>,
    o: JsonObject,
    numeric: spec_fn(Seq<char>, Seq<char>, JsonValue) -> bool,
)
    requires
        o.member("type"@) matches Some(JsonValue::Str(_)),
        rule_text(o, "type"@, Seq::empty()) == "group"@,
    ensures
        ({
            let held = rule_holds(song, JsonValue::Object(o), numeric);
            match o.member("items"@) {
                Some(JsonValue::Array(items)) => if items@.len() == 0 {
                    held
                } else if rule_text(o, "match"@, "all"@) == "all"@ {
                    held <==> forall|i: int| 0 <= i < items@.len() ==> rule_holds(song, #[trigger] items@[i], numeric)
                } else {
                    held <==> exists|i: int| 0 <= i < items@.len() && rule_holds(song, #[trigger] items@[i], numeric)
                },
                _ => held,
            }
        }),
{
    match o.member("items"@) {
        Some(JsonValue::Array(items)) => {
            lemma_all_hold_each(song, items@, items@.len(), numeric);
            lemma_any_holds_some(song, items@, items@.len(), numeric);
        },
        _ => {},
    }
}

} // verus!
