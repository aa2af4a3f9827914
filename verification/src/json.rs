//! Snapshots and change sets: values made of nulls, flags, numbers, texts, lists and
//! objects with ordered keys.

use serde_json::Number;
use vstd::prelude::*;

use crate::numbers;
use crate::order::{self, str_less};
use crate::text::{self, str_eq};

verus! {

/// A snapshot value.
#[derive(Debug, PartialEq)]
pub enum Json {
    Null,
    Bool(bool),
    Number(Number),
    Text(String),
    Array(Vec<Json>),
    Object(JsonObject),
}

/// The number type of the JSON library.
#[verifier::external_type_specification]
#[verifier::external_body]
pub struct ExNumber(Number);

/// What a number of the JSON library is: an integer, or what another numeral denotes.
pub enum NumberView {
    Int(int),
    Other(Seq<char>),
}

/// What a number of the JSON library is.
pub uninterp spec fn number_held(n: Number) -> NumberView;

/// A numeral of nought that is no integer's.
pub open spec fn is_zero_numeral(s: Seq<char>) -> bool {
    s == "0.0"@ || s == "-0.0"@
}

/// Two numerals that are no integers' denote the same number: they are the same, or both
/// are nought.
pub open spec fn same_numeral(a: Seq<char>, b: Seq<char>) -> bool {
    a == b || (is_zero_numeral(a) && is_zero_numeral(b))
}

/// Two numbers are equal. An integer is never equal to what another numeral denotes.
pub open spec fn same_number(a: NumberView, b: NumberView) -> bool {
    match (a, b) {
        (NumberView::Int(x), NumberView::Int(y)) => x == y,
        (NumberView::Other(x), NumberView::Other(y)) => same_numeral(x, y),
        _ => false,
    }
}

/// `serde_json::Number::from`: the number that a signed integer is.
#[verifier::external_body]
fn int_number(n: i64) -> (r: Number)
    ensures
        number_held(r) == NumberView::Int(n as int),
{
    Number::from(n)
}

/// `Number::as_i64`: the integer that a number is, if it is one that fits.
#[verifier::external_body]
fn number_as_i64(n: &Number) -> (r: Option<i64>)
    ensures
        match (r, number_held(*n)) {
            (Some(x), NumberView::Int(i)) => x == i,
            (Some(_), NumberView::Other(_)) => false,
            (None, NumberView::Int(i)) => !(i64::MIN <= i <= i64::MAX),
            (None, NumberView::Other(_)) => true,
        },
{
    n.as_i64()
}

/// `Number::as_u64`: the integer that a number is, if it is one that fits.
#[verifier::external_body]
fn number_as_u64(n: &Number) -> (r: Option<u64>)
    ensures
        match (r, number_held(*n)) {
            (Some(x), NumberView::Int(i)) => x == i,
            (Some(_), NumberView::Other(_)) => false,
            (None, NumberView::Int(i)) => !(0 <= i <= u64::MAX),
            (None, NumberView::Other(_)) => true,
        },
{
    n.as_u64()
}

/// `Number::clone`: the same number.
#[verifier::external_body]
fn copy_number(n: &Number) -> (r: Number)
    ensures
        number_held(r) == number_held(*n),
{
    n.clone()
}

/// `==` on `Number`: integers by their value, others by theirs, where the two noughts
/// are equal.
#[verifier::external_body]
fn numbers_equal(a: &Number, b: &Number) -> (r: bool)
    ensures
        r == same_number(number_held(*a), number_held(*b)),
{
    a == b
}

/// `Number::to_string`: the decimal digits of an integer, and the numeral of others.
#[verifier::external_body]
pub(crate) fn number_text(n: &Number) -> (r: String)
    ensures
        r@ == (match number_held(*n) {
            NumberView::Int(i) => numbers::int_text(i),
            NumberView::Other(t) => t,
        }),
{
    n.to_string()
}

/// An object: its entries in the order of their keys.
#[derive(Debug, PartialEq)]
pub struct JsonObject {
    pub entries: Vec<(String, Json)>,
}

/// What a [`Json`] denotes.
pub enum JsonView {
    Null,
    Bool(bool),
    Int(int),
    Other(Seq<char>),
    Str(Seq<char>),
    Arr(Seq<JsonView>),
    Obj(Seq<(Seq<char>, JsonView)>),
}

/// The entries of an object.
pub type Entries = Seq<(Seq<char>, JsonView)>;

/// What a number denotes.
pub open spec fn number_view(n: Number) -> JsonView {
    match number_held(n) {
        NumberView::Int(i) => JsonView::Int(i),
        NumberView::Other(t) => JsonView::Other(t),
    }
}

/// What a value denotes.
pub open spec fn json_view(j: Json) -> JsonView
    decreases j,
{
    match j {
        Json::Null => JsonView::Null,
        Json::Bool(b) => JsonView::Bool(b),
        Json::Number(n) => number_view(n),
        Json::Text(s) => JsonView::Str(s@),
        Json::Array(v) => JsonView::Arr(json_views(v@)),
        Json::Object(o) => JsonView::Obj(entry_views(o.entries@)),
    }
}

/// What the values of a list denote.
pub open spec fn json_views(s: Seq<Json>) -> Seq<JsonView>
    decreases s,
{
    if s.len() == 0 {
        Seq::empty()
    } else {
        json_views(s.drop_last()).push(json_view(s.last()))
    }
}

/// What the entries of an object denote.
pub open spec fn entry_views(s: Seq<(String, Json)>) -> Seq<(Seq<char>, JsonView)>
    decreases s,
{
    if s.len() == 0 {
        Seq::empty()
    } else {
        entry_views(s.drop_last()).push((s.last().0@, json_view(s.last().1)))
    }
}

impl View for Json {
    type V = JsonView;

    open spec fn view(&self) -> JsonView {
        json_view(*self)
    }
}

impl View for JsonObject {
    type V = Seq<(Seq<char>, JsonView)>;

    open spec fn view(&self) -> Seq<(Seq<char>, JsonView)> {
        entry_views(self.entries@)
    }
}

/// A list denotes its elements in turn.
pub proof fn lemma_json_views(s: Seq<Json>)
    ensures
        json_views(s).len() == s.len(),
        forall|i: int| 0 <= i < s.len() ==> #[trigger] json_views(s)[i] == s[i]@,
    decreases s.len(),
{
    if s.len() > 0 {
        lemma_json_views(s.drop_last());
        assert forall|i: int| 0 <= i < s.len() implies #[trigger] json_views(s)[i] == s[i]@ by {
            if i < s.len() - 1 {
                assert(json_views(s)[i] == json_views(s.drop_last())[i]);
                assert(s.drop_last()[i] == s[i]);
            }
        }
    }
}

/// An object denotes its entries in turn.
pub proof fn lemma_entry_views(s: Seq<(String, Json)>)
    ensures
        entry_views(s).len() == s.len(),
        forall|i: int|
            0 <= i < s.len() ==> #[trigger] entry_views(s)[i] == ((s[i].0)@, (s[i].1)@),
    decreases s.len(),
{
    if s.len() > 0 {
        lemma_entry_views(s.drop_last());
        assert forall|i: int| 0 <= i < s.len() implies #[trigger] entry_views(s)[i] == (
            (s[i].0)@,
            (s[i].1)@,
        ) by {
            if i < s.len() - 1 {
                assert(entry_views(s)[i] == entry_views(s.drop_last())[i]);
                assert(s.drop_last()[i] == s[i]);
            }
        }
    }
}

/// One more element.
pub proof fn lemma_json_views_push(s: Seq<Json>, x: Json)
    ensures
        json_views(s.push(x)) == json_views(s).push(x@),
{
    assert(s.push(x).drop_last() =~= s);
}

/// One more entry.
pub proof fn lemma_entry_views_push(s: Seq<(String, Json)>, x: (String, Json))
    ensures
        entry_views(s.push(x)) == entry_views(s).push(((x.0)@, (x.1)@)),
{
    assert(s.push(x).drop_last() =~= s);
}

// ── Objects ────────────────────────────────────────────────────────────────

/// The value under `key`: that of the first entry with the key.
pub open spec fn lookup(es: Seq<(Seq<char>, JsonView)>, key: Seq<char>) -> Option<JsonView>
    decreases es.len(),
{
    if es.len() == 0 {
        None
    } else if es[0].0 == key {
        Some(es[0].1)
    } else {
        lookup(es.drop_first(), key)
    }
}

/// The entries with `value` under `key`, at its place in the order of the keys.
pub open spec fn put(es: Seq<(Seq<char>, JsonView)>, key: Seq<char>, value: JsonView) -> Seq<
    (Seq<char>, JsonView),
>
    decreases es.len(),
{
    if es.len() == 0 {
        seq![(key, value)]
    } else if es[0].0 == key {
        seq![(key, value)] + es.drop_first()
    } else if order::text_less(key, es[0].0) {
        seq![(key, value)] + es
    } else {
        seq![es[0]] + put(es.drop_first(), key, value)
    }
}

/// The keys go up.
pub open spec fn keys_ascend(es: Seq<(Seq<char>, JsonView)>) -> bool {
    forall|i: int, j: int|
        0 <= i < j < es.len() ==> order::text_less(#[trigger] es[i].0, #[trigger] es[j].0)
}

/// A key gives the value that was put under it; every other key gives what it gave.
pub proof fn lemma_lookup_put(
    es: Seq<(Seq<char>, JsonView)>,
    key: Seq<char>,
    value: JsonView,
    other: Seq<char>,
)
    ensures
        lookup(put(es, key, value), other) == (if other == key {
            Some(value)
        } else {
            lookup(es, other)
        }),
    decreases es.len(),
{
    let p = put(es, key, value);
    if es.len() == 0 {
        assert(p.drop_first() =~= es);
    } else if es[0].0 == key {
        assert(p.drop_first() =~= es.drop_first());
    } else if order::text_less(key, es[0].0) {
        assert(p.drop_first() =~= es);
    } else {
        lemma_lookup_put(es.drop_first(), key, value, other);
        assert(p.drop_first() =~= put(es.drop_first(), key, value));
    }
}

proof fn lemma_lookup_absent(es: Seq<(Seq<char>, JsonView)>, key: Seq<char>)
    requires
        forall|i: int| 0 <= i < es.len() ==> #[trigger] es[i].0 != key,
    ensures
        lookup(es, key) is None,
    decreases es.len(),
{
    if es.len() > 0 {
        assert(es[0].0 != key);
        let r = es.drop_first();
        assert forall|i: int| 0 <= i < r.len() implies #[trigger] r[i].0 != key by {
            assert(r[i] == es[i + 1]);
        }
        lemma_lookup_absent(r, key);
    }
}

/// Putting a value under a key keeps the keys in order; the key then gives that
/// value, and every other key gives what it gave before.
pub proof fn law_put_then_lookup(
    es: Seq<(Seq<char>, JsonView)>,
    key: Seq<char>,
    value: JsonView,
    other: Seq<char>,
)
    requires
        keys_ascend(es),
    ensures
        keys_ascend(put(es, key, value)),
        lookup(put(es, key, value), key) == Some(value),
        other != key ==> lookup(put(es, key, value), other) == lookup(es, other),
        forall|i: int|
            0 <= i < put(es, key, value).len() ==> {
                ||| #[trigger] put(es, key, value)[i].0 == key
                ||| exists|j: int| 0 <= j < es.len() && #[trigger] es[j].0 == put(es, key, value)[i].0
            },
    decreases es.len(),
{
    let p = put(es, key, value);
    if es.len() == 0 {
        assert(p.drop_first() =~= es);
    } else if es[0].0 == key {
        assert(p.drop_first() =~= es.drop_first());
        assert forall|i: int, j: int| 0 <= i < j < p.len() implies order::text_less(
            #[trigger] p[i].0,
            #[trigger] p[j].0,
        ) by {
            assert(p[j] == es[j]);
            assert(i > 0 ==> p[i] == es[i]);
            assert(order::text_less(es[i].0, es[j].0));
        }
        assert forall|i: int| 0 <= i < p.len() implies {
            ||| #[trigger] p[i].0 == key
            ||| exists|j: int| 0 <= j < es.len() && #[trigger] es[j].0 == p[i].0
        } by {
            assert(i > 0 ==> p[i] == es[i]);
        }
    } else if order::text_less(key, es[0].0) {
        assert(p.drop_first() =~= es);
        assert forall|i: int, j: int| 0 <= i < j < p.len() implies order::text_less(
            #[trigger] p[i].0,
            #[trigger] p[j].0,
        ) by {
            assert(p[j] == es[j - 1]);
            if i > 0 {
                assert(p[i] == es[i - 1]);
            } else if j > 1 {
                assert(order::text_less(es[0].0, es[j - 1].0));
                order::lemma_text_less_transitive(key, es[0].0, es[j - 1].0);
            }
        }
        assert forall|i: int| 0 <= i < p.len() implies {
            ||| #[trigger] p[i].0 == key
            ||| exists|j: int| 0 <= j < es.len() && #[trigger] es[j].0 == p[i].0
        } by {
            if i > 0 {
                assert(p[i] == es[i - 1]);
            }
        }
    } else {
        let r = es.drop_first();
        assert forall|i: int, j: int| 0 <= i < j < r.len() implies order::text_less(
            #[trigger] r[i].0,
            #[trigger] r[j].0,
        ) by {
            assert(r[i] == es[i + 1] && r[j] == es[j + 1]);
        }
        law_put_then_lookup(r, key, value, other);
        let q = put(r, key, value);
        assert(p.drop_first() =~= q);
        order::lemma_text_less_total(key, es[0].0);
        assert forall|i: int, j: int| 0 <= i < j < p.len() implies order::text_less(
            #[trigger] p[i].0,
            #[trigger] p[j].0,
        ) by {
            assert(p[j] == q[j - 1]);
            if i > 0 {
                assert(p[i] == q[i - 1]);
            } else if q[j - 1].0 != key {
                let k = choose|k: int| 0 <= k < r.len() && #[trigger] r[k].0 == q[j - 1].0;
                assert(es[k + 1] == r[k]);
            }
        }
        assert forall|i: int| 0 <= i < p.len() implies {
            ||| #[trigger] p[i].0 == key
            ||| exists|j: int| 0 <= j < es.len() && #[trigger] es[j].0 == p[i].0
        } by {
            if i > 0 {
                assert(p[i] == q[i - 1]);
                if q[i - 1].0 != key {
                    let k = choose|k: int| 0 <= k < r.len() && #[trigger] r[k].0 == q[i - 1].0;
                    assert(es[k + 1] == r[k]);
                }
            }
        }
    }
}

impl JsonObject {
    /// The keys go up, so that none is there twice.
    pub open spec fn well_formed(self) -> bool {
        keys_ascend(self@)
    }

    /// The object without entries.
    pub fn new() -> (r: JsonObject)
        ensures
            r@ == Seq::<(Seq<char>, JsonView)>::empty(),
            r.well_formed(),
    {
        JsonObject { entries: Vec::new() }
    }

    /// How many entries there are.
    pub fn len(&self) -> (r: usize)
        ensures
            r == self@.len(),
    {
        proof {
            lemma_entry_views(self.entries@);
        }
        self.entries.len()
    }

    /// Whether there is no entry.
    pub fn is_empty(&self) -> (r: bool)
        ensures
            r == (self@.len() == 0),
    {
        self.len() == 0
    }

    /// The value under a key.
    pub fn get(&self, key: &str) -> (r: Option<&Json>)
        ensures
            match r {
                Some(v) => lookup(self@, key@) == Some(v@),
                None => lookup(self@, key@) is None,
            },
    {
        let ghost es = self@;
        proof {
            lemma_entry_views(self.entries@);
            assert(es.skip(0) =~= es);
        }
        for i in 0..self.entries.len()
            invariant
                es == entry_views(self.entries@),
                es.len() == self.entries@.len(),
                forall|k: int|
                    0 <= k < es.len() ==> #[trigger] es[k] == (
                        (self.entries@[k].0)@,
                        (self.entries@[k].1)@,
                    ),
                lookup(es.skip(i as int), key@) == lookup(es, key@),
        {
            proof {
                let rest = es.skip(i as int);
                assert(rest[0] == es[i as int]);
                assert(rest.drop_first() =~= es.skip(i + 1));
            }
            if str_eq(self.entries[i].0.as_str(), key) {
                return Some(&self.entries[i].1);
            }
        }
        None
    }

    /// Put a value under a key. Keys that are in order stay in order.
    pub fn insert(&mut self, key: &str, value: Json)
        ensures
            final(self)@ == put(old(self)@, key@, value@),
            old(self).well_formed() ==> final(self).well_formed(),
    {
        let ghost es = self@;
        let ghost before = self.entries@;
        proof {
            lemma_entry_views(self.entries@);
            assert(es.skip(0) =~= es);
            assert(es.take(0) + put(es, key@, value@) =~= put(es, key@, value@));
            if keys_ascend(es) {
                law_put_then_lookup(es, key@, value@, key@);
            }
        }
        let mut i: usize = 0;
        while i < self.entries.len() && !str_eq(self.entries[i].0.as_str(), key) && !str_less(
            key,
            self.entries[i].0.as_str(),
        )
            invariant
                i <= self.entries@.len(),
                self.entries@ == before,
                es == entry_views(before),
                es.len() == before.len(),
                forall|k: int|
                    0 <= k < es.len() ==> #[trigger] es[k] == ((before[k].0)@, (before[k].1)@),
                es.take(i as int) + put(es.skip(i as int), key@, value@) == put(
                    es,
                    key@,
                    value@,
                ),
            decreases self.entries@.len() - i,
        {
            proof {
                let rest = es.skip(i as int);
                assert(rest[0] == es[i as int]);
                assert(rest.drop_first() =~= es.skip(i + 1));
                assert(es.take(i as int) + (seq![rest[0]] + put(
                    rest.drop_first(),
                    key@,
                    value@,
                )) =~= es.take(i + 1) + put(rest.drop_first(), key@, value@));
            }
            i += 1;
        }
        let ghost pair = (key@, value@);
        let ghost rest = es.skip(i as int);
        proof {
            if i < es.len() {
                assert(rest[0] == es[i as int]);
            }
        }
        if i < self.entries.len() && str_eq(self.entries[i].0.as_str(), key) {
            let entry = (String::from_str(key), value);
            self.entries.remove(i);
            self.entries.insert(i, entry);
            proof {
                lemma_entry_views(self.entries@);
                let now = self.entries@;
                assert(now =~= before.update(i as int, entry));
                assert(entry_views(now) =~= es.take(i as int) + (seq![pair] + rest.drop_first()))
                    by {
                    assert forall|k: int| 0 <= k < es.len() implies entry_views(now)[k] == (
                    es.take(i as int) + (seq![pair] + rest.drop_first()))[k] by {
                        if k > i {
                            assert(rest.drop_first()[k - i - 1] == es[k]);
                        }
                        assert(entry_views(now)[k] == ((now[k].0)@, (now[k].1)@));
                    }
                }
            }
        } else {
            let entry = (String::from_str(key), value);
            self.entries.insert(i, entry);
            proof {
                lemma_entry_views(self.entries@);
                let now = self.entries@;
                assert(now =~= before.insert(i as int, entry));
                assert(entry_views(now) =~= es.take(i as int) + (seq![pair] + rest)) by {
                    assert forall|k: int| 0 <= k < now.len() implies entry_views(now)[k] == (
                    es.take(i as int) + (seq![pair] + rest))[k] by {
                        if k > i {
                            assert(rest[k - i - 1] == es[k - 1]);
                        }
                        assert(entry_views(now)[k] == ((now[k].0)@, (now[k].1)@));
                    }
                }
                if i == es.len() {
                    assert(seq![pair] + rest =~= seq![pair]);
                }
            }
        }
    }

    /// A copy of the object.
    pub fn copy(&self) -> (r: JsonObject)
        ensures
            r@ == self@,
        decreases self, 0nat,
    {
        let mut out: Vec<(String, Json)> = Vec::new();
        assert(entry_views(self.entries@.take(0)) =~= Seq::empty());
        for i in 0..self.entries.len()
            invariant
                entry_views(out@) == entry_views(self.entries@.take(i as int)),
        {
            let value = self.entries[i].1.copy();
            let ghost x = (self.entries@[i as int].0, value);
            proof {
                lemma_entry_views_push(out@, x);
                assert(self.entries@.take(i + 1) =~= self.entries@.take(i as int).push(
                    self.entries@[i as int],
                ));
                lemma_entry_views_push(
                    self.entries@.take(i as int),
                    self.entries@[i as int],
                );
            }
            out.push((self.entries[i].0.clone(), value));
        }
        assert(self.entries@.take(self.entries@.len() as int) =~= self.entries@);
        JsonObject { entries: out }
    }
}

// ── Values ─────────────────────────────────────────────────────────────────

/// The value under `key`, if `v` is an object that has the key.
pub open spec fn get(v: JsonView, key: Seq<char>) -> Option<JsonView> {
    match v {
        JsonView::Obj(es) => lookup(es, key),
        _ => None,
    }
}

/// The value under `key`, or null.
pub open spec fn field(v: JsonView, key: Seq<char>) -> JsonView {
    match get(v, key) {
        Some(x) => x,
        None => JsonView::Null,
    }
}

/// The text that a value is.
pub open spec fn as_text(v: JsonView) -> Option<Seq<char>> {
    match v {
        JsonView::Str(s) => Some(s),
        _ => None,
    }
}

/// The text that a value is, or the empty text.
pub open spec fn text_or_empty(v: JsonView) -> Seq<char> {
    match v {
        JsonView::Str(s) => s,
        _ => Seq::empty(),
    }
}

/// The signed 64-bit integer that a value is.
pub open spec fn as_int(v: JsonView) -> Option<int> {
    match v {
        JsonView::Int(n) => if i64::MIN <= n <= i64::MAX {
            Some(n)
        } else {
            None
        },
        _ => None,
    }
}

/// The unsigned 64-bit integer that a value is.
pub open spec fn as_index(v: JsonView) -> Option<int> {
    match v {
        JsonView::Int(n) => if 0 <= n <= u64::MAX {
            Some(n)
        } else {
            None
        },
        _ => None,
    }
}

/// The list that a value is.
pub open spec fn as_list(v: JsonView) -> Option<Seq<JsonView>> {
    match v {
        JsonView::Arr(s) => Some(s),
        _ => None,
    }
}

/// The elements of the list that a value is, or none.
pub open spec fn list_or_empty(v: JsonView) -> Seq<JsonView> {
    match v {
        JsonView::Arr(s) => s,
        _ => Seq::empty(),
    }
}

/// The texts among the elements of the list that a value is.
pub open spec fn list_texts(v: Seq<JsonView>) -> Seq<Seq<char>>
    decreases v.len(),
{
    if v.len() == 0 {
        Seq::empty()
    } else {
        match v.last() {
            JsonView::Str(s) => list_texts(v.drop_last()).push(s),
            _ => list_texts(v.drop_last()),
        }
    }
}

impl Json {
    /// A text.
    pub fn text(s: &str) -> (r: Json)
        ensures
            r@ == JsonView::Str(s@),
    {
        Json::Text(String::from_str(s))
    }

    /// An integer.
    pub fn number(n: i64) -> (r: Json)
        ensures
            r@ == JsonView::Int(n as int),
    {
        Json::Number(int_number(n))
    }

    /// An object without entries.
    pub fn object() -> (r: Json)
        ensures
            r@ == JsonView::Obj(Seq::empty()),
    {
        Json::Object(JsonObject::new())
    }

    /// The value under a key, if this is an object that has the key.
    pub fn get(&self, key: &str) -> (r: Option<&Json>)
        ensures
            match r {
                Some(v) => get(self@, key@) == Some(v@),
                None => get(self@, key@) is None,
            },
    {
        match self {
            Json::Object(o) => o.get(key),
            _ => None,
        }
    }

    /// The value under a key, or null.
    pub fn field(&self, key: &str) -> (r: &Json)
        ensures
            r@ == field(self@, key@),
    {
        match self.get(key) {
            Some(v) => v,
            None => &Json::Null,
        }
    }

    /// The text that this is.
    pub fn as_str(&self) -> (r: Option<&str>)
        ensures
            match r {
                Some(s) => as_text(self@) == Some(s@),
                None => as_text(self@) is None,
            },
    {
        match self {
            Json::Text(s) => Some(s.as_str()),
            _ => None,
        }
    }

    /// The text that this is, or the empty text.
    pub fn str_or_empty(&self) -> (r: &str)
        ensures
            r@ == text_or_empty(self@),
    {
        match self {
            Json::Text(s) => s.as_str(),
            _ => {
                proof {
                    reveal_strlit("");
                }
                assert(""@ =~= Seq::<char>::empty());
                ""
            },
        }
    }

    /// The integer that this is.
    pub fn as_i64(&self) -> (r: Option<i64>)
        ensures
            match r {
                Some(n) => as_int(self@) == Some(n as int),
                None => as_int(self@) is None,
            },
    {
        match self {
            Json::Number(n) => number_as_i64(n),
            _ => None,
        }
    }

    /// The unsigned integer that this is.
    pub fn as_u64(&self) -> (r: Option<u64>)
        ensures
            match r {
                Some(n) => as_index(self@) == Some(n as int),
                None => as_index(self@) is None,
            },
    {
        match self {
            Json::Number(n) => number_as_u64(n),
            _ => None,
        }
    }

    /// The flag that this is.
    pub fn as_bool(&self) -> (r: Option<bool>)
        ensures
            match r {
                Some(b) => self@ == JsonView::Bool(b),
                None => !(self@ is Bool),
            },
    {
        match self {
            Json::Bool(b) => Some(*b),
            _ => None,
        }
    }

    /// The list that this is.
    pub fn as_array(&self) -> (r: Option<&Vec<Json>>)
        ensures
            match r {
                Some(v) => as_list(self@) == Some(json_views(v@)),
                None => as_list(self@) is None,
            },
    {
        match self {
            Json::Array(v) => Some(v),
            _ => None,
        }
    }

    /// Whether this is null.
    pub fn is_null(&self) -> (r: bool)
        ensures
            r == (self@ is Null),
    {
        match self {
            Json::Null => true,
            _ => false,
        }
    }

    /// A copy of the value.
    pub fn copy(&self) -> (r: Json)
        ensures
            r@ == self@,
        decreases self, 1nat,
    {
        match self {
            Json::Null => Json::Null,
            Json::Bool(b) => Json::Bool(*b),
            Json::Number(n) => Json::Number(copy_number(n)),
            Json::Text(s) => Json::Text(s.clone()),
            Json::Array(v) => {
                let mut out: Vec<Json> = Vec::new();
                assert(json_views(v@.take(0)) =~= Seq::empty());
                for i in 0..v.len()
                    invariant
                        json_views(out@) == json_views(v@.take(i as int)),
                        decreases_to!(self => v@),
                {
                    let value = v[i].copy();
                    proof {
                        lemma_json_views_push(out@, value);
                        assert(v@.take(i + 1) =~= v@.take(i as int).push(v@[i as int]));
                        lemma_json_views_push(v@.take(i as int), v@[i as int]);
                    }
                    out.push(value);
                }
                assert(v@.take(v@.len() as int) =~= v@);
                Json::Array(out)
            },
            Json::Object(o) => Json::Object(o.copy()),
        }
    }
}

/// Two values are equal: they denote the same, up to which nought a number is.
pub open spec fn same_value(a: JsonView, b: JsonView) -> bool
    decreases a,
{
    match (a, b) {
        (JsonView::Other(x), JsonView::Other(y)) => same_numeral(x, y),
        (JsonView::Arr(x), JsonView::Arr(y)) => x.len() == y.len() && forall|i: int|
            0 <= i < x.len() ==> same_value(#[trigger] x[i], y[i]),
        (JsonView::Obj(x), JsonView::Obj(y)) => x.len() == y.len() && forall|i: int|
            0 <= i < x.len() ==> (#[trigger] x[i]).0 == y[i].0 && same_value(x[i].1, y[i].1),
        _ => a == b,
    }
}

/// A value is equal to itself.
pub proof fn law_same_value_reflexive(a: JsonView)
    ensures
        same_value(a, a),
    decreases a,
{
    match a {
        JsonView::Arr(x) => {
            assert forall|i: int| 0 <= i < x.len() implies same_value(#[trigger] x[i], x[i]) by {
                law_same_value_reflexive(x[i]);
            }
        },
        JsonView::Obj(x) => {
            assert forall|i: int| 0 <= i < x.len() implies (#[trigger] x[i]).0 == x[i].0
                && same_value(x[i].1, x[i].1) by {
                law_same_value_reflexive(x[i].1);
            }
        },
        _ => {},
    }
}

proof fn lemma_same_value_turns(a: JsonView, b: JsonView)
    requires
        same_value(a, b),
    ensures
        same_value(b, a),
    decreases a,
{
    match (a, b) {
        (JsonView::Arr(x), JsonView::Arr(y)) => {
            assert forall|i: int| 0 <= i < y.len() implies same_value(#[trigger] y[i], x[i]) by {
                lemma_same_value_turns(x[i], y[i]);
            }
        },
        (JsonView::Obj(x), JsonView::Obj(y)) => {
            assert forall|i: int| 0 <= i < y.len() implies (#[trigger] y[i]).0 == x[i].0
                && same_value(y[i].1, x[i].1) by {
                assert(x[i].0 == y[i].0);
                lemma_same_value_turns(x[i].1, y[i].1);
            }
        },
        _ => {},
    }
}

/// Equality of values goes both ways.
pub proof fn law_same_value_symmetric(a: JsonView, b: JsonView)
    ensures
        same_value(a, b) == same_value(b, a),
{
    if same_value(a, b) {
        lemma_same_value_turns(a, b);
    }
    if same_value(b, a) {
        lemma_same_value_turns(b, a);
    }
}

/// Whether two values are equal.
pub fn json_eq(a: &Json, b: &Json) -> (r: bool)
    ensures
        r == same_value(a@, b@),
    decreases a,
{
    match (a, b) {
        (Json::Null, Json::Null) => true,
        (Json::Bool(x), Json::Bool(y)) => *x == *y,
        (Json::Number(x), Json::Number(y)) => numbers_equal(x, y),
        (Json::Text(x), Json::Text(y)) => str_eq(x.as_str(), y.as_str()),
        (Json::Array(x), Json::Array(y)) => {
            proof {
                lemma_json_views(x@);
                lemma_json_views(y@);
            }
            if x.len() != y.len() {
                return false;
            }
            for i in 0..x.len()
                invariant
                    x@.len() == y@.len(),
                    json_views(x@).len() == x@.len(),
                    json_views(y@).len() == y@.len(),
                    forall|k: int| 0 <= k < x@.len() ==> #[trigger] json_views(x@)[k] == x@[k]@,
                    forall|k: int| 0 <= k < y@.len() ==> #[trigger] json_views(y@)[k] == y@[k]@,
                    forall|k: int|
                        0 <= k < i ==> same_value(#[trigger] json_views(x@)[k], json_views(y@)[k]),
                    a@ == JsonView::Arr(json_views(x@)),
                    b@ == JsonView::Arr(json_views(y@)),
                    decreases_to!(a => x@),
            {
                if !json_eq(&x[i], &y[i]) {
                    assert(!same_value(json_views(x@)[i as int], json_views(y@)[i as int]));
                    return false;
                }
            }
            true
        },
        (Json::Object(x), Json::Object(y)) => {
            let p = &x.entries;
            let q = &y.entries;
            proof {
                lemma_entry_views(p@);
                lemma_entry_views(q@);
            }
            if p.len() != q.len() {
                return false;
            }
            for i in 0..p.len()
                invariant
                    p@.len() == q@.len(),
                    entry_views(p@).len() == p@.len(),
                    entry_views(q@).len() == q@.len(),
                    forall|k: int|
                        0 <= k < p@.len() ==> #[trigger] entry_views(p@)[k] == (
                            (p@[k].0)@,
                            (p@[k].1)@,
                        ),
                    forall|k: int|
                        0 <= k < q@.len() ==> #[trigger] entry_views(q@)[k] == (
                            (q@[k].0)@,
                            (q@[k].1)@,
                        ),
                    forall|k: int|
                        0 <= k < i ==> (#[trigger] entry_views(p@)[k]).0 == entry_views(q@)[k].0
                            && same_value(entry_views(p@)[k].1, entry_views(q@)[k].1),
                    a@ == JsonView::Obj(entry_views(p@)),
                    b@ == JsonView::Obj(entry_views(q@)),
                    decreases_to!(a => p@),
            {
                assert(entry_views(p@)[i as int] == ((p@[i as int].0)@, (p@[i as int].1)@));
                assert(entry_views(q@)[i as int] == ((q@[i as int].0)@, (q@[i as int].1)@));
                if !str_eq(p[i].0.as_str(), q[i].0.as_str()) || !json_eq(&p[i].1, &q[i].1) {
                    assert(!(entry_views(p@)[i as int].0 == entry_views(q@)[i as int].0
                        && same_value(entry_views(p@)[i as int].1, entry_views(q@)[i as int].1)));
                    return false;
                }
            }
            true
        },
        _ => false,
    }
}

/// The texts among the elements of a list.
pub fn array_texts(v: &Vec<Json>) -> (r: Vec<String>)
    ensures
        text::texts(r@) == list_texts(json_views(v@)),
{
    let mut out: Vec<String> = Vec::new();
    let ghost all = json_views(v@);
    proof {
        lemma_json_views(v@);
        assert(text::texts(out@) =~= list_texts(all.take(0)));
    }
    for i in 0..v.len()
        invariant
            all == json_views(v@),
            all.len() == v@.len(),
            forall|k: int| 0 <= k < v@.len() ==> #[trigger] all[k] == v@[k]@,
            text::texts(out@) == list_texts(all.take(i as int)),
    {
        let ghost before = out@;
        proof {
            let t = all.take(i + 1);
            assert(t.drop_last() =~= all.take(i as int));
            assert(t.last() == v@[i as int]@);
        }
        if let Some(s) = v[i].as_str() {
            out.push(String::from_str(s));
            assert(text::texts(out@) =~= text::texts(before).push(s@));
        }
    }
    assert(all.take(all.len() as int) =~= all);
    out
}

/// A copy of a list of values.
pub fn copy_list(v: &Vec<Json>) -> (r: Vec<Json>)
    ensures
        json_views(r@) == json_views(v@),
{
    let mut out: Vec<Json> = Vec::new();
    assert(json_views(v@.take(0)) =~= Seq::empty());
    for i in 0..v.len()
        invariant
            json_views(out@) == json_views(v@.take(i as int)),
    {
        let value = v[i].copy();
        proof {
            lemma_json_views_push(out@, value);
            assert(v@.take(i + 1) =~= v@.take(i as int).push(v@[i as int]));
            lemma_json_views_push(v@.take(i as int), v@[i as int]);
        }
        out.push(value);
    }
    assert(v@.take(v@.len() as int) =~= v@);
    out
}

} // verus!
