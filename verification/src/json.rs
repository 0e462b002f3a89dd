//! JSON values.
//!
//! The documents that go over the local socket, to the gateway and to an MCP
//! client, as the client reads and builds them. Numbers that are not integers
//! are carried as they are written: nothing in this client computes with one.
use vstd::prelude::*;
use vstd::string::*;

use crate::text;

verus! {

/// A JSON value.
#[derive(Debug, PartialEq, Eq)]
pub enum Json {
    Null,
    Bool(bool),
    /// An integer from zero up.
    Unsigned(u64),
    /// An integer below zero.
    Negative(i64),
    /// Any other number, as it is written.
    Decimal(String),
    Text(String),
    Array(Vec<Json>),
    /// The entries, in the order in which they are written.
    Object(Vec<(String, Json)>),
}

/// A JSON value, mathematically.
pub enum JsonView {
    Null,
    Bool(bool),
    Unsigned(u64),
    Negative(i64),
    Decimal(Seq<char>),
    Text(Seq<char>),
    Array(Seq<JsonView>),
    Object(Seq<(Seq<char>, JsonView)>),
}

impl View for Json {
    type V = JsonView;

    open spec fn view(&self) -> JsonView
        decreases self,
    {
        match self {
            Json::Null => JsonView::Null,
            Json::Bool(b) => JsonView::Bool(*b),
            Json::Unsigned(n) => JsonView::Unsigned(*n),
            Json::Negative(n) => JsonView::Negative(*n),
            Json::Decimal(s) => JsonView::Decimal(s@),
            Json::Text(s) => JsonView::Text(s@),
            Json::Array(items) => JsonView::Array(
                Seq::new(
                    items@.len(),
                    |i: int|
                        if 0 <= i < items@.len() {
                            items@[i].view()
                        } else {
                            JsonView::Null
                        },
                ),
            ),
            Json::Object(entries) => JsonView::Object(
                Seq::new(
                    entries@.len(),
                    |i: int|
                        if 0 <= i < entries@.len() {
                            (entries@[i].0@, entries@[i].1.view())
                        } else {
                            (Seq::empty(), JsonView::Null)
                        },
                ),
            ),
        }
    }
}

// ---------------------------------------------------------------------------
// Reading and changing
// ---------------------------------------------------------------------------

/// The value of the last entry called `key`.
pub open spec fn entry_of(entries: Seq<(Seq<char>, JsonView)>, key: Seq<char>) -> Option<JsonView>
    decreases entries.len(),
{
    if entries.len() == 0 {
        None
    } else if entries.last().0 == key {
        Some(entries.last().1)
    } else {
        entry_of(entries.drop_last(), key)
    }
}

/// The entries that are not called `key`.
pub open spec fn entries_without(
    entries: Seq<(Seq<char>, JsonView)>,
    key: Seq<char>,
) -> Seq<(Seq<char>, JsonView)>
    decreases entries.len(),
{
    if entries.len() == 0 {
        Seq::empty()
    } else {
        let rest = entries_without(entries.drop_last(), key);
        if entries.last().0 == key {
            rest
        } else {
            rest.push(entries.last())
        }
    }
}

impl JsonView {
    /// An object with no entries.
    pub open spec fn object() -> JsonView {
        JsonView::Object(Seq::empty())
    }

    /// An array with no items.
    pub open spec fn array() -> JsonView {
        JsonView::Array(Seq::empty())
    }

    /// An object with one entry more, which hides what it held under `key`;
    /// nothing else can gain an entry.
    pub open spec fn entry(self, key: Seq<char>, value: JsonView) -> JsonView {
        match self {
            JsonView::Object(entries) => JsonView::Object(entries.push((key, value))),
            other => other,
        }
    }

    /// An array with one item more; nothing else can gain an item.
    pub open spec fn item(self, value: JsonView) -> JsonView {
        match self {
            JsonView::Array(items) => JsonView::Array(items.push(value)),
            other => other,
        }
    }

    /// What an object holds under `key`.
    pub open spec fn field(self, key: Seq<char>) -> Option<JsonView> {
        match self {
            JsonView::Object(entries) => entry_of(entries, key),
            _ => None,
        }
    }

    /// What an object holds under `key`, or null.
    pub open spec fn at(self, key: Seq<char>) -> JsonView {
        match self.field(key) {
            Some(value) => value,
            None => JsonView::Null,
        }
    }

    /// The characters of a text.
    pub open spec fn as_text(self) -> Option<Seq<char>> {
        match self {
            JsonView::Text(s) => Some(s),
            _ => None,
        }
    }

    /// The items of an array; none of anything else.
    pub open spec fn items(self) -> Seq<JsonView> {
        match self {
            JsonView::Array(items) => items,
            _ => Seq::empty(),
        }
    }

    /// The text under `key`, or `otherwise`.
    pub open spec fn text_or(self, key: Seq<char>, otherwise: Seq<char>) -> Seq<char> {
        match self.at(key).as_text() {
            Some(s) => s,
            None => otherwise,
        }
    }

    /// An object without what it holds under `key`; anything else unchanged.
    pub open spec fn without(self, key: Seq<char>) -> JsonView {
        match self {
            JsonView::Object(entries) => JsonView::Object(entries_without(entries, key)),
            other => other,
        }
    }

    /// An object that holds `value` under `key`, and under every other key
    /// what it held; anything else unchanged.
    pub open spec fn with(self, key: Seq<char>, value: JsonView) -> JsonView {
        self.without(key).entry(key, value)
    }
}

/// What an object without `key` does not hold is anything under `key`.
pub proof fn lemma_without(entries: Seq<(Seq<char>, JsonView)>, key: Seq<char>)
    ensures
        entry_of(entries_without(entries, key), key) is None,
    decreases entries.len(),
{
    if entries.len() > 0 {
        lemma_without(entries.drop_last(), key);
        let rest = entries_without(entries.drop_last(), key);
        lemma_entry_pushed(rest, entries.last().0, entries.last().1, key);
    }
}

/// What is not there is not there once something else is taken away.
pub proof fn lemma_kept(entries: Seq<(Seq<char>, JsonView)>, key: Seq<char>, other: Seq<char>)
    requires
        key != other,
    ensures
        entry_of(entries_without(entries, key), other) == entry_of(entries, other),
    decreases entries.len(),
{
    if entries.len() > 0 {
        let last = entries.last();
        let rest = entries_without(entries.drop_last(), key);
        lemma_kept(entries.drop_last(), key, other);
        assert(entries.drop_last().push(last) =~= entries);
        lemma_entry_pushed(entries.drop_last(), last.0, last.1, other);
        lemma_entry_pushed(rest, last.0, last.1, other);
    }
}

/// An entry at the end is found under its name, and hides no other.
pub proof fn lemma_entry_pushed(
    entries: Seq<(Seq<char>, JsonView)>,
    key: Seq<char>,
    value: JsonView,
    name: Seq<char>,
)
    ensures
        entry_of(entries.push((key, value)), name) == if key == name {
            Some(value)
        } else {
            entry_of(entries, name)
        },
{
    assert(entries.push((key, value)).drop_last() =~= entries);
}

/// What an object holds once it has gained an entry.
pub broadcast proof fn lemma_field_of_entry(
    object: JsonView,
    key: Seq<char>,
    value: JsonView,
    name: Seq<char>,
)
    requires
        object is Object,
    ensures
        (#[trigger] object.entry(key, value).field(name)) == if key == name {
            Some(value)
        } else {
            object.field(name)
        },
{
    lemma_entry_pushed(object->Object_0, key, value, name);
}

/// The values of a sequence.
pub open spec fn views(values: Seq<Json>) -> Seq<JsonView> {
    values.map_values(|value: Json| value@)
}

/// The entries of an object.
pub open spec fn entry_views(entries: Seq<(String, Json)>) -> Seq<(Seq<char>, JsonView)> {
    entries.map_values(|entry: (String, Json)| (entry.0@, entry.1@))
}

/// An array is made of the values of its items.
pub broadcast proof fn lemma_array(items: Vec<Json>)
    ensures
        #[trigger] Json::Array(items)@ == JsonView::Array(views(items@)),
{
    reveal_with_fuel(<Json as View>::view, 2);
    assert(Json::Array(items)@->Array_0 =~= views(items@));
}

/// An object is made of the names and values of its entries.
pub broadcast proof fn lemma_object(entries: Vec<(String, Json)>)
    ensures
        #[trigger] Json::Object(entries)@ == JsonView::Object(entry_views(entries@)),
{
    reveal_with_fuel(<Json as View>::view, 2);
    assert(Json::Object(entries)@->Object_0 =~= entry_views(entries@));
}

/// The texts among values, in their order.
pub open spec fn texts_among(values: Seq<JsonView>) -> Seq<Seq<char>>
    decreases values.len(),
{
    if values.len() == 0 {
        Seq::empty()
    } else {
        let before = texts_among(values.drop_last());
        match values.last() {
            JsonView::Text(s) => before.push(s),
            _ => before,
        }
    }
}

/// A text that may be absent, as JSON.
pub open spec fn text_or_null(text: Option<Seq<char>>) -> JsonView {
    match text {
        Some(s) => JsonView::Text(s),
        None => JsonView::Null,
    }
}

impl Clone for Json {
    /// The same value again.
    fn clone(&self) -> (r: Json)
        ensures
            r@ == self@,
        decreases self,
    {
        broadcast use {lemma_array, lemma_object};

        match self {
            Json::Null => Json::Null,
            Json::Bool(b) => Json::Bool(*b),
            Json::Unsigned(n) => Json::Unsigned(*n),
            Json::Negative(n) => Json::Negative(*n),
            Json::Decimal(s) => Json::Decimal(s.clone()),
            Json::Text(s) => Json::Text(s.clone()),
            Json::Array(items) => {
                let mut out: Vec<Json> = Vec::new();
                let mut i: usize = 0;
                while i < items.len()
                    invariant
                        i <= items@.len(),
                        *self == Json::Array(*items),
                        out@.len() == i,
                        forall|j: int| 0 <= j < i ==> out@[j].view() == items@[j].view(),
                    decreases items@.len() - i,
                {
                    assert(decreases_to!(self => self->Array_0));
                    assert(decreases_to!(items => items[i as int]));
                    out.push(items[i].clone());
                    i = i + 1;
                }
                let r = Json::Array(out);
                assert(r@->Array_0 =~= self@->Array_0);
                r
            },
            Json::Object(entries) => {
                let mut out: Vec<(String, Json)> = Vec::new();
                let mut i: usize = 0;
                while i < entries.len()
                    invariant
                        i <= entries@.len(),
                        *self == Json::Object(*entries),
                        out@.len() == i,
                        forall|j: int|
                            0 <= j < i ==> out@[j].0@ == entries@[j].0@ && out@[j].1.view()
                                == entries@[j].1.view(),
                    decreases entries@.len() - i,
                {
                    assert(decreases_to!(self => self->Object_0));
                    assert(decreases_to!(entries => entries[i as int]));
                    assert(decreases_to!(entries[i as int] => entries[i as int].1));
                    out.push((entries[i].0.clone(), entries[i].1.clone()));
                    i = i + 1;
                }
                let r = Json::Object(out);
                assert(r@->Object_0 =~= self@->Object_0);
                r
            },
        }
    }
}

// ---------------------------------------------------------------------------
// Reading and writing text
// ---------------------------------------------------------------------------

/// An integer, written in decimal.
pub open spec fn integer(n: int) -> Seq<char> {
    if n < 0 {
        seq!['-'] + text::decimal((-n) as nat)
    } else {
        text::decimal(n as nat)
    }
}

/// How many arrays and objects stand inside one another.
pub open spec fn depth(value: JsonView) -> nat
    decreases value,
{
    match value {
        JsonView::Array(items) => 1 + depth_of_items(items),
        JsonView::Object(entries) => 1 + depth_of_entries(entries),
        _ => 0,
    }
}

/// The depth of the deepest item.
pub open spec fn depth_of_items(items: Seq<JsonView>) -> nat
    decreases items,
{
    if items.len() == 0 {
        0
    } else {
        let last = depth(items[items.len() - 1]);
        let others = depth_of_items(items.subrange(0, items.len() - 1));
        if last > others {
            last
        } else {
            others
        }
    }
}

/// The depth of the deepest entry.
pub open spec fn depth_of_entries(entries: Seq<(Seq<char>, JsonView)>) -> nat
    decreases entries,
{
    if entries.len() == 0 {
        0
    } else {
        let last = depth(entries[entries.len() - 1].1);
        let others = depth_of_entries(entries.subrange(0, entries.len() - 1));
        if last > others {
            last
        } else {
            others
        }
    }
}

/// The deepest nesting that the reader accepts.
pub const MAX_DEPTH: usize = 127;

/// `serde_json::Value`, a JSON value in memory.
#[verifier::external_type_specification]
#[verifier::external_body]
pub struct ExValue(serde_json::Value);

/// What a `serde_json::Value` holds, the entries of its objects in the order
/// in which the map hands them out.
pub uninterp spec fn document(value: serde_json::Value) -> JsonView;

/// What `serde_json::from_str` reads in a text, or the sentence it fails with.
pub uninterp spec fn parsed(text: Seq<char>) -> Result<JsonView, Seq<char>>;

/// What `serde_json::Number` makes of the text of a number that is no integer.
pub uninterp spec fn renumbered(number: Seq<char>) -> JsonView;

/// How a `serde_json::Value` prints a text, an array, an object or a number
/// that is no integer.
pub uninterp spec fn printed(value: JsonView) -> Seq<char>;

/// One name comes before another: by the first character in which they differ,
/// or because it is the beginning of the other.
pub open spec fn precedes(a: Seq<char>, b: Seq<char>) -> bool
    decreases a.len(),
{
    if b.len() == 0 {
        false
    } else if a.len() == 0 {
        true
    } else if a[0] == b[0] {
        precedes(a.drop_first(), b.drop_first())
    } else {
        (a[0] as int) < (b[0] as int)
    }
}

/// Entries in the order of their names, with `value` under `key`: in place of
/// what is there under that name, or else where the order has it.
pub open spec fn inserted(
    entries: Seq<(Seq<char>, JsonView)>,
    key: Seq<char>,
    value: JsonView,
) -> Seq<(Seq<char>, JsonView)>
    decreases entries.len(),
{
    if entries.len() == 0 || precedes(entries.last().0, key) {
        entries.push((key, value))
    } else if entries.last().0 == key {
        entries.drop_last().push((key, value))
    } else {
        inserted(entries.drop_last(), key, value).push(entries.last())
    }
}

/// A value as serde_json keeps it: an object has one entry for each name, the
/// last of that name, in the order of the names. Everything else stays as it
/// is.
pub open spec fn stored(value: JsonView) -> JsonView
    decreases value,
{
    match value {
        JsonView::Array(items) => JsonView::Array(
            Seq::new(
                items.len(),
                |i: int|
                    if 0 <= i < items.len() {
                        stored(items[i])
                    } else {
                        JsonView::Null
                    },
            ),
        ),
        JsonView::Object(entries) => JsonView::Object(stored_entries(entries)),
        JsonView::Decimal(number) => renumbered(number),
        JsonView::Negative(n) => if n < 0 {
            value
        } else {
            JsonView::Unsigned(n as u64)
        },
        other => other,
    }
}

/// The entries of an object as serde_json keeps them.
pub open spec fn stored_entries(entries: Seq<(Seq<char>, JsonView)>) -> Seq<(Seq<char>, JsonView)>
    decreases entries,
{
    if entries.len() == 0 {
        Seq::empty()
    } else {
        let last = entries[entries.len() - 1];
        inserted(
            stored_entries(entries.subrange(0, entries.len() - 1)),
            last.0,
            stored(last.1),
        )
    }
}

proof fn lemma_inserted(
    entries: Seq<(Seq<char>, JsonView)>,
    key: Seq<char>,
    value: JsonView,
    name: Seq<char>,
)
    ensures
        entry_of(inserted(entries, key, value), name) == if key == name {
            Some(value)
        } else {
            entry_of(entries, name)
        },
    decreases entries.len(),
{
    if entries.len() == 0 || precedes(entries.last().0, key) {
        lemma_entry_pushed(entries, key, value, name);
    } else if entries.last().0 == key {
        lemma_entry_pushed(entries.drop_last(), key, value, name);
    } else {
        let last = entries.last();
        lemma_inserted(entries.drop_last(), key, value, name);
        lemma_entry_pushed(inserted(entries.drop_last(), key, value), last.0, last.1, name);
    }
}

proof fn lemma_stored_entries(entries: Seq<(Seq<char>, JsonView)>, key: Seq<char>)
    ensures
        entry_of(stored_entries(entries), key) == match entry_of(entries, key) {
            Some(value) => Some(stored(value)),
            None => None,
        },
    decreases entries.len(),
{
    if entries.len() > 0 {
        let last = entries.last();
        let rest = entries.subrange(0, entries.len() - 1);
        assert(rest =~= entries.drop_last());
        lemma_stored_entries(rest, key);
        lemma_inserted(stored_entries(rest), last.0, stored(last.1), key);
    }
}

/// An object that is written holds under each name what it held before, which
/// is written in the same way, and under no other name anything. So every part
/// of a document is found again where it was, however deep.
pub proof fn what_is_written_is_found_under_its_name(value: JsonView, key: Seq<char>)
    requires
        value is Object,
    ensures
        stored(value).field(key) == match value.field(key) {
            Some(part) => Some(stored(part)),
            None => None,
        },
{
    lemma_stored_entries(value->Object_0, key);
}

proof fn lemma_precedes_total(a: Seq<char>, b: Seq<char>)
    requires
        a != b,
        !precedes(a, b),
    ensures
        precedes(b, a),
    decreases a.len(),
{
    if a.len() == 0 {
        assert(b.len() == 0);
        assert(a =~= b);
    } else if b.len() > 0 && a[0] == b[0] {
        if a.drop_first() == b.drop_first() {
            assert(a =~= seq![a[0]] + a.drop_first());
            assert(b =~= seq![b[0]] + b.drop_first());
        }
        lemma_precedes_total(a.drop_first(), b.drop_first());
    }
}

proof fn lemma_precedes_transitive(a: Seq<char>, b: Seq<char>, c: Seq<char>)
    requires
        precedes(a, b),
        precedes(b, c),
    ensures
        precedes(a, c),
    decreases a.len(),
{
    if a.len() > 0 && a[0] == b[0] && b[0] == c[0] {
        lemma_precedes_transitive(a.drop_first(), b.drop_first(), c.drop_first());
    }
}

/// Every name comes before the names behind it, so that none occurs twice.
pub open spec fn ascending(entries: Seq<(Seq<char>, JsonView)>) -> bool {
    forall|i: int, j: int|
        #![trigger entries[i], entries[j]]
        0 <= i < j < entries.len() ==> precedes(entries[i].0, entries[j].0)
}

proof fn lemma_inserted_below(
    entries: Seq<(Seq<char>, JsonView)>,
    key: Seq<char>,
    value: JsonView,
    bound: Seq<char>,
)
    requires
        precedes(key, bound),
        forall|i: int|
            0 <= i < entries.len() ==> precedes((#[trigger] entries[i]).0, bound),
    ensures
        forall|i: int|
            0 <= i < inserted(entries, key, value).len() ==> precedes(
                (#[trigger] inserted(entries, key, value)[i]).0,
                bound,
            ),
    decreases entries.len(),
{
    let result = inserted(entries, key, value);
    if entries.len() > 0 {
        let rest = entries.drop_last();
        assert forall|i: int| 0 <= i < rest.len() implies precedes(
            (#[trigger] rest[i]).0,
            bound,
        ) by {
            assert(rest[i] == entries[i]);
        }
        if !precedes(entries.last().0, key) && entries.last().0 != key {
            lemma_inserted_below(rest, key, value, bound);
        }
        assert forall|i: int| 0 <= i < result.len() implies precedes(
            (#[trigger] result[i]).0,
            bound,
        ) by {
            assert(precedes(entries[entries.len() - 1].0, bound));
            if precedes(entries.last().0, key) || entries.last().0 == key {
                if i < entries.len() {
                    assert(precedes(entries[i].0, bound));
                }
            } else if i < inserted(rest, key, value).len() {
                assert(result[i] == inserted(rest, key, value)[i]);
            }
        }
    }
}

proof fn lemma_inserted_ascending(
    entries: Seq<(Seq<char>, JsonView)>,
    key: Seq<char>,
    value: JsonView,
)
    requires
        ascending(entries),
    ensures
        ascending(inserted(entries, key, value)),
    decreases entries.len(),
{
    if entries.len() > 0 {
        let last = entries.last();
        let rest = entries.drop_last();
        let result = inserted(entries, key, value);
        if precedes(last.0, key) {
            assert forall|i: int, j: int|
                #![trigger result[i], result[j]]
                0 <= i < j < result.len() implies precedes(result[i].0, result[j].0) by {
                assert(result[i] == entries[i]);
                if j < entries.len() {
                    assert(result[j] == entries[j]);
                } else if i < entries.len() - 1 {
                    assert(precedes(entries[i].0, entries[entries.len() - 1].0));
                    lemma_precedes_transitive(entries[i].0, last.0, key);
                }
            }
        } else if last.0 == key {
            assert forall|i: int, j: int|
                #![trigger result[i], result[j]]
                0 <= i < j < result.len() implies precedes(result[i].0, result[j].0) by {
                assert(result[i].0 == entries[i].0);
                assert(result[j].0 == entries[j].0);
                assert(precedes(entries[i].0, entries[j].0));
            }
        } else {
            assert(ascending(rest)) by {
                assert forall|i: int, j: int|
                    #![trigger rest[i], rest[j]]
                    0 <= i < j < rest.len() implies precedes(rest[i].0, rest[j].0) by {
                    assert(precedes(entries[i].0, entries[j].0));
                }
            }
            lemma_inserted_ascending(rest, key, value);
            lemma_precedes_total(last.0, key);
            assert forall|i: int| 0 <= i < rest.len() implies precedes(
                (#[trigger] rest[i]).0,
                last.0,
            ) by {
                assert(precedes(entries[i].0, entries[entries.len() - 1].0));
            }
            lemma_inserted_below(rest, key, value, last.0);
            let inner = inserted(rest, key, value);
            assert forall|i: int, j: int|
                #![trigger result[i], result[j]]
                0 <= i < j < result.len() implies precedes(result[i].0, result[j].0) by {
                assert(result[i] == inner[i]);
                if j < inner.len() {
                    assert(result[j] == inner[j]);
                }
            }
        }
    }
}

/// The entries of an object are written in the order of their names, and each
/// name once.
pub proof fn names_are_written_in_order_and_once(entries: Seq<(Seq<char>, JsonView)>)
    ensures
        ascending(stored_entries(entries)),
    decreases entries.len(),
{
    if entries.len() > 0 {
        let last = entries.last();
        let rest = entries.subrange(0, entries.len() - 1);
        names_are_written_in_order_and_once(rest);
        lemma_inserted_ascending(stored_entries(rest), last.0, stored(last.1));
    }
}

/// A value, written without any space.
pub open spec fn compact(value: JsonView) -> Seq<char> {
    match value {
        JsonView::Null => "null"@,
        JsonView::Bool(b) => if b {
            "true"@
        } else {
            "false"@
        },
        JsonView::Unsigned(n) => integer(n as int),
        JsonView::Negative(n) => integer(n as int),
        other => printed(other),
    }
}

/// `serde_json::from_str` into a `serde_json::Value`: the value, or the
/// sentence that says what is wrong with the text. Either depends on the text
/// alone.
#[verifier::external_body]
fn read(text: &str) -> (r: Result<serde_json::Value, String>)
    ensures
        match r {
            Ok(value) => parsed(text@) is Ok && parsed(text@)->Ok_0 == document(value),
            Err(message) => parsed(text@) is Err && parsed(text@)->Err_0 == message@,
        },
{
    serde_json::from_str::<serde_json::Value>(text).map_err(|e| e.to_string())
}

/// The variants and fields of a `serde_json::Value`, one for one. A
/// `serde_json::Number` is from zero up, below zero, or no integer.
#[verifier::external_body]
fn from_value(value: serde_json::Value) -> (r: Json)
    ensures
        r@ == document(value),
{
    match value {
        serde_json::Value::Null => Json::Null,
        serde_json::Value::Bool(b) => Json::Bool(b),
        serde_json::Value::Number(n) => match (n.as_u64(), n.as_i64()) {
            (Some(n), _) => Json::Unsigned(n),
            (None, Some(n)) => Json::Negative(n),
            (None, None) => Json::Decimal(n.to_string()),
        },
        serde_json::Value::String(s) => Json::Text(s),
        serde_json::Value::Array(v) => Json::Array(v.into_iter().map(from_value).collect()),
        serde_json::Value::Object(m) => {
            Json::Object(m.into_iter().map(|e| (e.0, from_value(e.1))).collect())
        },
    }
}

/// A `serde_json::Value` of the same variants and fields. An array keeps its
/// items; null, booleans, integers and texts are kept as they are. The entries
/// of an object go one by one into a `serde_json::Map`, where
/// `serde_json::Map::insert` updates the value of a name that is there already.
/// That map is a `BTreeMap`, which hands its entries out in the order of their
/// names; the order of two `String`s is that of their characters. What
/// `serde_json::Number` makes of a number that is no integer depends on its
/// text alone.
#[verifier::external_body]
fn to_value(value: &Json) -> (r: serde_json::Value)
    ensures
        document(r) == stored(value@),
        value@ is Decimal ==> document(r) == renumbered(value@->Decimal_0),
{
    match value {
        Json::Null => serde_json::Value::Null,
        Json::Bool(b) => serde_json::Value::Bool(*b),
        Json::Unsigned(n) => serde_json::Value::from(*n),
        Json::Negative(n) => serde_json::Value::from(*n),
        Json::Decimal(s) => s.parse().map(serde_json::Value::Number).unwrap_or_default(),
        Json::Text(s) => serde_json::Value::String(s.clone()),
        Json::Array(v) => serde_json::Value::Array(v.iter().map(to_value).collect()),
        Json::Object(v) => {
            let mut map = serde_json::Map::new();
            for e in v { map.insert(e.0.clone(), to_value(&e.1)); }
            serde_json::Value::Object(map)
        },
    }
}

/// `serde_json::Value` printed with `{}`: JSON without any space, which
/// depends on what the value holds alone. Null, booleans and integers print as
/// in every other language. `serde_json::from_str` reads back what was
/// printed, unless it is nested deeper than the reader accepts.
#[verifier::external_body]
fn print(value: &serde_json::Value) -> (r: String)
    ensures
        r@ == compact(document(*value)),
        document(*value) is Text || document(*value) is Array || document(*value) is Object
            || document(*value) is Decimal ==> r@ == printed(document(*value)),
        depth(document(*value)) <= MAX_DEPTH ==> parsed(r@) is Ok && parsed(r@)->Ok_0 == document(
            *value,
        ),
{
    value.to_string()
}

/// How `serde_json::to_string_pretty` lays a value out over several lines.
pub uninterp spec fn laid_out(value: JsonView) -> Seq<char>;

/// `serde_json::to_string_pretty` of a `serde_json::Value`: JSON with an entry
/// or an item to a line, which depends on what the value holds alone. Null,
/// booleans and integers are written as ever, and `serde_json::from_str` reads
/// back what was written, unless it is nested deeper than the reader accepts.
#[verifier::external_body]
fn print_pretty(value: &serde_json::Value) -> (r: String)
    ensures
        r@ == laid_out(document(*value)),
        document(*value) is Null || document(*value) is Bool || document(*value) is Unsigned
            || document(*value) is Negative ==> r@ == compact(document(*value)),
        depth(document(*value)) <= MAX_DEPTH ==> parsed(r@) is Ok && parsed(r@)->Ok_0 == document(
            *value,
        ),
{
    serde_json::to_string_pretty(value).unwrap_or_default()
}

/// The texts among values, in their order.
pub fn texts(values: &Vec<Json>) -> (r: Vec<String>)
    ensures
        text::texts(r@) == texts_among(views(values@)),
{
    let ghost all = views(values@);
    let mut out: Vec<String> = Vec::new();
    let mut i: usize = 0;
    assert(text::texts(out@) =~= texts_among(all.take(0)));
    while i < values.len()
        invariant
            i <= values@.len(),
            all == views(values@),
            text::texts(out@) == texts_among(all.take(i as int)),
        decreases values@.len() - i,
    {
        let ghost next = all.take(i + 1);
        let ghost before = out@;
        assert(next.drop_last() =~= all.take(i as int));
        assert(next.last() == values@[i as int]@);
        match values[i].as_str() {
            Some(s) => {
                out.push(s.to_owned());
                assert(text::texts(out@) =~= text::texts(before).push(s@));
            },
            None => {},
        }
        i = i + 1;
    }
    assert(all.take(i as int) =~= all);
    out
}

/// Texts, as JSON.
pub open spec fn text_array(list: Seq<Seq<char>>) -> JsonView {
    JsonView::Array(list.map_values(|s: Seq<char>| JsonView::Text(s)))
}

/// A list of texts.
pub fn array_of(list: &Vec<String>) -> (r: Json)
    ensures
        r@ == text_array(text::texts(list@)),
{
    let ghost all = text::texts(list@).map_values(|s: Seq<char>| JsonView::Text(s));
    let mut out = Json::array();
    let mut i: usize = 0;
    assert(all.take(0) =~= Seq::empty());
    while i < list.len()
        invariant
            i <= list@.len(),
            all == text::texts(list@).map_values(|s: Seq<char>| JsonView::Text(s)),
            out@ == JsonView::Array(all.take(i as int)),
        decreases list@.len() - i,
    {
        out = out.item(Json::text(list[i].as_str()));
        assert(all.take(i + 1) =~= all.take(i as int).push(JsonView::Text(list@[i as int]@)));
        i = i + 1;
    }
    assert(all.take(i as int) =~= all);
    out
}

/// The value that a text holds, or the sentence that says what is wrong with
/// the text.
pub fn parse(text: &str) -> (r: Result<Json, String>)
    ensures
        match r {
            Ok(value) => parsed(text@) is Ok && parsed(text@)->Ok_0 == value@,
            Err(message) => parsed(text@) is Err && parsed(text@)->Err_0 == message@,
        },
{
    match read(text) {
        Ok(value) => Ok(from_value(value)),
        Err(message) => Err(message),
    }
}

impl Json {
    /// A text.
    pub fn text(s: &str) -> (r: Json)
        ensures
            r@ == JsonView::Text(s@),
    {
        Json::Text(s.to_owned())
    }

    /// A text, or null when there is none.
    pub fn optional(s: &Option<String>) -> (r: Json)
        ensures
            r@ == text_or_null(text::optional(*s)),
    {
        match s {
            Some(s) => Json::Text(s.clone()),
            None => Json::Null,
        }
    }

    /// An object with no entries.
    pub fn object() -> (r: Json)
        ensures
            r@ == JsonView::object(),
    {
        broadcast use {lemma_array, lemma_object};

        let r = Json::Object(Vec::new());
        assert(r@->Object_0 =~= Seq::<(Seq<char>, JsonView)>::empty());
        r
    }

    /// An array with no items.
    pub fn array() -> (r: Json)
        ensures
            r@ == JsonView::array(),
    {
        broadcast use {lemma_array, lemma_object};

        let r = Json::Array(Vec::new());
        assert(r@->Array_0 =~= Seq::<JsonView>::empty());
        r
    }

    /// An object with one entry more.
    pub fn entry(self, key: &str, value: Json) -> (r: Json)
        ensures
            r@ == self@.entry(key@, value@),
    {
        broadcast use {lemma_array, lemma_object};

        match self {
            Json::Object(entries) => {
                let mut entries = entries;
                let ghost before = self@->Object_0;
                entries.push((key.to_owned(), value));
                let r = Json::Object(entries);
                assert(r@->Object_0 =~= before.push((key@, value@)));
                r
            },
            other => other,
        }
    }

    /// An array with one item more.
    pub fn item(self, value: Json) -> (r: Json)
        ensures
            r@ == self@.item(value@),
    {
        broadcast use {lemma_array, lemma_object};

        match self {
            Json::Array(items) => {
                let mut items = items;
                let ghost before = self@->Array_0;
                items.push(value);
                let r = Json::Array(items);
                assert(r@->Array_0 =~= before.push(value@));
                r
            },
            other => other,
        }
    }

    /// What an object holds under `key`.
    pub fn get(&self, key: &str) -> (r: Option<&Json>)
        ensures
            match r {
                Some(value) => self@.field(key@) == Some(value@),
                None => self@.field(key@) is None,
            },
    {
        broadcast use {lemma_array, lemma_object};

        match self {
            Json::Object(entries) => {
                let ghost all = entry_views(entries@);
                let mut i: usize = entries.len();
                assert(all.take(i as int) =~= all);
                while i > 0
                    invariant
                        i <= entries@.len(),
                        self@ == JsonView::Object(all),
                        all == entry_views(entries@),
                        entry_of(all, key@) == entry_of(all.take(i as int), key@),
                    decreases i,
                {
                    let ghost head = all.take(i as int);
                    i = i - 1;
                    assert(head.last() == (entries@[i as int].0@, entries@[i as int].1@));
                    if text::same(entries[i].0.as_str(), key) {
                        return Some(&entries[i].1);
                    }
                    assert(head.drop_last() =~= all.take(i as int));
                }
                None
            },
            _ => None,
        }
    }

    /// The text that a value is.
    pub fn as_str(&self) -> (r: Option<&str>)
        ensures
            text::optional_str(r) == self@.as_text(),
    {
        match self {
            Json::Text(s) => Some(s.as_str()),
            _ => None,
        }
    }

    /// The text that an object holds under `key`.
    pub fn text_at(&self, key: &str) -> (r: Option<&str>)
        ensures
            text::optional_str(r) == self@.at(key@).as_text(),
    {
        match self.get(key) {
            Some(value) => value.as_str(),
            None => None,
        }
    }

    /// The text that an object holds under `key`, or `otherwise`.
    pub fn text_or<'a>(&'a self, key: &str, otherwise: &'a str) -> (r: &'a str)
        ensures
            r@ == self@.text_or(key@, otherwise@),
    {
        match self.text_at(key) {
            Some(s) => s,
            None => otherwise,
        }
    }

    /// What an object holds under `key`, or null.
    pub fn at(&self, key: &str) -> (r: Json)
        ensures
            r@ == self@.at(key@),
    {
        match self.get(key) {
            Some(value) => value.clone(),
            None => Json::Null,
        }
    }

    /// The items of the array that an object holds under `key`.
    pub fn items_at(&self, key: &str) -> (r: Vec<Json>)
        ensures
            views(r@) == self@.at(key@).items(),
    {
        broadcast use {lemma_array, lemma_object};

        match self.get(key) {
            Some(Json::Array(items)) => {
                let ghost all = views(items@);
                let mut out: Vec<Json> = Vec::new();
                let mut i: usize = 0;
                while i < items.len()
                    invariant
                        i <= items@.len(),
                        all == views(items@),
                        views(out@) == all.take(i as int),
                    decreases items@.len() - i,
                {
                    let ghost before = out@;
                    out.push(items[i].clone());
                    assert(views(out@) =~= views(before).push(items@[i as int]@));
                    assert(all.take(i + 1) =~= all.take(i as int).push(
                        items@[i as int]@,
                    ));
                    i = i + 1;
                }
                assert(all.take(i as int) =~= all);
                out
            },
            _ => {
                let out: Vec<Json> = Vec::new();
                assert(views(out@) =~= Seq::<JsonView>::empty());
                out
            },
        }
    }

    /// An object without what it holds under `key`.
    pub fn without(self, key: &str) -> (r: Json)
        ensures
            r@ == self@.without(key@),
    {
        broadcast use {lemma_array, lemma_object};

        match self {
            Json::Object(entries) => {
                let ghost all = entry_views(entries@);
                let mut out: Vec<(String, Json)> = Vec::new();
                let mut i: usize = 0;
                assert(entry_views(out@) =~= entries_without(all.take(0), key@));
                while i < entries.len()
                    invariant
                        i <= entries@.len(),
                        all == entry_views(entries@),
                        entry_views(out@) == entries_without(all.take(i as int), key@),
                    decreases entries@.len() - i,
                {
                    let ghost next = all.take(i + 1);
                    let ghost before = entry_views(out@);
                    assert(next.drop_last() =~= all.take(i as int));
                    assert(next.last() == (entries@[i as int].0@, entries@[i as int].1@));
                    if !text::same(entries[i].0.as_str(), key) {
                        out.push((entries[i].0.clone(), entries[i].1.clone()));
                        assert(entry_views(out@) =~= before.push(next.last()));
                    }
                    i = i + 1;
                }
                assert(all.take(i as int) =~= all);
                Json::Object(out)
            },
            other => other,
        }
    }

    /// An object that holds `value` under `key`.
    pub fn with(self, key: &str, value: Json) -> (r: Json)
        ensures
            r@ == self@.with(key@, value@),
    {
        self.without(key).entry(key, value)
    }

    /// The value that a `serde_json::Value` holds.
    pub fn from_serde(value: serde_json::Value) -> (r: Json)
        ensures
            r@ == document(value),
    {
        from_value(value)
    }

    /// The same value as a `serde_json::Value`.
    pub fn to_serde(&self) -> (r: serde_json::Value)
        ensures
            document(r) == stored(self@),
    {
        to_value(self)
    }

    /// A value, written as JSON over several lines, for a person to read.
    /// [`parse`] reads it back.
    pub fn to_pretty_text(&self) -> (r: String)
        ensures
            r@ == laid_out(stored(self@)),
            depth(stored(self@)) <= MAX_DEPTH ==> parsed(r@) is Ok && parsed(r@)->Ok_0 == stored(
                self@,
            ),
    {
        print_pretty(&to_value(self))
    }

    /// A value, written as JSON without any space. [`parse`] reads it back.
    pub fn to_text(&self) -> (r: String)
        ensures
            r@ == compact(stored(self@)),
            depth(stored(self@)) <= MAX_DEPTH ==> parsed(r@) is Ok && parsed(r@)->Ok_0 == stored(
                self@,
            ),
    {
        print(&to_value(self))
    }
}

/// A list of texts is written with one item for each, and read back.
pub proof fn a_list_of_texts_is_read_back(list: Vec<String>, r: Json, items: Vec<Json>, back: Vec<String>)
    requires
        call_ensures(array_of, (&list,), r),
        views(items@) == r@.items(),
        call_ensures(texts, (&items,), back),
    ensures
        text::texts(back@) == text::texts(list@),
        r@.items().len() == list@.len(),
{
    lemma_texts_among(text::texts(list@));
}

/// The texts among texts are all of them.
pub proof fn lemma_texts_among(list: Seq<Seq<char>>)
    ensures
        texts_among(text_array(list).items()) == list,
    decreases list.len(),
{
    let items = text_array(list).items();
    if list.len() > 0 {
        let rest = list.drop_last();
        lemma_texts_among(rest);
        assert(items.drop_last() =~= text_array(rest).items());
        assert(items.last() == JsonView::Text(list.last()));
        assert(rest.push(list.last()) =~= list);
    } else {
        assert(texts_among(items) =~= list);
    }
}

/// An object that was changed under one name holds the new value there, and
/// under every other name what it held.
pub proof fn a_change_leaves_the_rest_alone(
    object: Json,
    key: &str,
    value: Json,
    r: Json,
    name: Seq<char>,
)
    requires
        object@ is Object,
        call_ensures(Json::with, (object, key, value), r),
    ensures
        r@.field(name) == if name == key@ {
            Some(value@)
        } else {
            object@.field(name)
        },
{
    let entries = object@->Object_0;
    let bare = entries_without(entries, key@);
    lemma_entry_pushed(bare, key@, value@, name);
    if name != key@ {
        lemma_kept(entries, key@, name);
    }
}

/// An object from which a name was taken holds nothing there, and under every
/// other name what it held.
pub proof fn a_removal_leaves_the_rest_alone(object: Json, key: &str, r: Json, name: Seq<char>)
    requires
        object@ is Object,
        call_ensures(Json::without, (object, key), r),
    ensures
        r@.field(name) == if name == key@ {
            None
        } else {
            object@.field(name)
        },
{
    if name == key@ {
        lemma_without(object@->Object_0, key@);
    } else {
        lemma_kept(object@->Object_0, key@, name);
    }
}

/// An object that gained an entry holds it, and under every other name what it
/// held; a list that gained an item ends with it.
pub proof fn what_is_added_is_there(
    object: Json,
    key: &str,
    value: Json,
    r: Json,
    name: Seq<char>,
    list: Json,
    item: Json,
    longer: Json,
)
    requires
        object@ is Object,
        call_ensures(Json::entry, (object, key, value), r),
        list@ is Array,
        call_ensures(Json::item, (list, item), longer),
    ensures
        r@.field(name) == if name == key@ {
            Some(value@)
        } else {
            object@.field(name)
        },
        longer@.items().drop_last() == list@.items(),
        longer@.items().last() == item@,
{
    lemma_field_of_entry(object@, key@, value@, name);
    assert(list@.items().push(item@).drop_last() =~= list@.items());
}

} // verus!
