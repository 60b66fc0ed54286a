//! JSON values as the structured-data (JSON-LD) lookups read them.

use vstd::prelude::*;
use vstd::string::*;
use crate::text::{ascii_lower_all, ascii_lowercase, join, str_eq, strings_view, utf8};

verus! {

/// A JSON value. Numbers keep their textual form; object members keep their
/// order.
#[derive(Debug)]
pub enum JsonValue {
    Null,
    Bool(bool),
    Number(String),
    Str(String),
    Array(Vec<JsonValue>),
    Object(Vec<(String, JsonValue)>),
}

/// Member `i` of `members` is the first one called `key`.
pub open spec fn is_first_member(members: Seq<(String, JsonValue)>, key: Seq<char>, i: int) -> bool {
    &&& 0 <= i < members.len()
    &&& members[i].0@ == key
    &&& forall|j: int| 0 <= j < i ==> #[trigger] members[j].0@ != key
}

/// The member `key` of an object (`Value::get`); nothing for other values.
pub open spec fn member(v: JsonValue, key: Seq<char>) -> Option<JsonValue> {
    match v {
        JsonValue::Object(members) => if exists|i: int| is_first_member(members@, key, i) {
            Some(members@[choose|i: int| is_first_member(members@, key, i)].1)
        } else {
            None
        },
        _ => None,
    }
}

/// The text of a string value (`Value::as_str`).
pub open spec fn as_text(v: Option<JsonValue>) -> Option<Seq<char>> {
    match v {
        Some(JsonValue::Str(s)) => Some(s@),
        _ => None,
    }
}

impl JsonValue {
    /// The member `key` of an object; `None` for a missing member or a value
    /// that is not an object.
    pub fn get(&self, key: &str) -> (r: Option<&JsonValue>)
        ensures
            match r {
                Some(x) => member(*self, key@) == Some(*x),
                None => member(*self, key@) is None,
            },
    {
        match self {
            JsonValue::Object(members) => {
                let mut i: usize = 0;
                while i < members.len()
                    invariant
                        i <= members@.len(),
                        *self == JsonValue::Object(*members),
                        forall|j: int| 0 <= j < i ==> #[trigger] members@[j].0@ != key@,
                    decreases members@.len() - i,
                {
                    if str_eq(members[i].0.as_str(), key) {
                        proof {
                            assert(is_first_member(members@, key@, i as int));
                            let c = choose|c: int| is_first_member(members@, key@, c);
                            if c < i {
                                assert(members@[c].0@ != key@);
                            } else if c > i {
                                assert(members@[i as int].0@ != key@);
                            }
                            assert(c == i);
                            assert(member(*self, key@) == Some(members@[i as int].1));
                        }
                        let found = &members[i].1;
                        assert(*found == members@[i as int].1);
                        return Some(found);
                    }
                    i += 1;
                }
                None
            },
            _ => None,
        }
    }

    /// The text of a string value.
    pub fn as_str(&self) -> (r: Option<&str>)
        ensures
            match r {
                Some(s) => as_text(Some(*self)) == Some(s@),
                None => as_text(Some(*self)) is None,
            },
    {
        match self {
            JsonValue::Str(s) => Some(s.as_str()),
            _ => None,
        }
    }
}

/// The string elements of an array, in order (other elements are skipped).
pub open spec fn string_elements(items: Seq<JsonValue>) -> Seq<Seq<char>>
    decreases items.len(),
{
    if items.len() == 0 {
        Seq::empty()
    } else {
        let rest = string_elements(items.drop_last());
        match items.last() {
            JsonValue::Str(s) => rest.push(s@),
            _ => rest,
        }
    }
}

/// What one structured-data object yields for `field`: a non-empty string
/// member; for `publisher`, the `name` of the publisher object (even empty);
/// for `keywords`, the string elements of an array joined by `, ` (when
/// there are any).
pub open spec fn object_field(obj: JsonValue, field: Seq<char>) -> Option<Seq<char>> {
    let direct = as_text(member(obj, field));
    if direct matches Some(s) && s.len() > 0 {
        direct
    } else if field == "publisher"@ && member(obj, "publisher"@) is Some && as_text(
        member(member(obj, "publisher"@).unwrap(), "name"@),
    ) is Some {
        as_text(member(member(obj, "publisher"@).unwrap(), "name"@))
    } else if field == "keywords"@ {
        match member(obj, "keywords"@) {
            Some(JsonValue::Array(a)) => if string_elements(a@).len() > 0 {
                Some(join(string_elements(a@), ", "@))
            } else {
                None
            },
            _ => None,
        }
    } else {
        None
    }
}

/// The first object among the first `i` that yields something for `field`.
pub open spec fn structured_field(objs: Seq<JsonValue>, field: Seq<char>, i: nat) -> Option<
    Seq<char>,
>
    decreases i,
{
    if i == 0 || i > objs.len() {
        None
    } else {
        match structured_field(objs, field, (i - 1) as nat) {
            Some(s) => Some(s),
            None => object_field(objs[i - 1], field),
        }
    }
}

/// The string elements of an array joined by `, `, and how many there are.
fn join_string_elements(items: &Vec<JsonValue>) -> (r: (String, usize))
    ensures
        r.0@ == join(string_elements(items@), ", "@),
        r.1 == string_elements(items@).len(),
{
    let mut out = String::new();
    let mut count: usize = 0;
    let mut i: usize = 0;
    while i < items.len()
        invariant
            i <= items@.len(),
            count <= i,
            count == string_elements(items@.take(i as int)).len(),
            out@ == join(string_elements(items@.take(i as int)), ", "@),
        decreases items@.len() - i,
    {
        let ghost ps = string_elements(items@.take(i as int));
        assert(items@.take(i + 1).drop_last() =~= items@.take(i as int));
        assert(items@.take(i + 1).last() == items@[i as int]);
        match &items[i] {
            JsonValue::Str(s) => {
                if count > 0 {
                    out.append(", ");
                }
                out.append(s.as_str());
                count = count + 1;
                proof {
                    assert(ps.push(s@).drop_last() =~= ps);
                    if ps.len() == 0 {
                        assert(ps.push(s@) =~= seq![s@]);
                    }
                }
            },
            _ => {},
        }
        i += 1;
    }
    assert(items@.take(items@.len() as int) =~= items@);
    (out, count)
}

/// What one object yields for `field`.
fn object_field_of(obj: &JsonValue, field: &str) -> (r: Option<String>)
    ensures
        match r {
            Some(s) => object_field(*obj, field@) == Some(s@),
            None => object_field(*obj, field@) is None,
        },
{
    if let Some(v) = obj.get(field) {
        if let Some(s) = v.as_str() {
            if s.as_bytes().len() > 0 {
                return Some(String::from_str(s));
            }
        }
    }
    if str_eq(field, "publisher") {
        if let Some(p) = obj.get("publisher") {
            if let Some(n) = p.get("name") {
                if let Some(s) = n.as_str() {
                    return Some(String::from_str(s));
                }
            }
        }
    }
    if str_eq(field, "keywords") {
        if let Some(k) = obj.get("keywords") {
            if let JsonValue::Array(items) = k {
                let (joined, count) = join_string_elements(items);
                if count > 0 {
                    return Some(joined);
                }
            }
        }
    }
    None
}

/// The first non-empty value structured data gives for `field` (see
/// `object_field`).
pub fn json_ld_string(json_ld: &[JsonValue], field: &str) -> (r: Option<String>)
    ensures
        match r {
            Some(s) => structured_field(json_ld@, field@, json_ld@.len()) == Some(s@),
            None => structured_field(json_ld@, field@, json_ld@.len()) is None,
        },
{
    let mut i: usize = 0;
    while i < json_ld.len()
        invariant
            i <= json_ld@.len(),
            structured_field(json_ld@, field@, i as nat) is None,
        decreases json_ld@.len() - i,
    {
        if let Some(s) = object_field_of(&json_ld[i], field) {
            proof {
                lemma_structured_field_stays(json_ld@, field@, (i + 1) as nat);
            }
            return Some(s);
        }
        i += 1;
    }
    None
}

/// Once an object yields a value, later objects do not change it.
proof fn lemma_structured_field_stays(objs: Seq<JsonValue>, field: Seq<char>, i: nat)
    requires
        1 <= i <= objs.len(),
        structured_field(objs, field, i) is Some,
    ensures
        structured_field(objs, field, objs.len()) == structured_field(objs, field, i),
    decreases objs.len() - i,
{
    if i < objs.len() {
        lemma_structured_field_stays(objs, field, i + 1);
    }
}

// ---------------------------------------------------------------------------
// Which structured data is worth passing on
// ---------------------------------------------------------------------------

/// Largest serialised size (bytes) of an untyped object or an array that is
/// still kept; bigger ones are framework hydration state, not content.
pub const COMPACT_STRUCTURED_DATA_BYTES: usize = 4096;

/// `@type` names (lowercased) that only describe site chrome.
pub open spec fn is_chrome_type(t: Seq<char>) -> bool {
    t == "website"@ || t == "webpage"@ || t == "sitenavigationelement"@
}

/// An `@type` value names a content type: a string, or an array with a
/// string element, whose ASCII-lowercased text is not a chrome type.
pub open spec fn names_content_type(t: JsonValue) -> bool {
    match t {
        JsonValue::Str(s) => !is_chrome_type(ascii_lower_all(s@)),
        JsonValue::Array(items) => exists|i: int|
            #![trigger items@[i]]
            0 <= i < items@.len() && (items@[i] matches JsonValue::Str(s) && !is_chrome_type(
                ascii_lower_all(s@),
            )),
        _ => false,
    }
}

/// A structured-data value carries content worth passing on: an object with
/// an `@type` naming a content type, an untyped object, or an array, the
/// last two only when `serialized_len` (their compact JSON size in bytes)
/// is at most `COMPACT_STRUCTURED_DATA_BYTES`.
pub open spec fn useful_structured_data(v: JsonValue, serialized_len: nat) -> bool {
    match v {
        JsonValue::Object(_) => match member(v, "@type"@) {
            Some(t) => names_content_type(t),
            None => serialized_len <= COMPACT_STRUCTURED_DATA_BYTES,
        },
        JsonValue::Array(_) => serialized_len <= COMPACT_STRUCTURED_DATA_BYTES,
        _ => false,
    }
}

fn is_chrome_type_name(t: &str) -> (r: bool)
    ensures
        r == is_chrome_type(t@),
{
    str_eq(t, "website") || str_eq(t, "webpage") || str_eq(t, "sitenavigationelement")
}

/// Decides whether a structured-data value is worth passing on. Schema.org
/// records whose `@type` names content (Article, Product, Event, ...) are
/// kept; `WebSite`, `WebPage` and `SiteNavigationElement` records, and
/// records whose `@type` holds no string, are dropped; untyped objects and
/// arrays are kept only when compact. `serialized_len` is the size of `v`
/// serialised as compact JSON.
pub fn is_useful_structured_data(v: &JsonValue, serialized_len: usize) -> (r: bool)
    ensures
        r == useful_structured_data(*v, serialized_len as nat),
{
    match v {
        JsonValue::Object(_) => match v.get("@type") {
            Some(t) => match t {
                JsonValue::Str(s) => {
                    let lower = ascii_lowercase(s.as_str());
                    !is_chrome_type_name(lower.as_str())
                },
                JsonValue::Array(items) => {
                    let mut i: usize = 0;
                    while i < items.len()
                        invariant
                            i <= items@.len(),
                            *v is Object,
                            member(*v, "@type"@) == Some(JsonValue::Array(*items)),
                            forall|j: int|
                                #![trigger items@[j]]
                                0 <= j < i ==> !(items@[j] matches JsonValue::Str(s)
                                    && !is_chrome_type(ascii_lower_all(s@))),
                        decreases items@.len() - i,
                    {
                        if let JsonValue::Str(s) = &items[i] {
                            let lower = ascii_lowercase(s.as_str());
                            if !is_chrome_type_name(lower.as_str()) {
                                assert(items@[i as int] matches JsonValue::Str(s2) && !is_chrome_type(
                                    ascii_lower_all(s2@),
                                ));
                                return true;
                            }
                        }
                        i += 1;
                    }
                    false
                },
                _ => false,
            },
            None => serialized_len <= COMPACT_STRUCTURED_DATA_BYTES,
        },
        JsonValue::Array(_) => serialized_len <= COMPACT_STRUCTURED_DATA_BYTES,
        _ => false,
    }
}

// ---------------------------------------------------------------------------
// Dropping fields that repeat the page body
// ---------------------------------------------------------------------------

/// Nesting depth below which members are no longer scrubbed, so a
/// pathologically deep value cannot exhaust the stack.
pub const MAX_SCRUB_DEPTH: usize = 64;

/// Size (bytes) from which a `body`, `text` or `description` string counts
/// as a copy of the page body.
pub const LONG_BODY_BYTES: usize = 500;

/// Members dropped wherever they occur.
pub open spec fn is_body_key(k: Seq<char>) -> bool {
    k == "articleBody"@
}

/// Members dropped when they hold a long string.
pub open spec fn is_long_body_key(k: Seq<char>) -> bool {
    k == "body"@ || k == "text"@ || k == "description"@
}

/// A member called `k` holding `v` survives scrubbing.
pub open spec fn keeps_named(k: Seq<char>, v: JsonValue) -> bool {
    &&& !is_body_key(k)
    &&& !(is_long_body_key(k) && (v matches JsonValue::Str(s) && utf8(s@).len()
        >= LONG_BODY_BYTES))
}

/// A member that scrubbing keeps.
pub open spec fn keeps_member(m: (String, JsonValue)) -> bool {
    keeps_named(m.0@, m.1)
}

/// The members of an object that scrubbing keeps, in order.
pub open spec fn kept_members(ms: Seq<(String, JsonValue)>) -> Seq<(String, JsonValue)> {
    ms.filter(|m: (String, JsonValue)| keeps_member(m))
}

/// `b` is `a` scrubbed from nesting depth `depth`: below
/// `MAX_SCRUB_DEPTH`, objects keep the members `keeps_member` allows, in
/// order and under the same names, each value scrubbed one level deeper,
/// and arrays have each element scrubbed one level deeper; everything else,
/// and everything at or past the depth cap, is left as it is.
pub open spec fn scrubbed_from(a: JsonValue, b: JsonValue, depth: int) -> bool
    decreases MAX_SCRUB_DEPTH - depth,
{
    if depth >= MAX_SCRUB_DEPTH {
        b == a
    } else {
        match a {
            JsonValue::Object(ms) => match b {
                JsonValue::Object(ns) => {
                    let k = kept_members(ms@);
                    &&& ns@.len() == k.len()
                    &&& forall|i: int|
                        #![trigger ns@[i]]
                        0 <= i < ns@.len() ==> ns@[i].0 == k[i].0 && scrubbed_from(
                            k[i].1,
                            ns@[i].1,
                            depth + 1,
                        )
                },
                _ => false,
            },
            JsonValue::Array(xs) => match b {
                JsonValue::Array(ys) => {
                    &&& ys@.len() == xs@.len()
                    &&& forall|i: int|
                        #![trigger ys@[i]]
                        0 <= i < ys@.len() ==> scrubbed_from(xs@[i], ys@[i], depth + 1)
                },
                _ => false,
            },
            _ => b == a,
        }
    }
}

fn is_dropped_member(key: &str, value: &JsonValue) -> (r: bool)
    ensures
        r == !keeps_named(key@, *value),
{
    if str_eq(key, "articleBody") {
        return true;
    }
    if str_eq(key, "body") || str_eq(key, "text") || str_eq(key, "description") {
        if let JsonValue::Str(s) = value {
            return s.as_str().as_bytes().len() >= LONG_BODY_BYTES;
        }
    }
    false
}

/// The elements of `v` in reverse order, taking them out of `v`.
fn reversed<T>(v: Vec<T>) -> (r: Vec<T>)
    ensures
        r@.len() == v@.len(),
        forall|j: int| 0 <= j < r@.len() ==> #[trigger] r@[j] == v@[v@.len() - 1 - j],
{
    let ghost orig = v@;
    let mut rest = v;
    let mut stack: Vec<T> = Vec::new();
    while rest.len() > 0
        invariant
            rest@ == orig.take(rest@.len() as int),
            rest@.len() <= orig.len(),
            stack@.len() == orig.len() - rest@.len(),
            forall|j: int|
                0 <= j < stack@.len() ==> #[trigger] stack@[j] == orig[orig.len() - 1 - j],
        decreases rest@.len(),
    {
        let x = rest.pop().unwrap();
        stack.push(x);
    }
    stack
}

/// `v` scrubbed from nesting depth `depth`.
fn scrubbed(v: JsonValue, depth: usize) -> (r: JsonValue)
    ensures
        scrubbed_from(v, r, depth as int),
    decreases MAX_SCRUB_DEPTH - depth,
{
    if depth >= MAX_SCRUB_DEPTH {
        return v;
    }
    match v {
        JsonValue::Object(members) => {
            let ghost ms = members@;
            let ghost k = kept_members(ms);
            let mut stack = reversed(members);
            let mut out: Vec<(String, JsonValue)> = Vec::new();
            let ghost mut done: int = 0;
            while stack.len() > 0
                invariant
                    depth < MAX_SCRUB_DEPTH,
                    k == kept_members(ms),
                    stack@.len() + done == ms.len(),
                    0 <= done <= ms.len(),
                    forall|j: int|
                        0 <= j < stack@.len() ==> #[trigger] stack@[j] == ms[ms.len() - 1 - j],
                    out@.len() == kept_members(ms.take(done)).len(),
                    forall|i: int|
                        #![trigger out@[i]]
                        0 <= i < out@.len() ==> out@[i].0 == kept_members(ms.take(done))[i].0
                            && scrubbed_from(
                            kept_members(ms.take(done))[i].1,
                            out@[i].1,
                            depth + 1,
                        ),
                decreases stack@.len(),
            {
                let (key, value) = stack.pop().unwrap();
                proof {
                    assert(ms.take(done + 1).drop_last() =~= ms.take(done));
                    assert(ms.take(done + 1).last() == ms[done]);
                    reveal(Seq::filter);
                }
                if !is_dropped_member(key.as_str(), &value) {
                    let inner = scrubbed(value, depth + 1);
                    out.push((key, inner));
                }
                proof {
                    done = done + 1;
                }
            }
            proof {
                assert(ms.take(done) =~= ms);
            }
            JsonValue::Object(out)
        },
        JsonValue::Array(items) => {
            let ghost xs = items@;
            let mut stack = reversed(items);
            let mut out: Vec<JsonValue> = Vec::new();
            while stack.len() > 0
                invariant
                    depth < MAX_SCRUB_DEPTH,
                    stack@.len() + out@.len() == xs.len(),
                    forall|j: int|
                        0 <= j < stack@.len() ==> #[trigger] stack@[j] == xs[xs.len() - 1 - j],
                    forall|i: int|
                        #![trigger out@[i]]
                        0 <= i < out@.len() ==> scrubbed_from(xs[i], out@[i], depth + 1),
                decreases stack@.len(),
            {
                let x = stack.pop().unwrap();
                let inner = scrubbed(x, depth + 1);
                out.push(inner);
            }
            JsonValue::Array(out)
        },
        other => other,
    }
}

/// Removes, from `v` and the values nested in it, the members that repeat
/// the rendered page body: every `articleBody`, and `body`, `text` or
/// `description` strings of 500 bytes or more. Nesting deeper than
/// `MAX_SCRUB_DEPTH` levels below `depth` is left as it is.
pub fn scrub_body_fields(v: &mut JsonValue, depth: usize)
    ensures
        scrubbed_from(*old(v), *final(v), depth as int),
{
    let mut taken = JsonValue::Null;
    std::mem::swap(&mut taken, v);
    *v = scrubbed(taken, depth);
}

} // verus!
