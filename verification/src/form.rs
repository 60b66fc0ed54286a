//! HTML forms: their fields, filling a field in, and serialising the form as
//! `application/x-www-form-urlencoded`.

use vstd::prelude::*;
use vstd::string::*;
use crate::text::{join, str_eq, to_uppercase, uppercase_of, utf8};

verus! {

/// A form field.
#[derive(Debug)]
pub struct FormField {
    pub name: String,
    pub value: String,
    pub field_type: String,
    pub disabled: bool,
}

/// What a form field holds.
pub struct FieldView {
    pub name: Seq<char>,
    pub value: Seq<char>,
    pub field_type: Seq<char>,
    pub disabled: bool,
}

impl View for FormField {
    type V = FieldView;

    open spec fn view(&self) -> FieldView {
        FieldView {
            name: self.name@,
            value: self.value@,
            field_type: self.field_type@,
            disabled: self.disabled,
        }
    }
}

impl FormField {
    /// A copy of the field.
    pub fn duplicate(&self) -> (f: FormField)
        ensures
            f@ == self@,
    {
        FormField {
            name: String::from_str(self.name.as_str()),
            value: String::from_str(self.value.as_str()),
            field_type: String::from_str(self.field_type.as_str()),
            disabled: self.disabled,
        }
    }
}

/// An HTML form.
#[derive(Debug)]
pub struct Form {
    pub action: String,
    pub method: String,
    pub fields: Vec<FormField>,
}

/// What each field holds.
pub open spec fn fields_view(v: Seq<FormField>) -> Seq<FieldView> {
    v.map_values(|f: FormField| f@)
}

/// `k` is the first field named `name`.
pub open spec fn is_first_named(fs: Seq<FieldView>, name: Seq<char>, k: int) -> bool {
    &&& 0 <= k < fs.len()
    &&& fs[k].name == name
    &&& forall|j: int| 0 <= j < k ==> #[trigger] fs[j].name != name
}

/// The fields after setting the value of the first one named `name`; when
/// none has that name, the fields are unchanged.
pub open spec fn with_field_set(fs: Seq<FieldView>, name: Seq<char>, value: Seq<char>) -> Seq<
    FieldView,
> {
    if exists|k: int| is_first_named(fs, name, k) {
        let k = choose|k: int| is_first_named(fs, name, k);
        fs.update(k, FieldView { value: value, ..fs[k] })
    } else {
        fs
    }
}

// ---------------------------------------------------------------------------
// application/x-www-form-urlencoded
// ---------------------------------------------------------------------------

/// Bytes that `form_urlencoded::byte_serialize` leaves as they are.
pub open spec fn urlencoded_unchanged(b: u8) -> bool {
    b == 0x2a || b == 0x2d || b == 0x2e || (0x30 <= b && b <= 0x39) || (0x41 <= b && b <= 0x5a)
        || b == 0x5f || (0x61 <= b && b <= 0x7a)
}

/// The uppercase hexadecimal digit for `d` (below 16).
pub open spec fn upper_hex(d: u8) -> char {
    if d < 10 {
        ((0x30u8) + d) as char
    } else {
        ((0x41u8) + d - 10) as char
    }
}

/// How one byte is serialised: unchanged, `+` for a space, else `%XX`.
pub open spec fn urlencoded_byte(b: u8) -> Seq<char> {
    if urlencoded_unchanged(b) {
        seq![b as char]
    } else if b == 0x20 {
        seq!['+']
    } else {
        seq!['%', upper_hex(b / 16), upper_hex(b % 16)]
    }
}

/// `application/x-www-form-urlencoded` serialisation of some bytes.
pub open spec fn urlencoded(b: Seq<u8>) -> Seq<char>
    decreases b.len(),
{
    if b.len() == 0 {
        Seq::empty()
    } else {
        urlencoded(b.drop_last()) + urlencoded_byte(b.last())
    }
}

/// Calls `url::form_urlencoded::byte_serialize` on the bytes of `s`; per its
/// source, bytes in `*-._0-9A-Za-z` stay, a space becomes `+` and every other
/// byte becomes `%` and two uppercase hex digits.
#[verifier::external_body]
fn url_encode(s: &str) -> (r: String)
    ensures
        r@ == urlencoded(utf8(s@)),
{
    url::form_urlencoded::byte_serialize(s.as_bytes()).collect()
}

/// `name=value`, both URL-encoded.
pub open spec fn field_pair(f: FieldView) -> Seq<char> {
    urlencoded(utf8(f.name)) + "="@ + urlencoded(utf8(f.value))
}

/// The `name=value` pairs of the enabled, named fields, in order.
pub open spec fn pairs(fs: Seq<FieldView>) -> Seq<Seq<char>>
    decreases fs.len(),
{
    if fs.len() == 0 {
        Seq::empty()
    } else {
        let p = pairs(fs.drop_last());
        let f = fs.last();
        if !f.disabled && f.name.len() > 0 {
            p.push(field_pair(f))
        } else {
            p
        }
    }
}

impl Form {
    /// Sets the value of the first field named `name`; does nothing when no
    /// field has that name.
    pub fn set_field(&mut self, name: &str, value: &str)
        ensures
            final(self).action@ == old(self).action@,
            final(self).method@ == old(self).method@,
            fields_view(final(self).fields@) == with_field_set(
                fields_view(old(self).fields@),
                name@,
                value@,
            ),
    {
        let ghost fs = fields_view(self.fields@);
        let mut k: usize = 0;
        while k < self.fields.len()
            invariant
                k <= self.fields@.len(),
                fs == fields_view(self.fields@),
                fs == fields_view(old(self).fields@),
                self.action@ == old(self).action@,
                self.method@ == old(self).method@,
                forall|j: int| 0 <= j < k ==> #[trigger] fs[j].name != name@,
            decreases self.fields@.len() - k,
        {
            if str_eq(self.fields[k].name.as_str(), name) {
                assert(is_first_named(fs, name@, k as int));
                proof {
                    let c = choose|c: int| is_first_named(fs, name@, c);
                    if c < k {
                        assert(fs[c].name != name@);
                    } else if c > k {
                        assert(fs[k as int].name != name@);
                    }
                }
                let f = self.fields[k].duplicate();
                let nf = FormField {
                    name: f.name,
                    value: String::from_str(value),
                    field_type: f.field_type,
                    disabled: f.disabled,
                };
                self.fields.set(k, nf);
                assert(fields_view(self.fields@) =~= with_field_set(fs, name@, value@));
                return;
            }
            k += 1;
        }
        assert(!exists|c: int| is_first_named(fs, name@, c));
    }

    /// The form's fields as `application/x-www-form-urlencoded`: the enabled,
    /// named fields as `name=value` pairs joined by `&`.
    pub fn serialize(&self) -> (r: String)
        ensures
            r@ == join(pairs(fields_view(self.fields@)), "&"@),
    {
        let ghost fs = fields_view(self.fields@);
        let mut parts: Vec<String> = Vec::new();
        let mut i: usize = 0;
        while i < self.fields.len()
            invariant
                i <= self.fields@.len(),
                fs == fields_view(self.fields@),
                parts@.map_values(|p: String| p@) == pairs(fs.take(i as int)),
            decreases self.fields@.len() - i,
        {
            let f = &self.fields[i];
            let ghost p0 = parts@;
            assert(fs.take(i + 1).drop_last() =~= fs.take(i as int));
            if !f.disabled && f.name.as_str().as_bytes().len() > 0 {
                let mut p = url_encode(f.name.as_str());
                p.append("=");
                let v = url_encode(f.value.as_str());
                p.append(v.as_str());
                parts.push(p);
                assert(parts@.map_values(|p: String| p@) =~= p0.map_values(|p: String| p@).push(
                    field_pair(fs[i as int]),
                ));
            }
            i += 1;
        }
        assert(fs.take(fs.len() as int) =~= fs);
        let mut out = String::new();
        let mut j: usize = 0;
        while j < parts.len()
            invariant
                j <= parts@.len(),
                parts@.map_values(|p: String| p@) == pairs(fs),
                out@ == join(parts@.map_values(|p: String| p@).take(j as int), "&"@),
            decreases parts@.len() - j,
        {
            let ghost ps = parts@.map_values(|p: String| p@);
            assert(ps.take(j + 1).drop_last() =~= ps.take(j as int));
            if j > 0 {
                out.append("&");
            }
            out.append(parts[j].as_str());
            j += 1;
        }
        assert(parts@.map_values(|p: String| p@).take(parts@.len() as int) =~= parts@.map_values(
            |p: String| p@,
        ));
        out
    }
}

// ---------------------------------------------------------------------------
// Building a form from its markup
// ---------------------------------------------------------------------------

/// The attributes of one form control as the markup gives them: its `name`
/// and `value` (for a `<select>`, the value of its selected option; for a
/// `<textarea>`, its text), its `type`, and whether it is `disabled`.
#[derive(Debug)]
pub struct RawControl {
    pub name: Option<String>,
    pub value: Option<String>,
    pub control_type: Option<String>,
    pub disabled: bool,
}

/// The text of an optional attribute, empty when it is missing.
pub open spec fn attr_text(a: Option<String>) -> Seq<char> {
    match a {
        Some(s) => s@,
        None => Seq::empty(),
    }
}

/// The characters of an optional string.
pub open spec fn opt_chars(a: Option<String>) -> Option<Seq<char>> {
    match a {
        Some(s) => Some(s@),
        None => None,
    }
}

/// The text of an optional attribute value, empty when it is missing.
pub open spec fn opt_text(a: Option<Seq<char>>) -> Seq<char> {
    match a {
        Some(s) => s,
        None => Seq::empty(),
    }
}

/// A form control as the specifications see it.
pub struct ControlView {
    pub name: Option<Seq<char>>,
    pub value: Option<Seq<char>>,
    pub control_type: Option<Seq<char>>,
    pub disabled: bool,
}

impl View for RawControl {
    type V = ControlView;

    open spec fn view(&self) -> ControlView {
        ControlView {
            name: opt_chars(self.name),
            value: opt_chars(self.value),
            control_type: opt_chars(self.control_type),
            disabled: self.disabled,
        }
    }
}

/// The views of some controls.
pub open spec fn controls_view(cs: Seq<RawControl>) -> Seq<ControlView> {
    cs.map_values(|c: RawControl| c@)
}

/// The field a control becomes, with `field_type` as its type.
pub open spec fn field_of(c: ControlView, field_type: Seq<char>) -> FieldView {
    FieldView {
        name: opt_text(c.name),
        value: opt_text(c.value),
        field_type,
        disabled: c.disabled,
    }
}

/// The fields the first `i` controls give: a control without a name gives
/// none; an `<input>` keeps its `type` attribute, the others are typed
/// `kind` (`select`, `textarea`).
pub open spec fn fields_of(cs: Seq<ControlView>, kind: Option<Seq<char>>, i: nat) -> Seq<FieldView>
    decreases i,
{
    if i == 0 || i > cs.len() {
        Seq::empty()
    } else {
        let rest = fields_of(cs, kind, (i - 1) as nat);
        let c = cs[i - 1];
        if opt_text(c.name).len() == 0 {
            rest
        } else {
            rest.push(
                field_of(
                    c,
                    match kind {
                        Some(k) => k,
                        None => opt_text(c.control_type),
                    },
                ),
            )
        }
    }
}

/// The method a form submits with: its `method` attribute uppercased, or
/// `GET` when it is missing or empty.
pub open spec fn method_of(raw: Option<Seq<char>>) -> Seq<char> {
    match raw {
        Some(m) => if m.len() > 0 {
            uppercase_of(m)
        } else {
            "GET"@
        },
        None => "GET"@,
    }
}

fn text_or_empty(a: &Option<String>) -> (r: String)
    ensures
        r@ == attr_text(*a),
{
    match a {
        Some(s) => s.clone(),
        None => String::new(),
    }
}

/// Appends the fields of some controls to `out`.
fn push_fields(out: &mut Vec<FormField>, controls: &Vec<RawControl>, kind: Option<&str>)
    ensures
        fields_view(final(out)@) == fields_view(old(out)@) + fields_of(
            controls_view(controls@),
            match kind {
                Some(k) => Some(k@),
                None => None,
            },
            controls@.len(),
        ),
{
    let ghost k = match kind {
        Some(k) => Some(k@),
        None => None,
    };
    let ghost start = fields_view(out@);
    let mut i: usize = 0;
    while i < controls.len()
        invariant
            i <= controls@.len(),
            k == match kind {
                Some(k) => Some(k@),
                None => None,
            },
            fields_view(out@) == start + fields_of(controls_view(controls@), k, i as nat),
        decreases controls@.len() - i,
    {
        let c = &controls[i];
        let name = text_or_empty(&c.name);
        if name.as_str().as_bytes().len() > 0 {
            let field_type = match kind {
                Some(t) => t.to_string(),
                None => text_or_empty(&c.control_type),
            };
            let ghost before = out@;
            out.push(FormField { name, value: text_or_empty(&c.value), field_type, disabled: c.disabled });
            assert(fields_view(out@) =~= fields_view(before).push(out@.last()@));
        } else {
            proof {
                vstd::utf8::encode_utf8_decode_utf8(name@);
                if name@.len() > 0 {
                    assert(utf8(name@).len() > 0);
                }
            }
        }
        proof {
            assert(controls@[i as int] == *c);
            assert(controls_view(controls@)[i as int] == c@);
        }
        i += 1;
    }
}

impl Form {
    /// A form from its markup: the `action` attribute (empty when missing),
    /// the submission method, and the named controls as fields: the
    /// `<input>`s first, then the `<select>`s, then the `<textarea>`s, each
    /// in document order.
    pub fn from_controls(
        action: Option<String>,
        method: Option<&str>,
        inputs: &Vec<RawControl>,
        selects: &Vec<RawControl>,
        textareas: &Vec<RawControl>,
    ) -> (f: Form)
        ensures
            f.action@ == attr_text(action),
            f.method@ == method_of(
                match method {
                    Some(m) => Some(m@),
                    None => None,
                },
            ),
            fields_view(f.fields@) == fields_of(controls_view(inputs@), None, inputs@.len()) + fields_of(
                controls_view(selects@),
                Some("select"@),
                selects@.len(),
            ) + fields_of(controls_view(textareas@), Some("textarea"@), textareas@.len()),
    {
        let action = text_or_empty(&action);
        let method = match method {
            Some(m) => {
                let up = to_uppercase(m);
                if up.as_str().as_bytes().len() > 0 {
                    up
                } else {
                    proof {
                        vstd::utf8::encode_utf8_decode_utf8(up@);
                        if up@.len() > 0 {
                            assert(utf8(up@).len() > 0);
                        }
                    }
                    String::from_str("GET")
                }
            },
            None => String::from_str("GET"),
        };
        let mut fields: Vec<FormField> = Vec::new();
        assert(fields_view(fields@) =~= Seq::<FieldView>::empty());
        push_fields(&mut fields, inputs, None);
        push_fields(&mut fields, selects, Some("select"));
        push_fields(&mut fields, textareas, Some("textarea"));
        assert(fields_view(fields@) =~= fields_of(controls_view(inputs@), None, inputs@.len()) + fields_of(
            controls_view(selects@),
            Some("select"@),
            selects@.len(),
        ) + fields_of(controls_view(textareas@), Some("textarea"@), textareas@.len()));
        Form { action, method, fields }
    }
}

} // verus!
