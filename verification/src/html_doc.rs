//! Reading HTML documents: parsing and CSS selection are `dom_query`'s,
//! Markdown conversion is `htmd`'s. What a page yields (its text, links,
//! meta tags, forms and structured-data scripts) is assembled here from what
//! those calls return.

use vstd::prelude::*;
use vstd::string::*;
use crate::content::{collapse_whitespace, collapsed};
use crate::form::{controls_view, fields_of, method_of, opt_chars, opt_text, ControlView, FieldView, Form, RawControl};
use crate::form::fields_view;
use crate::page::{Link, MetaTag};
use crate::text::{chars_of, str_eq, strings_view, trim, trim_chars, string_from_chars};

verus! {

// ---------------------------------------------------------------------------
// The outside calls
// ---------------------------------------------------------------------------

/// The Markdown `htmd::convert` makes of `html` (empty when it fails).
pub uninterp spec fn markdown_of(html: Seq<char>) -> Seq<char>;

/// The serialisation of `html` parsed by `dom_query` with every element that
/// one of `selectors` matches removed (an invalid selector removes nothing).
pub uninterp spec fn stripped_html_of(html: Seq<char>, selectors: Seq<Seq<char>>) -> Seq<char>;

/// The text of the elements `css` matches in `html` (`Selection::text`);
/// empty when nothing matches or `css` is invalid.
pub uninterp spec fn selection_text_of(html: Seq<char>, css: Seq<char>) -> Seq<char>;

/// The text of each element `css` matches in `html`, in document order.
pub uninterp spec fn element_texts_of(html: Seq<char>, css: Seq<char>) -> Seq<Seq<char>>;

/// The attribute `name` of each element `css` matches in `html`, in
/// document order.
pub uninterp spec fn element_attrs_of(html: Seq<char>, css: Seq<char>, name: Seq<char>) -> Seq<
    Option<Seq<char>>,
>;

/// For each element `outer` matches in `html`, the text of each element
/// `inner` matches inside it, in document order.
pub uninterp spec fn nested_texts_of(html: Seq<char>, outer: Seq<char>, inner: Seq<char>) -> Seq<Seq<Seq<char>>>;

/// For each element `outer` matches in `html`, the attribute `name` of each
/// element `inner` matches inside it.
pub uninterp spec fn nested_attrs_of(html: Seq<char>, outer: Seq<char>, inner: Seq<char>, name: Seq<char>) -> Seq<
    Seq<Option<Seq<char>>>,
>;

/// For each element `outer` matches in `html`, whether each element `inner`
/// matches inside it has the attribute `name`.
pub uninterp spec fn nested_flags_of(html: Seq<char>, outer: Seq<char>, inner: Seq<char>, name: Seq<char>) -> Seq<
    Seq<bool>,
>;

/// For each element `outer` matches in `html` and each element `inner`
/// matches inside it, the attribute `name` of the first element `child`
/// matches inside that one.
pub uninterp spec fn nested_child_attrs_of(
    html: Seq<char>,
    outer: Seq<char>,
    inner: Seq<char>,
    child: Seq<char>,
    name: Seq<char>,
) -> Seq<Seq<Option<Seq<char>>>>;

/// Calls `htmd::convert`; a conversion error gives the empty string.
#[verifier::external_body]
fn htmd_convert(html: &str) -> (r: String)
    ensures
        r@ == markdown_of(html@),
{
    htmd::convert(html).unwrap_or_default()
}

/// Calls `dom_query::Document::from`, `try_select(..).remove()` for each
/// selector, and `html()`.
#[verifier::external_body]
fn html_without(html: &str, selectors: &Vec<String>) -> (r: String)
    ensures
        r@ == stripped_html_of(html@, strings_view(selectors@)),
{
    let doc = dom_query::Document::from(html);
    for sel in selectors.iter() {
        if let Some(found) = doc.try_select(sel) {
            found.remove();
        }
    }
    doc.html().to_string()
}

/// Calls `dom_query::Document::from`, `try_select(css)` and `text()`.
#[verifier::external_body]
pub(crate) fn selection_text(html: &str, css: &str) -> (r: String)
    ensures
        r@ == selection_text_of(html@, css@),
{
    let doc = dom_query::Document::from(html);
    doc.try_select(css).map(|s| s.text().to_string()).unwrap_or_default()
}

/// Calls `dom_query::Document::from`, `try_select(css)` and `text()` on each
/// matched element.
#[verifier::external_body]
pub(crate) fn element_texts(html: &str, css: &str) -> (r: Vec<String>)
    ensures
        strings_view(r@) == element_texts_of(html@, css@),
{
    let doc = dom_query::Document::from(html);
    match doc.try_select(css) {
        Some(s) => s.iter().map(|e| e.text().to_string()).collect(),
        None => Vec::new(),
    }
}

/// The characters of each optional string.
pub open spec fn opt_strings_view(v: Seq<Option<String>>) -> Seq<Option<Seq<char>>> {
    v.map_values(|o: Option<String>| opt_chars(o))
}

/// Calls `dom_query::Document::from`, `try_select(css)` and `attr(name)` on
/// each matched element; the same elements as `element_texts`, so there are
/// as many values as texts.
#[verifier::external_body]
pub(crate) fn element_attrs(html: &str, css: &str, name: &str) -> (r: Vec<Option<String>>)
    ensures
        opt_strings_view(r@) == element_attrs_of(html@, css@, name@),
        r@.len() == element_texts_of(html@, css@).len(),
{
    let doc = dom_query::Document::from(html);
    match doc.try_select(css) {
        Some(s) => s.iter().map(|e| e.attr(name).map(|a| a.to_string())).collect(),
        None => Vec::new(),
    }
}

/// A form as its markup gives it: its `action`, `method` and `id`
/// attributes and its `<input>`, `<select>` and `<textarea>` controls (a
/// select's value is its selected option's, a textarea's is its text).
#[derive(Debug)]
pub struct RawForm {
    pub action: Option<String>,
    pub method: Option<String>,
    pub id: Option<String>,
    pub inputs: Vec<RawControl>,
    pub selects: Vec<RawControl>,
    pub textareas: Vec<RawControl>,
}

/// A form's markup as the specifications see it.
pub struct RawFormView {
    pub action: Option<Seq<char>>,
    pub method: Option<Seq<char>>,
    pub id: Option<Seq<char>>,
    pub inputs: Seq<ControlView>,
    pub selects: Seq<ControlView>,
    pub textareas: Seq<ControlView>,
}

impl View for RawForm {
    type V = RawFormView;

    open spec fn view(&self) -> RawFormView {
        RawFormView {
            action: opt_chars(self.action),
            method: opt_chars(self.method),
            id: opt_chars(self.id),
            inputs: controls_view(self.inputs@),
            selects: controls_view(self.selects@),
            textareas: controls_view(self.textareas@),
        }
    }
}

/// The views of some raw forms.
pub open spec fn raw_forms_view(v: Seq<RawForm>) -> Seq<RawFormView> {
    v.map_values(|f: RawForm| f@)
}

/// The characters of each string of each row.
pub open spec fn rows_view(v: Seq<Vec<String>>) -> Seq<Seq<Seq<char>>> {
    v.map_values(|r: Vec<String>| strings_view(r@))
}

/// The characters of each optional string of each row.
pub open spec fn opt_rows_view(v: Seq<Vec<Option<String>>>) -> Seq<Seq<Option<Seq<char>>>> {
    v.map_values(|r: Vec<Option<String>>| opt_strings_view(r@))
}

/// The values of each row.
pub open spec fn flag_rows_view(v: Seq<Vec<bool>>) -> Seq<Seq<bool>> {
    v.map_values(|r: Vec<bool>| r@)
}

/// `rows` has one row per row of `shape`, each as long as it.
pub open spec fn same_shape<A, B>(rows: Seq<Seq<A>>, shape: Seq<Seq<B>>) -> bool {
    &&& rows.len() == shape.len()
    &&& forall|i: int| 0 <= i < rows.len() ==> #[trigger] rows[i].len() == shape[i].len()
}

/// Calls `Document::from`, `try_select(outer)`, and on each match
/// `try_select(inner)` and `text()`; one row per `outer` element.
#[verifier::external_body]
pub(crate) fn nested_texts(html: &str, outer: &str, inner: &str) -> (r: Vec<Vec<String>>)
    ensures
        rows_view(r@) == nested_texts_of(html@, outer@, inner@),
        r@.len() == element_texts_of(html@, outer@).len(),
{
    let doc = dom_query::Document::from(html);
    let rows = doc.try_select(outer).map(|s| s.iter().collect::<Vec<_>>()).unwrap_or_default();
    rows.iter()
        .map(|o| o.try_select(inner).map(|c| c.iter().map(|e| e.text().to_string()).collect()).unwrap_or_default())
        .collect()
}

/// Calls `Document::from`, `try_select(outer)`, and on each match
/// `try_select(inner)` and `attr(name)`; the same elements as
/// `nested_texts`.
#[verifier::external_body]
pub(crate) fn nested_attrs(html: &str, outer: &str, inner: &str, name: &str) -> (r: Vec<Vec<Option<String>>>)
    ensures
        opt_rows_view(r@) == nested_attrs_of(html@, outer@, inner@, name@),
        same_shape(opt_rows_view(r@), nested_texts_of(html@, outer@, inner@)),
        r@.len() == element_texts_of(html@, outer@).len(),
{
    let doc = dom_query::Document::from(html);
    let rows = doc.try_select(outer).map(|s| s.iter().collect::<Vec<_>>()).unwrap_or_default();
    rows.iter()
        .map(|o| o.try_select(inner).map(|c| c.iter().map(|e| e.attr(name).map(|a| a.to_string())).collect()).unwrap_or_default())
        .collect()
}

/// Calls `Document::from`, `try_select(outer)`, and on each match
/// `try_select(inner)` and `has_attr(name)`; the same elements as
/// `nested_texts`.
#[verifier::external_body]
fn nested_flags(html: &str, outer: &str, inner: &str, name: &str) -> (r: Vec<Vec<bool>>)
    ensures
        flag_rows_view(r@) == nested_flags_of(html@, outer@, inner@, name@),
        same_shape(flag_rows_view(r@), nested_texts_of(html@, outer@, inner@)),
        r@.len() == element_texts_of(html@, outer@).len(),
{
    let doc = dom_query::Document::from(html);
    let rows = doc.try_select(outer).map(|s| s.iter().collect::<Vec<_>>()).unwrap_or_default();
    rows.iter()
        .map(|o| o.try_select(inner).map(|c| c.iter().map(|e| e.has_attr(name)).collect()).unwrap_or_default())
        .collect()
}

/// Calls `Document::from`, `try_select(outer)`, on each match
/// `try_select(inner)`, and on each of those `select(child)` and
/// `attr(name)`; the same elements as `nested_texts`.
#[verifier::external_body]
fn nested_child_attrs(html: &str, outer: &str, inner: &str, child: &str, name: &str) -> (r: Vec<Vec<Option<String>>>)
    ensures
        opt_rows_view(r@) == nested_child_attrs_of(html@, outer@, inner@, child@, name@),
        same_shape(opt_rows_view(r@), nested_texts_of(html@, outer@, inner@)),
        r@.len() == element_texts_of(html@, outer@).len(),
{
    let doc = dom_query::Document::from(html);
    let rows = doc.try_select(outer).map(|s| s.iter().collect::<Vec<_>>()).unwrap_or_default();
    let attr = |e: &dom_query::Selection<'_>| e.try_select(child).and_then(|x| x.attr(name)).map(|a| a.to_string());
    rows.iter().map(|o| o.try_select(inner).map(|c| c.iter().map(|e| attr(&e)).collect()).unwrap_or_default()).collect()
}

/// The controls of kind `inner` of the `i`-th form: name, value, type and
/// whether disabled; `values` gives each control's value.
pub open spec fn controls_of(html: Seq<char>, inner: Seq<char>, values: Seq<Seq<Option<Seq<char>>>>, i: int) -> Seq<
    ControlView,
> {
    Seq::new(
        nested_texts_of(html, "form"@, inner)[i].len(),
        |j: int|
            ControlView {
                name: nested_attrs_of(html, "form"@, inner, "name"@)[i][j],
                value: values[i][j],
                control_type: nested_attrs_of(html, "form"@, inner, "type"@)[i][j],
                disabled: nested_flags_of(html, "form"@, inner, "disabled"@)[i][j],
            },
    )
}

/// The text of each textarea of each form, as an attribute-like value.
pub open spec fn textarea_values(html: Seq<char>) -> Seq<Seq<Option<Seq<char>>>> {
    nested_texts_of(html, "form"@, "textarea"@).map_values(
        |row: Seq<Seq<char>>| row.map_values(|t: Seq<char>| Some(t)),
    )
}

/// The forms of a page, in document order, with their attributes and
/// controls: an input's value is its `value` attribute, a select's is its
/// selected option's, a textarea's is its text.
pub open spec fn raw_forms_of(html: Seq<char>) -> Seq<RawFormView> {
    Seq::new(
        element_texts_of(html, "form"@).len(),
        |i: int|
            RawFormView {
                action: element_attrs_of(html, "form"@, "action"@)[i],
                method: element_attrs_of(html, "form"@, "method"@)[i],
                id: element_attrs_of(html, "form"@, "id"@)[i],
                inputs: controls_of(html, "input"@, nested_attrs_of(html, "form"@, "input"@, "value"@), i),
                selects: controls_of(
                    html,
                    "select"@,
                    nested_child_attrs_of(html, "form"@, "select"@, "option[selected]"@, "value"@),
                    i,
                ),
                textareas: controls_of(html, "textarea"@, textarea_values(html), i),
            },
    )
}

/// The controls of kind `inner` of each form.
fn form_controls(html: &str, inner: &str, values: &Vec<Vec<Option<String>>>, i: usize) -> (r: Vec<RawControl>)
    requires
        same_shape(opt_rows_view(values@), nested_texts_of(html@, "form"@, inner@)),
        i < values@.len(),
    ensures
        controls_view(r@) == controls_of(html@, inner@, opt_rows_view(values@), i as int),
{
    let names = nested_attrs(html, "form", inner, "name");
    let types = nested_attrs(html, "form", inner, "type");
    let flags = nested_flags(html, "form", inner, "disabled");
    let ghost shape = nested_texts_of(html@, "form"@, inner@);
    let ghost want = controls_of(html@, inner@, opt_rows_view(values@), i as int);
    assert(opt_rows_view(values@)[i as int] == opt_strings_view(values@[i as int]@));
    assert(opt_rows_view(names@)[i as int] == opt_strings_view(names@[i as int]@));
    assert(opt_rows_view(types@)[i as int] == opt_strings_view(types@[i as int]@));
    assert(flag_rows_view(flags@)[i as int] == flags@[i as int]@);
    let n = values[i].len();
    let mut out: Vec<RawControl> = Vec::new();
    let mut j: usize = 0;
    while j < n
        invariant
            j <= n,
            n == values@[i as int]@.len(),
            i < values@.len(),
            same_shape(opt_rows_view(values@), shape),
            same_shape(opt_rows_view(names@), shape),
            same_shape(opt_rows_view(types@), shape),
            same_shape(flag_rows_view(flags@), shape),
            shape == nested_texts_of(html@, "form"@, inner@),
            opt_rows_view(names@) == nested_attrs_of(html@, "form"@, inner@, "name"@),
            opt_rows_view(types@) == nested_attrs_of(html@, "form"@, inner@, "type"@),
            flag_rows_view(flags@) == nested_flags_of(html@, "form"@, inner@, "disabled"@),
            want == controls_of(html@, inner@, opt_rows_view(values@), i as int),
            opt_rows_view(values@)[i as int] == opt_strings_view(values@[i as int]@),
            opt_rows_view(names@)[i as int] == opt_strings_view(names@[i as int]@),
            opt_rows_view(types@)[i as int] == opt_strings_view(types@[i as int]@),
            flag_rows_view(flags@)[i as int] == flags@[i as int]@,
            controls_view(out@) == want.take(j as int),
        decreases n - j,
    {
        assert(opt_rows_view(values@)[i as int].len() == shape[i as int].len());
        assert(opt_rows_view(names@)[i as int].len() == shape[i as int].len());
        assert(opt_rows_view(types@)[i as int].len() == shape[i as int].len());
        assert(flag_rows_view(flags@)[i as int].len() == shape[i as int].len());
        let c = RawControl {
            name: names[i][j].clone(),
            value: values[i][j].clone(),
            control_type: types[i][j].clone(),
            disabled: flags[i][j],
        };
        let ghost o0 = out@;
        out.push(c);
        assert(want[j as int] == c@);
        assert(controls_view(out@) =~= controls_view(o0).push(c@));
        assert(want.take(j + 1) =~= want.take(j as int).push(want[j as int]));
        j += 1;
    }
    assert(want.take(n as int) =~= want);
    out
}

/// Reads the forms of a page (see `raw_forms_of`).
pub fn raw_forms(html: &str) -> (r: Vec<RawForm>)
    ensures
        raw_forms_view(r@) == raw_forms_of(html@),
{
    let actions = element_attrs(html, "form", "action");
    let methods = element_attrs(html, "form", "method");
    let ids = element_attrs(html, "form", "id");
    let input_values = nested_attrs(html, "form", "input", "value");
    let select_values = nested_child_attrs(html, "form", "select", "option[selected]", "value");
    let texts = nested_texts(html, "form", "textarea");
    let mut textarea_vals: Vec<Vec<Option<String>>> = Vec::new();
    let mut k: usize = 0;
    while k < texts.len()
        invariant
            k <= texts@.len(),
            textarea_vals@.len() == k,
            forall|a: int| 0 <= a < k ==> #[trigger] opt_strings_view(textarea_vals@[a]@) == textarea_values(html@)[a],
            rows_view(texts@) == nested_texts_of(html@, "form"@, "textarea"@),
        decreases texts@.len() - k,
    {
        let mut row: Vec<Option<String>> = Vec::new();
        let mut j: usize = 0;
        assert(rows_view(texts@)[k as int] == strings_view(texts@[k as int]@));
        while j < texts[k].len()
            invariant
                k < texts@.len(),
                j <= texts@[k as int]@.len(),
                opt_strings_view(row@) =~= strings_view(texts@[k as int]@).take(j as int).map_values(
                    |t: Seq<char>| Some(t),
                ),
            decreases texts@[k as int]@.len() - j,
        {
            let ghost r0 = row@;
            row.push(Some(texts[k][j].clone()));
            assert(opt_strings_view(row@) =~= opt_strings_view(r0).push(Some(texts@[k as int]@[j as int]@)));
            assert(strings_view(texts@[k as int]@).take(j + 1) =~= strings_view(texts@[k as int]@).take(j as int).push(
                texts@[k as int]@[j as int]@,
            ));
            j += 1;
        }
        assert(strings_view(texts@[k as int]@).take(j as int) =~= strings_view(texts@[k as int]@));
        textarea_vals.push(row);
        k += 1;
    }
    proof {
        assert(opt_rows_view(textarea_vals@) =~= textarea_values(html@));
        let sh = nested_texts_of(html@, "form"@, "textarea"@);
        assert forall|a: int| 0 <= a < opt_rows_view(textarea_vals@).len() implies #[trigger] opt_rows_view(
            textarea_vals@,
        )[a].len() == sh[a].len() by {
            assert(opt_rows_view(textarea_vals@)[a] == textarea_values(html@)[a]);
        }
    }
    let ghost want = raw_forms_of(html@);
    let n = actions.len();
    let mut out: Vec<RawForm> = Vec::new();
    let mut i: usize = 0;
    while i < n
        invariant
            i <= n,
            n == actions@.len(),
            n == element_texts_of(html@, "form"@).len(),
            methods@.len() == n,
            ids@.len() == n,
            input_values@.len() == n,
            select_values@.len() == n,
            textarea_vals@.len() == n,
            opt_strings_view(actions@) == element_attrs_of(html@, "form"@, "action"@),
            opt_strings_view(methods@) == element_attrs_of(html@, "form"@, "method"@),
            opt_strings_view(ids@) == element_attrs_of(html@, "form"@, "id"@),
            opt_rows_view(input_values@) == nested_attrs_of(html@, "form"@, "input"@, "value"@),
            same_shape(opt_rows_view(input_values@), nested_texts_of(html@, "form"@, "input"@)),
            opt_rows_view(select_values@) == nested_child_attrs_of(html@, "form"@, "select"@, "option[selected]"@, "value"@),
            same_shape(opt_rows_view(select_values@), nested_texts_of(html@, "form"@, "select"@)),
            opt_rows_view(textarea_vals@) == textarea_values(html@),
            same_shape(opt_rows_view(textarea_vals@), nested_texts_of(html@, "form"@, "textarea"@)),
            want == raw_forms_of(html@),
            raw_forms_view(out@) == want.take(i as int),
        decreases n - i,
    {
        let inputs = form_controls(html, "input", &input_values, i);
        let selects = form_controls(html, "select", &select_values, i);
        let textareas = form_controls(html, "textarea", &textarea_vals, i);
        assert(opt_strings_view(actions@)[i as int] == opt_chars(actions@[i as int]));
        assert(opt_strings_view(methods@)[i as int] == opt_chars(methods@[i as int]));
        assert(opt_strings_view(ids@)[i as int] == opt_chars(ids@[i as int]));
        let f = RawForm {
            action: actions[i].clone(),
            method: methods[i].clone(),
            id: ids[i].clone(),
            inputs,
            selects,
            textareas,
        };
        let ghost o0 = out@;
        out.push(f);
        assert(want[i as int] == f@);
        assert(raw_forms_view(out@) =~= raw_forms_view(o0).push(f@));
        assert(want.take(i + 1) =~= want.take(i as int).push(want[i as int]));
        i += 1;
    }
    assert(want.take(n as int) =~= want);
    out
}

// ---------------------------------------------------------------------------
// Ancestors and siblings
// ---------------------------------------------------------------------------

/// For the first element `target` matches in `html`, each of its ancestors,
/// nearest first: the texts of the elements `inner` matches within it.
pub uninterp spec fn first_ancestor_texts_of(html: Seq<char>, target: Seq<char>, inner: Seq<char>) -> Seq<Seq<Seq<char>>>;

/// For each element `target` matches, the tag name of each of its ancestors,
/// nearest first (empty for the document node).
pub uninterp spec fn ancestor_names_of(html: Seq<char>, target: Seq<char>) -> Seq<Seq<Seq<char>>>;

/// For each element `target` matches, the attribute `name` of each of its
/// ancestors, nearest first.
pub uninterp spec fn ancestor_attrs_of(html: Seq<char>, target: Seq<char>, name: Seq<char>) -> Seq<Seq<Option<Seq<char>>>>;

/// The texts of the elements `inner` matches within the `level`-th ancestor
/// (nearest first) of the `k`-th element `target` matches.
pub uninterp spec fn ancestor_inner_texts_of(html: Seq<char>, target: Seq<char>, k: nat, level: nat, inner: Seq<char>) -> Seq<
    Seq<char>,
>;

/// For each element `target` matches, the tag names of the elements before
/// it under the same parent, nearest first.
pub uninterp spec fn preceding_names_of(html: Seq<char>, target: Seq<char>) -> Seq<Seq<Seq<char>>>;

/// For each element `target` matches, the texts of the elements before it
/// under the same parent, nearest first.
pub uninterp spec fn preceding_texts_of(html: Seq<char>, target: Seq<char>) -> Seq<Seq<Seq<char>>>;

/// The texts of the elements `sel` matches within the `level`-th ancestor of
/// the `j`-th element `inner` matches within the `i`-th element `outer`
/// matches.
pub uninterp spec fn nested_ancestor_texts_of(
    html: Seq<char>,
    outer: Seq<char>,
    i: nat,
    inner: Seq<char>,
    j: nat,
    level: nat,
    sel: Seq<char>,
) -> Seq<Seq<char>>;

/// The attribute `name` of the same elements as `nested_ancestor_texts_of`.
pub uninterp spec fn nested_ancestor_attrs_of(
    html: Seq<char>,
    outer: Seq<char>,
    i: nat,
    inner: Seq<char>,
    j: nat,
    level: nat,
    sel: Seq<char>,
    name: Seq<char>,
) -> Seq<Option<Seq<char>>>;

/// Calls `Document::from`, `try_select(target)`, `ancestors(None)` on the
/// first match, and on each ancestor `try_select(inner)` and `text()`.
#[verifier::external_body]
pub(crate) fn first_ancestor_texts(html: &str, target: &str, inner: &str) -> (r: Vec<Vec<String>>)
    ensures
        rows_view(r@) == first_ancestor_texts_of(html@, target@, inner@),
{
    let doc = dom_query::Document::from(html);
    let first = doc.try_select(target).and_then(|s| s.nodes().first().copied());
    let ups = first.map(|n| n.ancestors(None)).unwrap_or_default();
    let texts = |s: dom_query::Selection<'_>| s.iter().map(|e| e.text().to_string()).collect();
    ups.iter().map(|a| dom_query::Selection::from(*a).try_select(inner).map(texts).unwrap_or_default()).collect()
}

/// Calls `Document::from`, `try_select(target)`, and on each match
/// `ancestors(None)` and `node_name()`.
#[verifier::external_body]
pub(crate) fn ancestor_names(html: &str, target: &str) -> (r: Vec<Vec<String>>)
    ensures
        rows_view(r@) == ancestor_names_of(html@, target@),
        r@.len() == element_texts_of(html@, target@).len(),
{
    let doc = dom_query::Document::from(html);
    let all = doc.try_select(target).map(|s| s.nodes().to_vec()).unwrap_or_default();
    let name = |a: &dom_query::NodeRef<'_>| a.node_name().map(|t| t.to_string()).unwrap_or_default();
    all.iter().map(|n| n.ancestors(None).iter().map(name).collect()).collect()
}

/// Calls `Document::from`, `try_select(target)`, and on each match
/// `ancestors(None)` and `attr(name)`; the same ancestors as
/// `ancestor_names`.
#[verifier::external_body]
pub(crate) fn ancestor_attrs(html: &str, target: &str, name: &str) -> (r: Vec<Vec<Option<String>>>)
    ensures
        opt_rows_view(r@) == ancestor_attrs_of(html@, target@, name@),
        same_shape(opt_rows_view(r@), ancestor_names_of(html@, target@)),
{
    let doc = dom_query::Document::from(html);
    let all = doc.try_select(target).map(|s| s.nodes().to_vec()).unwrap_or_default();
    let attr = |a: &dom_query::NodeRef<'_>| a.attr(name).map(|t| t.to_string());
    all.iter().map(|n| n.ancestors(None).iter().map(attr).collect()).collect()
}

/// Calls `Document::from`, `try_select(target)`, `ancestors(None)` on the
/// `k`-th match, and `try_select(inner)` and `text()` on its `level`-th
/// ancestor.
#[verifier::external_body]
pub(crate) fn ancestor_inner_texts(html: &str, target: &str, k: usize, level: usize, inner: &str) -> (r: Vec<String>)
    ensures
        strings_view(r@) == ancestor_inner_texts_of(html@, target@, k as nat, level as nat, inner@),
{
    let doc = dom_query::Document::from(html);
    let node = doc.try_select(target).and_then(|s| s.nodes().get(k).copied());
    let up = node.and_then(|n| n.ancestors(None).get(level).copied());
    let found = up.and_then(|a| dom_query::Selection::from(a).try_select(inner));
    found.map(|s| s.iter().map(|e| e.text().to_string()).collect()).unwrap_or_default()
}

/// Calls `Document::from`, `try_select(target)`, and on each match
/// `prev_element_sibling()` repeatedly and `node_name()`.
#[verifier::external_body]
pub(crate) fn preceding_names(html: &str, target: &str) -> (r: Vec<Vec<String>>)
    ensures
        rows_view(r@) == preceding_names_of(html@, target@),
        r@.len() == element_texts_of(html@, target@).len(),
{
    let doc = dom_query::Document::from(html);
    let all = doc.try_select(target).map(|s| s.nodes().to_vec()).unwrap_or_default();
    let name = |a: dom_query::NodeRef<'_>| a.node_name().map(|t| t.to_string()).unwrap_or_default();
    all.iter().map(|n| std::iter::successors(n.prev_element_sibling(), |p| p.prev_element_sibling()).map(name).collect()).collect()
}

/// Calls `Document::from`, `try_select(target)`, and on each match
/// `prev_element_sibling()` repeatedly and `text()`; the same elements as
/// `preceding_names`.
#[verifier::external_body]
pub(crate) fn preceding_texts(html: &str, target: &str) -> (r: Vec<Vec<String>>)
    ensures
        rows_view(r@) == preceding_texts_of(html@, target@),
        same_shape(rows_view(r@), preceding_names_of(html@, target@)),
{
    let doc = dom_query::Document::from(html);
    let all = doc.try_select(target).map(|s| s.nodes().to_vec()).unwrap_or_default();
    let text = |a: dom_query::NodeRef<'_>| a.text().to_string();
    all.iter().map(|n| std::iter::successors(n.prev_element_sibling(), |p| p.prev_element_sibling()).map(text).collect()).collect()
}

/// Calls `Document::from`, `try_select(outer)` and `try_select(inner)` to
/// reach the `j`-th `inner` of the `i`-th `outer`, `ancestors(None)` on it,
/// and `try_select(sel)` and `text()` on its `level`-th ancestor.
#[verifier::external_body]
pub(crate) fn nested_ancestor_texts(html: &str, outer: &str, i: usize, inner: &str, j: usize, level: usize, sel: &str) -> (r: Vec<String>)
    ensures
        strings_view(r@) == nested_ancestor_texts_of(html@, outer@, i as nat, inner@, j as nat, level as nat, sel@),
{
    let doc = dom_query::Document::from(html);
    let o = doc.try_select(outer).and_then(|s| s.nodes().get(i).copied());
    let n = o.and_then(|o| dom_query::Selection::from(o).try_select(inner)).and_then(|s| s.nodes().get(j).copied());
    let up = n.and_then(|n| n.ancestors(None).get(level).copied());
    let found = up.and_then(|a| dom_query::Selection::from(a).try_select(sel));
    found.map(|s| s.iter().map(|e| e.text().to_string()).collect()).unwrap_or_default()
}

/// The same walk as `nested_ancestor_texts`, reading `attr(name)` of each
/// element `sel` matches.
#[verifier::external_body]
pub(crate) fn nested_ancestor_attrs(html: &str, outer: &str, i: usize, inner: &str, j: usize, level: usize, sel: &str, name: &str) -> (r: Vec<Option<String>>)
    ensures
        opt_strings_view(r@) == nested_ancestor_attrs_of(html@, outer@, i as nat, inner@, j as nat, level as nat, sel@, name@),
        r@.len() == nested_ancestor_texts_of(html@, outer@, i as nat, inner@, j as nat, level as nat, sel@).len(),
{
    let doc = dom_query::Document::from(html);
    let o = doc.try_select(outer).and_then(|s| s.nodes().get(i).copied());
    let n = o.and_then(|o| dom_query::Selection::from(o).try_select(inner)).and_then(|s| s.nodes().get(j).copied());
    let up = n.and_then(|n| n.ancestors(None).get(level).copied());
    let found = up.and_then(|a| dom_query::Selection::from(a).try_select(sel));
    found.map(|s| s.iter().map(|e| e.attr(name).map(|t| t.to_string())).collect()).unwrap_or_default()
}

// ---------------------------------------------------------------------------
// Text and Markdown
// ---------------------------------------------------------------------------

/// Tags whose text is never visible to a reader.
pub open spec fn invisible_tags() -> Seq<Seq<char>> {
    seq!["script"@, "style"@, "noscript"@]
}

/// Boilerplate and page chrome stripped before Markdown conversion.
pub open spec fn noise_selectors() -> Seq<Seq<char>> {
    seq![
        "nav"@,
        "footer"@,
        "header"@,
        ".nav"@,
        ".navbar"@,
        ".footer"@,
        ".sidebar"@,
        ".menu"@,
        ".breadcrumb"@,
        ".pagination"@,
        ".cookie-banner"@,
        ".cookie-consent"@,
        "#cookie-banner"@,
        "[role=navigation]"@,
        "[role=banner]"@,
        "[role=contentinfo]"@,
        "iframe"@,
    ]
}

fn push_str(v: &mut Vec<String>, s: &str)
    ensures
        strings_view(final(v)@) == strings_view(old(v)@).push(s@),
{
    let ghost v0 = v@;
    v.push(String::from_str(s));
    assert(strings_view(v@) =~= strings_view(v0).push(s@));
}

fn invisible_tag_list() -> (v: Vec<String>)
    ensures
        strings_view(v@) == invisible_tags(),
{
    let mut v: Vec<String> = Vec::new();
    push_str(&mut v, "script");
    push_str(&mut v, "style");
    push_str(&mut v, "noscript");
    proof {
        reveal_strlit("script");
        reveal_strlit("style");
        reveal_strlit("noscript");
    }
    assert(strings_view(v@) =~= invisible_tags());
    v
}

fn fit_selector_list() -> (v: Vec<String>)
    ensures
        strings_view(v@) == invisible_tags() + noise_selectors(),
{
    let mut v = invisible_tag_list();
    push_str(&mut v, "nav");
    push_str(&mut v, "footer");
    push_str(&mut v, "header");
    push_str(&mut v, ".nav");
    push_str(&mut v, ".navbar");
    push_str(&mut v, ".footer");
    push_str(&mut v, ".sidebar");
    push_str(&mut v, ".menu");
    push_str(&mut v, ".breadcrumb");
    push_str(&mut v, ".pagination");
    push_str(&mut v, ".cookie-banner");
    push_str(&mut v, ".cookie-consent");
    push_str(&mut v, "#cookie-banner");
    push_str(&mut v, "[role=navigation]");
    push_str(&mut v, "[role=banner]");
    push_str(&mut v, "[role=contentinfo]");
    push_str(&mut v, "iframe");
    assert(strings_view(v@) =~= invisible_tags() + noise_selectors());
    v
}

/// The visible text of a page: the text of its `<body>` once `script`,
/// `style` and `noscript` elements are removed, whitespace collapsed.
pub open spec fn plain_text_of(html: Seq<char>) -> Seq<char> {
    collapsed(selection_text_of(stripped_html_of(html, invisible_tags()), "body"@))
}

/// The visible text of a page (see `plain_text_of`).
pub fn html_to_plain(html: &str) -> (r: String)
    ensures
        r@ == plain_text_of(html@),
{
    let stripped = html_without(html, &invisible_tag_list());
    let text = selection_text(stripped.as_str(), "body");
    collapse_whitespace(text.as_str())
}

/// Raw HTML converted to Markdown.
pub fn html_to_markdown(html: &str) -> (r: String)
    ensures
        r@ == markdown_of(html@),
{
    htmd_convert(html)
}

/// The Markdown of a page without its invisible tags and page chrome.
pub open spec fn fit_markdown_of(html: Seq<char>) -> Seq<char> {
    markdown_of(stripped_html_of(html, invisible_tags() + noise_selectors()))
}

/// HTML with invisible tags and page chrome removed, converted to Markdown.
pub fn html_to_fit_markdown(html: &str) -> (r: String)
    ensures
        r@ == fit_markdown_of(html@),
{
    let stripped = html_without(html, &fit_selector_list());
    htmd_convert(stripped.as_str())
}

/// The text of the page's `<title>`.
pub fn title_text(html: &str) -> (r: String)
    ensures
        r@ == selection_text_of(html@, "title"@),
{
    selection_text(html, "title")
}

/// The text of the page's `<body>`.
pub fn body_text(html: &str) -> (r: String)
    ensures
        r@ == selection_text_of(html@, "body"@),
{
    selection_text(html, "body")
}

// ---------------------------------------------------------------------------
// Links and meta tags
// ---------------------------------------------------------------------------

/// What a link holds.
pub open spec fn link_view(l: Link) -> (Seq<char>, Seq<char>) {
    (l.href@, l.text@)
}

/// The views of some links.
pub open spec fn links_view(v: Seq<Link>) -> Seq<(Seq<char>, Seq<char>)> {
    v.map_values(|l: Link| link_view(l))
}

/// The links among the first `i` anchors: each with an `href`, with its text.
pub open spec fn anchor_links(hrefs: Seq<Option<Seq<char>>>, texts: Seq<Seq<char>>, i: nat) -> Seq<
    (Seq<char>, Seq<char>),
>
    decreases i,
{
    if i == 0 || i > hrefs.len() {
        Seq::empty()
    } else {
        let rest = anchor_links(hrefs, texts, (i - 1) as nat);
        match hrefs[i - 1] {
            Some(h) => rest.push((h, texts[i - 1])),
            None => rest,
        }
    }
}

/// The links of a page: every `<a href>`, in document order.
pub open spec fn links_of(html: Seq<char>) -> Seq<(Seq<char>, Seq<char>)> {
    let hrefs = element_attrs_of(html, "a[href]"@, "href"@);
    anchor_links(hrefs, element_texts_of(html, "a[href]"@), hrefs.len())
}

/// The links of a page (see `links_of`).
pub fn page_links(html: &str) -> (r: Vec<Link>)
    ensures
        links_view(r@) == links_of(html@),
{
    let hrefs = element_attrs(html, "a[href]", "href");
    let texts = element_texts(html, "a[href]");
    let ghost hv = opt_strings_view(hrefs@);
    let ghost tv = strings_view(texts@);
    let mut out: Vec<Link> = Vec::new();
    let mut i: usize = 0;
    while i < hrefs.len()
        invariant
            i <= hrefs@.len(),
            hrefs@.len() == texts@.len(),
            hv == opt_strings_view(hrefs@),
            tv == strings_view(texts@),
            links_view(out@) == anchor_links(hv, tv, i as nat),
        decreases hrefs@.len() - i,
    {
        match &hrefs[i] {
            Some(h) => {
                let ghost o0 = out@;
                out.push(Link { href: h.clone(), text: texts[i].clone() });
                assert(hv[i as int] == Some(h@));
                assert(links_view(out@) =~= links_view(o0).push((h@, tv[i as int])));
            },
            None => {},
        }
        i += 1;
    }
    out
}

/// What a meta tag holds.
pub open spec fn meta_view(m: MetaTag) -> (Seq<char>, Seq<char>, Seq<char>) {
    (m.name@, m.property@, m.content@)
}

/// The views of some meta tags.
pub open spec fn metas_view(v: Seq<MetaTag>) -> Seq<(Seq<char>, Seq<char>, Seq<char>)> {
    v.map_values(|m: MetaTag| meta_view(m))
}

/// The meta tags of a page: each `<meta>`'s `name`, `property` and
/// `content` (empty when missing), in document order.
pub open spec fn meta_tags_of(html: Seq<char>) -> Seq<(Seq<char>, Seq<char>, Seq<char>)> {
    Seq::new(
        element_texts_of(html, "meta"@).len(),
        |i: int|
            (
                opt_text(element_attrs_of(html, "meta"@, "name"@)[i]),
                opt_text(element_attrs_of(html, "meta"@, "property"@)[i]),
                opt_text(element_attrs_of(html, "meta"@, "content"@)[i]),
            ),
    )
}

fn text_or_empty(o: &Option<String>) -> (r: String)
    ensures
        r@ == opt_text(opt_chars(*o)),
{
    match o {
        Some(s) => s.clone(),
        None => String::new(),
    }
}

/// The meta tags of a page (see `meta_tags_of`).
pub fn page_meta_tags(html: &str) -> (r: Vec<MetaTag>)
    ensures
        metas_view(r@) == meta_tags_of(html@),
{
    let names = element_attrs(html, "meta", "name");
    let properties = element_attrs(html, "meta", "property");
    let contents = element_attrs(html, "meta", "content");
    let ghost n = element_texts_of(html@, "meta"@).len();
    let ghost mt = meta_tags_of(html@);
    assert(mt.len() == n);
    let mut out: Vec<MetaTag> = Vec::new();
    let mut i: usize = 0;
    assert(metas_view(out@) =~= mt.take(0));
    while i < names.len()
        invariant
            i <= names@.len(),
            names@.len() == n,
            properties@.len() == n,
            contents@.len() == n,
            mt == meta_tags_of(html@),
            mt.len() == n,
            opt_strings_view(names@) == element_attrs_of(html@, "meta"@, "name"@),
            opt_strings_view(properties@) == element_attrs_of(html@, "meta"@, "property"@),
            opt_strings_view(contents@) == element_attrs_of(html@, "meta"@, "content"@),
            metas_view(out@) == mt.take(i as int),
        decreases names@.len() - i,
    {
        let ghost o0 = out@;
        let m = MetaTag {
            name: text_or_empty(&names[i]),
            property: text_or_empty(&properties[i]),
            content: text_or_empty(&contents[i]),
        };
        out.push(m);
        assert(opt_strings_view(names@)[i as int] == opt_chars(names@[i as int]));
        assert(opt_strings_view(properties@)[i as int] == opt_chars(properties@[i as int]));
        assert(opt_strings_view(contents@)[i as int] == opt_chars(contents@[i as int]));
        assert(mt[i as int] == meta_view(m));
        assert(metas_view(out@) =~= metas_view(o0).push(meta_view(m)));
        assert(mt.take(i + 1) =~= mt.take(i as int).push(mt[i as int]));
        i += 1;
    }
    assert(mt.take(n as int) =~= mt);
    out
}

// ---------------------------------------------------------------------------
// Forms
// ---------------------------------------------------------------------------

/// The form a form's markup gives: its action (empty when missing), its
/// submission method, and its named controls as fields.
pub open spec fn form_from_raw(f: RawFormView) -> (Seq<char>, Seq<char>, Seq<FieldView>) {
    (
        opt_text(f.action),
        method_of(f.method),
        fields_of(f.inputs, None, f.inputs.len()) + fields_of(f.selects, Some("select"@), f.selects.len())
            + fields_of(f.textareas, Some("textarea"@), f.textareas.len()),
    )
}

/// What a form holds.
pub open spec fn form_view(f: Form) -> (Seq<char>, Seq<char>, Seq<FieldView>) {
    (f.action@, f.method@, fields_view(f.fields@))
}

fn build_form(raw: &RawForm) -> (f: Form)
    ensures
        form_view(f) == form_from_raw(raw@),
{
    let action = match &raw.action {
        Some(a) => Some(a.clone()),
        None => None,
    };
    let method = match &raw.method {
        Some(m) => Some(m.as_str()),
        None => None,
    };
    Form::from_controls(action, method, &raw.inputs, &raw.selects, &raw.textareas)
}

/// The forms of a page, in document order (see `form_from_raw`).
pub fn page_forms(html: &str) -> (r: Vec<Form>)
    ensures
        r@.len() == raw_forms_of(html@).len(),
        forall|i: int| 0 <= i < r@.len() ==> form_view(#[trigger] r@[i]) == form_from_raw(raw_forms_of(html@)[i]),
{
    let raws = raw_forms(html);
    let ghost rv = raw_forms_of(html@);
    let mut out: Vec<Form> = Vec::new();
    let mut i: usize = 0;
    while i < raws.len()
        invariant
            i <= raws@.len(),
            rv == raw_forms_view(raws@),
            rv == raw_forms_of(html@),
            out@.len() == i,
            forall|j: int| 0 <= j < i ==> form_view(#[trigger] out@[j]) == form_from_raw(rv[j]),
        decreases raws@.len() - i,
    {
        let f = build_form(&raws[i]);
        out.push(f);
        i += 1;
    }
    out
}

/// The index of the first form whose `id` attribute is `id`, if any.
pub open spec fn is_first_with_id(forms: Seq<RawFormView>, id: Seq<char>, k: int) -> bool {
    &&& 0 <= k < forms.len()
    &&& forms[k].id == Some(id)
    &&& forall|j: int| 0 <= j < k ==> forms[j].id != Some(id)
}

/// The first form of a page whose `id` is `id`, if there is one.
pub fn page_form_by_id(html: &str, id: &str) -> (r: Option<Form>)
    ensures
        match r {
            Some(f) => exists|k: int|
                is_first_with_id(raw_forms_of(html@), id@, k) && form_view(f) == form_from_raw(
                    raw_forms_of(html@)[k],
                ),
            None => forall|k: int|
                0 <= k < raw_forms_of(html@).len() ==> raw_forms_of(html@)[k].id != Some(
                    id@,
                ),
        },
{
    let raws = raw_forms(html);
    let ghost rv = raw_forms_of(html@);
    let mut i: usize = 0;
    while i < raws.len()
        invariant
            i <= raws@.len(),
            rv == raw_forms_view(raws@),
            rv == raw_forms_of(html@),
            forall|j: int| 0 <= j < i ==> rv[j].id != Some(id@),
        decreases raws@.len() - i,
    {
        let matches = match &raws[i].id {
            Some(x) => str_eq(x.as_str(), id),
            None => false,
        };
        assert(rv[i as int] == raws@[i as int]@);
        if matches {
            let f = build_form(&raws[i]);
            assert(is_first_with_id(rv, id@, i as int));
            assert(rv == raw_forms_of(html@));
            return Some(f);
        }
        i += 1;
    }
    None
}

// ---------------------------------------------------------------------------
// Structured-data scripts
// ---------------------------------------------------------------------------

/// The selector of structured-data scripts.
pub open spec fn ld_json_css() -> Seq<char> {
    "script[type='application/ld+json']"@
}

/// The trimmed, non-empty texts among the first `i` texts.
pub open spec fn nonempty_trimmed(texts: Seq<Seq<char>>, i: nat) -> Seq<Seq<char>>
    decreases i,
{
    if i == 0 || i > texts.len() {
        Seq::empty()
    } else {
        let rest = nonempty_trimmed(texts, (i - 1) as nat);
        let t = trim(texts[i - 1]);
        if t.len() == 0 {
            rest
        } else {
            rest.push(t)
        }
    }
}

/// The texts of a page's structured-data scripts
/// (`<script type="application/ld+json">`), trimmed, empty ones left out,
/// in document order.
pub open spec fn ld_json_texts_of(html: Seq<char>) -> Seq<Seq<char>> {
    let texts = element_texts_of(html, ld_json_css());
    nonempty_trimmed(texts, texts.len())
}

/// The texts of a page's structured-data scripts (see `ld_json_texts_of`);
/// parsing them as JSON is left to the caller.
pub fn ld_json_scripts(html: &str) -> (r: Vec<String>)
    ensures
        strings_view(r@) == ld_json_texts_of(html@),
{
    let texts = element_texts(html, "script[type='application/ld+json']");
    let ghost tv = strings_view(texts@);
    let mut out: Vec<String> = Vec::new();
    let mut i: usize = 0;
    while i < texts.len()
        invariant
            i <= texts@.len(),
            tv == strings_view(texts@),
            strings_view(out@) == nonempty_trimmed(tv, i as nat),
        decreases texts@.len() - i,
    {
        let cs = chars_of(texts[i].as_str());
        let t = trim_chars(cs.as_slice());
        if t.len() > 0 {
            let s = string_from_chars(&t);
            let ghost o0 = out@;
            out.push(s);
            assert(strings_view(out@) =~= strings_view(o0).push(trim(tv[i as int])));
        }
        i += 1;
    }
    out
}

} // verus!
