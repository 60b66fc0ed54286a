use ox_browser::html_doc::{body_text, page_form_by_id, page_forms, page_links, page_meta_tags, title_text};

/// The page readers take the HTML itself; a page is its HTML here.
struct Page {
    html: String,
}

impl Page {
    fn new(_url: String, _status: u16, html: &str) -> Self {
        Page { html: html.to_string() }
    }
    fn forms(&self) -> Vec<ox_browser::form::Form> {
        page_forms(&self.html)
    }
    fn form_by_id(&self, id: &str) -> Option<ox_browser::form::Form> {
        page_form_by_id(&self.html, id)
    }
    fn links(&self) -> Vec<ox_browser::page::Link> {
        page_links(&self.html)
    }
    fn meta_tags(&self) -> Vec<ox_browser::page::MetaTag> {
        page_meta_tags(&self.html)
    }
    fn title(&self) -> String {
        title_text(&self.html)
    }
    fn text(&self) -> String {
        body_text(&self.html)
    }
}

#[test]
fn test_extract_input_fields() {
    let page = Page::new(
        "https://example.com".into(),
        200,
        r#"<form action="/submit" method="post">
             <input type="text" name="username" value="alice">
             <input type="password" name="password" value="">
             <input type="submit" name="go" value="Login">
           </form>"#,
    );
    let forms = page.forms();
    assert_eq!(forms.len(), 1);
    let form = &forms[0];
    assert_eq!(form.action, "/submit");
    assert_eq!(form.method, "POST");
    assert_eq!(form.fields.len(), 3);

    assert_eq!(form.fields[0].name, "username");
    assert_eq!(form.fields[0].value, "alice");
    assert_eq!(form.fields[0].field_type, "text");
    assert!(!form.fields[0].disabled);

    assert_eq!(form.fields[1].name, "password");
    assert_eq!(form.fields[1].value, "");
    assert_eq!(form.fields[1].field_type, "password");
}

#[test]
fn test_extract_select_field() {
    let page = Page::new(
        "https://example.com".into(),
        200,
        r#"<form>
             <select name="color">
               <option value="red">Red</option>
               <option value="blue" selected>Blue</option>
               <option value="green">Green</option>
             </select>
           </form>"#,
    );
    let forms = page.forms();
    assert_eq!(forms.len(), 1);
    let form = &forms[0];

    let color_field = form.fields.iter().find(|f| f.name == "color");
    assert!(color_field.is_some());
    let color_field = color_field.unwrap();
    assert_eq!(color_field.value, "blue");
    assert_eq!(color_field.field_type, "select");
}

#[test]
fn test_extract_textarea_field() {
    let page = Page::new(
        "https://example.com".into(),
        200,
        r#"<form>
             <textarea name="message">Hello world</textarea>
           </form>"#,
    );
    let forms = page.forms();
    let form = &forms[0];

    let msg = form.fields.iter().find(|f| f.name == "message");
    assert!(msg.is_some());
    let msg = msg.unwrap();
    assert_eq!(msg.value, "Hello world");
    assert_eq!(msg.field_type, "textarea");
}

#[test]
fn test_set_field() {
    let page = Page::new(
        "https://example.com".into(),
        200,
        r#"<form>
             <input type="text" name="q" value="">
           </form>"#,
    );
    let mut forms = page.forms();
    let form = &mut forms[0];

    form.set_field("q", "rust browser");
    assert_eq!(form.fields[0].value, "rust browser");
}

#[test]
fn test_set_field_nonexistent() {
    let page = Page::new(
        "https://example.com".into(),
        200,
        r#"<form><input name="a" value="1"></form>"#,
    );
    let mut forms = page.forms();
    let form = &mut forms[0];

    // Setting a non-existent field should be a no-op
    form.set_field("missing", "value");
    assert_eq!(form.fields.len(), 1);
    assert_eq!(form.fields[0].name, "a");
    assert_eq!(form.fields[0].value, "1");
}

#[test]
fn test_serialize() {
    let page = Page::new(
        "https://example.com".into(),
        200,
        r#"<form>
             <input name="user" value="alice">
             <input name="pass" value="s3cret">
           </form>"#,
    );
    let forms = page.forms();
    let form = &forms[0];

    let serialized = form.serialize();
    assert_eq!(serialized, "user=alice&pass=s3cret");
}

#[test]
fn test_serialize_url_encoding() {
    let page = Page::new(
        "https://example.com".into(),
        200,
        r#"<form>
             <input name="q" value="hello world">
             <input name="tag" value="a&b">
           </form>"#,
    );
    let forms = page.forms();
    let form = &forms[0];

    let serialized = form.serialize();
    assert_eq!(serialized, "q=hello+world&tag=a%26b");
}

#[test]
fn test_serialize_excludes_disabled() {
    let page = Page::new(
        "https://example.com".into(),
        200,
        r#"<form>
             <input name="enabled" value="yes">
             <input name="disabled_field" value="no" disabled>
           </form>"#,
    );
    let forms = page.forms();
    let form = &forms[0];

    let serialized = form.serialize();
    assert_eq!(serialized, "enabled=yes");
}

#[test]
fn test_serialize_excludes_nameless() {
    let page = Page::new(
        "https://example.com".into(),
        200,
        r#"<form>
             <input name="real" value="data">
             <input value="nameless">
           </form>"#,
    );
    let forms = page.forms();
    let form = &forms[0];

    // Nameless inputs are excluded during extraction, so only 1 field
    assert_eq!(form.fields.len(), 1);
    assert_eq!(form.serialize(), "real=data");
}

#[test]
fn test_default_method_is_get() {
    let page = Page::new(
        "https://example.com".into(),
        200,
        r#"<form><input name="x" value="1"></form>"#,
    );
    let forms = page.forms();
    assert_eq!(forms[0].method, "GET");
}

#[test]
fn test_mixed_field_types() {
    let page = Page::new(
        "https://example.com".into(),
        200,
        r#"<form method="post" action="/save">
             <input type="text" name="title" value="My Post">
             <textarea name="body">Content here</textarea>
             <select name="category">
               <option value="tech" selected>Tech</option>
               <option value="life">Life</option>
             </select>
             <input type="hidden" name="csrf" value="tok123">
           </form>"#,
    );
    let forms = page.forms();
    let form = &forms[0];

    assert_eq!(form.method, "POST");
    assert_eq!(form.action, "/save");

    // 2 inputs + 1 textarea + 1 select = 4 fields
    assert_eq!(form.fields.len(), 4);

    let serialized = form.serialize();
    assert!(serialized.contains("title=My+Post"));
    assert!(serialized.contains("body=Content+here"));
    assert!(serialized.contains("category=tech"));
    assert!(serialized.contains("csrf=tok123"));
}


#[test]
fn test_page_title() {
    let page = Page::new(
        "https://example.com".into(),
        200,
        "<html><head><title>Test</title></head><body>Hello</body></html>",
    );
    assert_eq!(page.title(), "Test");
}

#[test]
fn test_page_links() {
    let page = Page::new(
        "https://example.com".into(),
        200,
        r#"<a href="/about">About</a><a href="https://other.com">Other</a>"#,
    );
    let links = page.links();
    assert_eq!(links.len(), 2);
    assert_eq!(links[0].href, "/about");
    assert_eq!(links[0].text, "About");
    assert_eq!(links[1].href, "https://other.com");
    assert_eq!(links[1].text, "Other");
}

#[test]
fn test_page_meta_tags() {
    let page = Page::new(
        "https://example.com".into(),
        200,
        r#"<meta name="description" content="A test page">"#,
    );
    let meta = page.meta_tags();
    assert!(meta
        .iter()
        .any(|m| m.name == "description" && m.content == "A test page"));
}

#[test]
fn test_page_text() {
    let page = Page::new(
        "https://example.com".into(),
        200,
        "<html><body><p>Hello</p><p>World</p></body></html>",
    );
    let text = page.text();
    assert!(text.contains("Hello"));
    assert!(text.contains("World"));
}

#[test]
fn test_page_no_links() {
    let page = Page::new("https://example.com".into(), 200, "<p>No links here</p>");
    assert!(page.links().is_empty());
}

#[test]
fn test_page_forms_count() {
    let page = Page::new(
        "https://example.com".into(),
        200,
        r#"<form id="f1"><input name="a"></form>
           <form id="f2"><input name="b"></form>"#,
    );
    assert_eq!(page.forms().len(), 2);
}

#[test]
fn test_page_form_by_id() {
    let page = Page::new(
        "https://example.com".into(),
        200,
        r#"<form id="login" action="/login" method="post">
             <input name="user" value="">
           </form>"#,
    );
    let form = page.form_by_id("login");
    assert!(form.is_some());
    let form = form.unwrap();
    assert_eq!(form.action, "/login");
    assert_eq!(form.method, "POST");
}

#[test]
fn test_page_form_by_id_not_found() {
    let page = Page::new(
        "https://example.com".into(),
        200,
        "<form><input name=\"x\"></form>",
    );
    assert!(page.form_by_id("missing").is_none());
}

