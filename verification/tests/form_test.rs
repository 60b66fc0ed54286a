use ox_browser::form::{Form, FormField, RawControl};

fn field(name: &str, value: &str, disabled: bool) -> FormField {
    FormField {
        name: name.to_string(),
        value: value.to_string(),
        field_type: "text".to_string(),
        disabled,
    }
}

#[test]
fn serialize_encodes_and_skips() {
    let form = Form {
        action: "/login".into(),
        method: "POST".into(),
        fields: vec![
            field("user name", "a&b=c", false),
            field("", "ignored", false),
            field("off", "x", true),
            field("q", "héllo*-._~", false),
        ],
    };
    assert_eq!(form.serialize(), "user+name=a%26b%3Dc&q=h%C3%A9llo*-._%7E");
}

#[test]
fn set_field_updates_first_match_only() {
    let mut form = Form {
        action: String::new(),
        method: "GET".into(),
        fields: vec![field("a", "1", false), field("b", "2", false), field("a", "3", false)],
    };
    form.set_field("a", "new");
    assert_eq!(form.fields[0].value, "new");
    assert_eq!(form.fields[2].value, "3");
    form.set_field("missing", "x");
    assert_eq!(form.serialize(), "a=new&b=2&a=3");
}

fn control(name: Option<&str>, value: Option<&str>, ty: Option<&str>, disabled: bool) -> RawControl {
    RawControl {
        name: name.map(|s| s.to_string()),
        value: value.map(|s| s.to_string()),
        control_type: ty.map(|s| s.to_string()),
        disabled,
    }
}

#[test]
fn form_from_controls_orders_and_types_fields() {
    let inputs = vec![
        control(Some("user"), Some("ann"), Some("text"), false),
        control(None, Some("x"), Some("hidden"), false),
        control(Some("token"), None, None, true),
    ];
    let selects = vec![control(Some("lang"), Some("en"), None, false)];
    let textareas = vec![control(Some("bio"), Some("hello"), None, false), control(Some(""), None, None, false)];
    let form = Form::from_controls(Some("/login".into()), Some("post"), &inputs, &selects, &textareas);
    assert_eq!(form.action, "/login");
    assert_eq!(form.method, "POST");
    let names: Vec<&str> = form.fields.iter().map(|f| f.name.as_str()).collect();
    assert_eq!(names, vec!["user", "token", "lang", "bio"]);
    assert_eq!(form.fields[0].field_type, "text");
    assert_eq!(form.fields[1].field_type, "");
    assert_eq!(form.fields[1].value, "");
    assert!(form.fields[1].disabled);
    assert_eq!(form.fields[2].field_type, "select");
    assert_eq!(form.fields[3].field_type, "textarea");
    assert_eq!(form.serialize(), "user=ann&lang=en&bio=hello");
}

#[test]
fn form_method_defaults_to_get() {
    let none: Vec<RawControl> = vec![];
    assert_eq!(Form::from_controls(None, None, &none, &none, &none).method, "GET");
    assert_eq!(Form::from_controls(None, Some(""), &none, &none, &none).method, "GET");
    assert_eq!(Form::from_controls(None, Some("Get"), &none, &none, &none).method, "GET");
    assert_eq!(Form::from_controls(None, None, &none, &none, &none).action, "");
}
