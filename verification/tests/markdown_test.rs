use ox_browser::markdown::{find_content_position, is_inside_image_syntax, strip_md_formatting, walk_back_past_orphans};

#[test]
fn find_content_position_skips_image_alt() {
    let md = "![alt needle text](/img.png) Some text. needle text here.";
    let pos = find_content_position(md, "needle text");
    assert!(pos.is_some());
    let pos = pos.unwrap();
    assert!(pos > md.find("](").unwrap(), "should skip the image-alt occurrence");
}

#[test]
fn find_content_position_multibyte_safe() {
    let md = "![foo needle bar](a.png) Ещё текст needle here";
    let pos = find_content_position(md, "needle");
    assert!(pos.is_some());
    let pos = pos.unwrap();
    assert!(md.is_char_boundary(pos));
}

#[test]
fn strip_md_formatting_removes_bold_italic() {
    assert_eq!(strip_md_formatting("**bold**"), "bold");
    assert_eq!(strip_md_formatting("*italic*"), "italic");
    assert_eq!(strip_md_formatting("**bold** and *italic*"), "bold and italic");
}

#[test]
fn image_syntax_detection() {
    let md = "![alt text](x.png) after";
    assert!(is_inside_image_syntax(md, 4));
    assert!(!is_inside_image_syntax(md, 20));
    assert!(!is_inside_image_syntax("plain text", 3));
}

#[test]
fn find_content_position_exact() {
    assert_eq!(find_content_position("abc abc", "abc"), Some(0));
    assert_eq!(find_content_position("![abc](x) abc", "abc"), Some(10));
    assert_eq!(find_content_position("![abc](x)", "abc"), None);
    assert_eq!(find_content_position("nothing", "abc"), None);
}

#[test]
fn walk_back_past_orphans_skips_short_lines() {
    let md = "## Heading\n\n42\n\nContent line here";
    let content_pos = md.find("Content").unwrap();
    let line_start = md[..content_pos].rfind('\n').map_or(0, |p| p + 1);
    let result = walk_back_past_orphans(md, line_start);
    assert!(md[..result].contains("Heading"));
}

#[test]
fn walk_back_stops_before_long_line() {
    let md = "This line is clearly longer than twenty-five bytes\n42\nContent";
    let pos = md.find("Content").unwrap();
    let result = walk_back_past_orphans(md, pos);
    assert_eq!(result, md.find("42").unwrap());
}

#[test]
fn walk_back_stops_before_quote_and_reaches_start() {
    let md = "> quoted\n\nbody";
    let pos = md.find("body").unwrap();
    assert_eq!(walk_back_past_orphans(md, pos), md.find("\n\nbody").unwrap() + 1);
    let md2 = "1\n2\nbody";
    assert_eq!(walk_back_past_orphans(md2, md2.find("body").unwrap()), 0);
    assert_eq!(walk_back_past_orphans(md2, 0), 0);
}

#[test]
fn find_content_position_of_empty_needle_is_start() {
    assert_eq!(ox_browser::markdown::find_content_position("some text", ""), Some(0));
}
