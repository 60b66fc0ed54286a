use ox_browser::noise_text::{is_css_class_text, is_css_class_word};

#[test]
fn css_class_text_detected() {
    assert!(is_css_class_text("text-4xl font-bold tracking-tight text-gray-900"));
    assert!(is_css_class_text(
        "text-4xl text-5xl text-6xl text-8xl text-gray-950 text-white tracking-tighter text-balance"
    ));
    assert!(is_css_class_text("flex grid rounded-lg shadow-md bg-white px-4 py-2"));
    assert!(is_css_class_text("sm:text-lg dark:bg-gray-800 hover:bg-blue-500"));
    assert!(is_css_class_text("-mt-4 -translate-x-1/2 flex"));
}

#[test]
fn css_class_text_normal_prose_kept() {
    assert!(!is_css_class_text("the text-based approach works well for this use case"));
    assert!(!is_css_class_text("Build beautiful websites with modern tools"));
    assert!(!is_css_class_text("Tailwind CSS is a utility-first CSS framework"));
    assert!(!is_css_class_text("flex grid"));
    assert!(!is_css_class_text("text-lg"));
}

#[test]
fn css_class_text_mixed_content() {
    assert!(is_css_class_text("text-4xl font-bold tracking-tight text-gray-900 hero"));
    assert!(!is_css_class_text("The quick brown fox jumps over the lazy text-lg dog"));
}

#[test]
fn css_class_word_cases() {
    assert!(is_css_class_word("FLEX"));
    assert!(is_css_class_word("md:hover:Text-Center"));
    assert!(is_css_class_word("-mx-2"));
    assert!(!is_css_class_word("-"));
    assert!(!is_css_class_word("-hello"));
    assert!(!is_css_class_word("hello"));
    assert!(is_css_class_word("a[b]"));
    assert!(!is_css_class_word("a[b"));
    assert!(is_css_class_text("w-[200px] [--foo:bar] block"));
}
