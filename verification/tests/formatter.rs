use herdr_tab_title::formatter::matcher::{build_matcher, trailing_empty_title_padding};
use herdr_tab_title::formatter::token::{Placeholder, Token};
use herdr_tab_title::formatter::parser::Template;
use herdr_tab_title::formatter::{
    Formatter, RenderContext, settle_title, strip_numeric_prefix, title_from_match,
};

#[test]
fn renders_index_and_title_placeholders() {
    let formatter = Formatter::parse("{index}. {title}").unwrap();

    assert_eq!(
        formatter.render(&RenderContext {
            index: 3,
            title: "Editor"
        }),
        "3. Editor"
    );
}

#[test]
fn cleans_title_wrapped_by_current_format() {
    let formatter = Formatter::parse("[{index}] {title}").unwrap();

    assert_eq!(formatter.clean_title("[2] Editor"), "Editor");
}

#[test]
fn cleans_title_wrapped_by_format_with_suffix() {
    let formatter = Formatter::parse("tab {index}: {title}!").unwrap();

    assert_eq!(formatter.clean_title("tab 12: Editor!"), "Editor");
}

#[test]
fn cleans_title_when_index_is_after_title() {
    let formatter = Formatter::parse("{title} [{index}]").unwrap();

    assert_eq!(formatter.clean_title("Editor [12]"), "Editor");
}

#[test]
fn cleans_title_with_regex_metacharacter_literals() {
    let formatter = Formatter::parse("[{index}] ({title}) + ${index}?").unwrap();

    assert_eq!(formatter.clean_title("[12] (Editor) + $12?"), "Editor");
}

#[test]
fn titleless_format_does_not_extract_title() {
    let formatter = Formatter::parse("[{index}] {index}").unwrap();

    assert_eq!(formatter.clean_title("[12] 12"), "");
}

#[test]
fn clean_title_extracts_explicit_empty_trailing_title() {
    let formatter = Formatter::parse("{index}. {title}").unwrap();

    assert_eq!(formatter.clean_title("1. "), "");
}

#[test]
fn clean_title_accepts_trimmed_empty_trailing_title() {
    let formatter = Formatter::parse("{index}. {title}").unwrap();

    assert_eq!(formatter.clean_title("1."), "");
}

#[test]
fn matcher_treats_index_as_digits() {
    let template = Template::parse("[{index}] {title}").unwrap();
    let matcher = build_matcher(template.tokens());
    let regex = regex::Regex::new(&matcher.pattern).unwrap();
    let captures = regex.captures("[987] Editor").unwrap();

    assert!(matcher.captures_title);
    assert_eq!(captures.name("title").unwrap().as_str(), "Editor");
}

#[test]
fn matcher_anchors_and_escapes_literals() {
    let template = Template::parse("({index}) {title}?").unwrap();
    let matcher = build_matcher(template.tokens());
    let regex = regex::Regex::new(&matcher.pattern).unwrap();

    assert!(regex.is_match("(3) Editor?"));
    assert!(!regex.is_match("x(3) Editor?"));
    assert!(!regex.is_match("(3) Editor?!"));
    assert!(!regex.is_match("3 Editor?"));
}

#[test]
fn matcher_without_exactly_one_title_does_not_capture_title() {
    let titleless = Template::parse("[{index}] {index}").unwrap();
    let titleless_matcher = build_matcher(titleless.tokens());
    assert!(!titleless_matcher.captures_title);
    assert!(regex::Regex::new(&titleless_matcher.pattern)
        .unwrap()
        .is_match("[12] 12"));

    let duplicate_title = Template::parse("{title} / {title}").unwrap();
    let duplicate_matcher = build_matcher(duplicate_title.tokens());
    assert!(!duplicate_matcher.captures_title);
    assert!(regex::Regex::new(&duplicate_matcher.pattern)
        .unwrap()
        .is_match("left / right"));
}

#[test]
fn matcher_pattern_escapes_every_meta_character() {
    let template = Template::parse("({index}) {title}?").unwrap();
    let matcher = build_matcher(template.tokens());

    assert_eq!(matcher.pattern, r"^\(\d+\) (?P<title>.*?)\?$");

    let template = Template::parse(r"\.+*|[]^$#&-~ {title} %/!").unwrap();
    let matcher = build_matcher(template.tokens());
    assert_eq!(
        matcher.pattern,
        r"^\\\.\+\*\|\[\]\^\$\#\&\-\~ (?P<title>.*?) %/!$"
    );
}

#[test]
fn matcher_keeps_padding_before_final_title() {
    let template = Template::parse("{index}. \t{title}").unwrap();
    assert_eq!(
        build_matcher(template.tokens()).trailing_empty_title_padding,
        Some(" \t".to_string())
    );

    let template = Template::parse("{index}.\u{a0}{title}").unwrap();
    assert_eq!(
        build_matcher(template.tokens()).trailing_empty_title_padding,
        Some("\u{a0}".to_string())
    );

    let template = Template::parse("{index}.{title}").unwrap();
    assert_eq!(
        build_matcher(template.tokens()).trailing_empty_title_padding,
        None
    );

    let template = Template::parse("{title} / {title}").unwrap();
    assert_eq!(
        build_matcher(template.tokens()).trailing_empty_title_padding,
        None
    );

    let template = Template::parse("{index} {title} ").unwrap();
    assert_eq!(
        build_matcher(template.tokens()).trailing_empty_title_padding,
        None
    );
}

#[test]
fn clean_title_leaves_unmatched_titles_alone() {
    let formatter = Formatter::parse("[{index}] {title}").unwrap();

    assert_eq!(formatter.clean_title("Editor"), "Editor");
    assert_eq!(formatter.clean_title("[x] Editor"), "[x] Editor");
    assert_eq!(formatter.clean_title("[1]"), "");
    assert_eq!(formatter.clean_title("[1]x"), "[1]x");
}

#[test]
fn cleaning_a_rendered_title_gives_the_title_back() {
    for format in ["{index}. {title}", "[{index}] {title}", "{title} ({index})"] {
        let formatter = Formatter::parse(format).unwrap();
        for title in ["Editor", "1. Codex", "", "a b c"] {
            let rendered = formatter.render(&RenderContext { index: 42, title });
            assert_eq!(formatter.clean_title(&rendered), title);
        }
    }
}

#[test]
fn strips_numeric_prefixes_only() {
    assert_eq!(strip_numeric_prefix("12. Editor"), "Editor");
    assert_eq!(strip_numeric_prefix("9.   Editor 3.5"), "Editor 3.5");
    assert_eq!(strip_numeric_prefix("1."), "");
    assert_eq!(strip_numeric_prefix("1. "), "");
    assert_eq!(strip_numeric_prefix("3.5 GHz"), "3.5 GHz");
    assert_eq!(strip_numeric_prefix(". Editor"), ". Editor");
    assert_eq!(strip_numeric_prefix("x1. Editor"), "x1. Editor");
    assert_eq!(strip_numeric_prefix("12 Editor"), "12 Editor");
    assert_eq!(strip_numeric_prefix("Terminal"), "Terminal");
}

#[test]
fn title_of_a_match_depends_on_capturing() {
    assert_eq!(
        title_from_match(true, Some(Some("Editor".to_string()))),
        Some("Editor".to_string())
    );
    assert_eq!(title_from_match(true, Some(None)), None);
    assert_eq!(
        title_from_match(false, Some(Some("Editor".to_string()))),
        Some(String::new())
    );
    assert_eq!(title_from_match(false, Some(None)), Some(String::new()));
    assert_eq!(title_from_match(true, None), None);
    assert_eq!(title_from_match(false, None), None);
}

#[test]
fn settled_title_prefers_direct_capture() {
    assert_eq!(
        settle_title("1. x", Some("x".to_string()), Some(String::new())),
        "x"
    );
    assert_eq!(settle_title("1.", None, Some(String::new())), "");
    assert_eq!(settle_title("1.", None, Some("y".to_string())), "1.");
    assert_eq!(settle_title("Codex", None, None), "Codex");
}

#[test]
fn padding_is_kept_only_when_the_title_is_captured() {
    let i = Token::Placeholder(Placeholder::Index);
    let t = Token::Placeholder(Placeholder::Title);
    let dotted = [i.clone(), Token::Literal(". ".into()), t.clone()];

    assert_eq!(trailing_empty_title_padding(&dotted, true), Some(" ".into()));
    assert_eq!(trailing_empty_title_padding(&dotted, false), None);
    assert_eq!(
        trailing_empty_title_padding(&[Token::Literal(":\t ".into()), t.clone()], true),
        Some("\t ".into())
    );
    assert_eq!(trailing_empty_title_padding(&[t.clone()], true), None);
    assert_eq!(
        trailing_empty_title_padding(&[Token::Literal("x".into()), t], true),
        None
    );
}
