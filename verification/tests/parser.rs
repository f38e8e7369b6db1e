use herdr_tab_title::formatter::RenderContext;
use herdr_tab_title::formatter::parser::{ParseError, Template};
use herdr_tab_title::formatter::token::{Placeholder, Token};

#[test]
fn parses_literal_only_template() {
    let template = Template::parse("tabs").unwrap();

    assert_eq!(template.tokens(), &[Token::Literal("tabs".to_string())]);
}

#[test]
fn parses_adjacent_placeholders() {
    let template = Template::parse("{index}{title}").unwrap();

    assert_eq!(
        template.tokens(),
        &[
            Token::Placeholder(Placeholder::Index),
            Token::Placeholder(Placeholder::Title),
        ]
    );
}

#[test]
fn parses_mixed_literals_and_placeholders() {
    let template = Template::parse("[{index}] {title}").unwrap();

    assert_eq!(
        template.tokens(),
        &[
            Token::Literal("[".to_string()),
            Token::Placeholder(Placeholder::Index),
            Token::Literal("] ".to_string()),
            Token::Placeholder(Placeholder::Title),
        ]
    );
}

#[test]
fn rejects_unknown_placeholders() {
    let error = Template::parse("{workspace}").unwrap_err();

    assert_eq!(
        error,
        ParseError::UnknownPlaceholder("workspace".to_string())
    );
}

#[test]
fn rejects_empty_placeholders() {
    let error = Template::parse("{}").unwrap_err();

    assert_eq!(error, ParseError::EmptyPlaceholder);
}

#[test]
fn rejects_unclosed_placeholders() {
    let error = Template::parse("{index").unwrap_err();

    assert_eq!(error, ParseError::UnclosedPlaceholder);
}

#[test]
fn keeps_closing_braces_in_literals() {
    let template = Template::parse("{title}}").unwrap();

    assert_eq!(
        template.tokens(),
        &[
            Token::Placeholder(Placeholder::Title),
            Token::Literal("}".to_string()),
        ]
    );
}

#[test]
fn parses_template_into_tokens() {
    let template = Template::parse("{index}. {title}").unwrap();

    assert_eq!(
        template.tokens(),
        &[
            Token::Placeholder(Placeholder::Index),
            Token::Literal(". ".to_string()),
            Token::Placeholder(Placeholder::Title)
        ]
    );
}

#[test]
fn parses_empty_format_into_no_tokens() {
    let template = Template::parse("").unwrap();

    assert!(template.tokens().is_empty());
}

#[test]
fn unknown_placeholder_is_reported_before_later_errors() {
    assert_eq!(
        Template::parse("a{Index}b{").unwrap_err(),
        ParseError::UnknownPlaceholder("Index".to_string())
    );
    assert_eq!(
        Template::parse("{index}{").unwrap_err(),
        ParseError::UnclosedPlaceholder
    );
    assert_eq!(
        Template::parse("x{}{title").unwrap_err(),
        ParseError::EmptyPlaceholder
    );
}

fn source_of(tokens: &[Token]) -> String {
    let mut text = String::new();
    for token in tokens {
        match token {
            Token::Literal(value) => text.push_str(value),
            Token::Placeholder(Placeholder::Index) => text.push_str("{index}"),
            Token::Placeholder(Placeholder::Title) => text.push_str("{title}"),
        }
    }
    text
}

#[test]
fn parsed_tokens_write_back_the_format() {
    for format in [
        "{index}. {title}",
        "[{index}] ({title}) + ${index}?",
        "}}{title}}x",
        "tabs",
        "",
        "{title}{index}{title}",
    ] {
        let template = Template::parse(format).unwrap();
        assert_eq!(source_of(template.tokens()), format);
        let again = Template::parse(&source_of(template.tokens())).unwrap();
        assert_eq!(again, template);
    }
}

#[test]
fn renders_literals_index_and_title() {
    let template = Template::parse("#{index}/{index}: {title}").unwrap();
    let rendered = template.render(&RenderContext {
        index: 1024,
        title: "Notes",
    });

    assert_eq!(rendered, "#1024/1024: Notes");
    assert_eq!(
        template.render(&RenderContext {
            index: 0,
            title: ""
        }),
        "#0/0: "
    );
}

#[test]
fn parse_errors_read_as_sentences() {
    assert_eq!(
        ParseError::UnknownPlaceholder("workspace".to_string()).message(),
        "unknown placeholder {workspace}"
    );
    assert_eq!(
        ParseError::UnclosedPlaceholder.message(),
        "unclosed placeholder"
    );
    assert_eq!(ParseError::EmptyPlaceholder.message(), "empty placeholder");
}

#[test]
fn placeholder_names_are_exact() {
    assert_eq!(Placeholder::parse("index"), Some(Placeholder::Index));
    assert_eq!(Placeholder::parse("title"), Some(Placeholder::Title));
    assert_eq!(Placeholder::parse("Title"), None);
    assert_eq!(Placeholder::parse("index "), None);
    assert_eq!(Placeholder::parse(""), None);
}

#[test]
fn joined_formats_render_joined_titles() {
    for (a, b) in [
        ("{index}. ", "{title}"),
        ("[{index}", "] {title}"),
        ("{title}", "{index}"),
        ("", "{title} x"),
    ] {
        let joined = format!("{a}{b}");
        let ta = Template::parse(a).unwrap();
        let tb = Template::parse(b).unwrap();
        let tab = Template::parse(&joined).unwrap();
        let context = RenderContext {
            index: 12,
            title: "Notes",
        };
        assert_eq!(
            tab.render(&context),
            format!("{}{}", ta.render(&context), tb.render(&context))
        );
        assert_eq!(source_of(tab.tokens()), joined);
    }
    assert_eq!(
        Template::parse("{index}.  {title}").unwrap().tokens().len(),
        Template::parse("{index}. ").unwrap().tokens().len()
            + Template::parse(" {title}").unwrap().tokens().len()
            - 1
    );
}
