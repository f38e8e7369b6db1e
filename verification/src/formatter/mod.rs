//! Rendering tab titles from a format and recognising titles it produced.
pub mod matcher;
pub mod parser;
pub mod token;

use vstd::prelude::*;

pub use parser::ParseError;

use matcher::{
    FormatMatcher, build_matcher, capture_title_group, capture_view, captures_title,
    matcher_pattern, option_view, regex_compiles, regex_title_capture, trailing_padding,
};
use parser::{SpecParseError, Template, parse_template, render_tokens};
use token::SpecToken;
use crate::text::{is_ascii_digit, is_white_space, str_trim_start, trim_start};

verus! {

/// What a title is rendered from: the tab's position and its clean title.
#[derive(Debug, Clone, PartialEq, Eq)]
pub struct RenderContext<'a> {
    pub index: usize,
    pub title: &'a str,
}

/// A parsed title format together with the matcher that recognises the
/// titles it renders.
#[derive(Debug)]
pub struct Formatter {
    template: Template,
    matcher: FormatMatcher,
}

impl View for Formatter {
    type V = Seq<SpecToken>;

    closed spec fn view(&self) -> Seq<SpecToken> {
        self.template@
    }
}

/// The title that a successful match yields: the captured group when the
/// format captures its title, and the empty title when it has none to
/// capture.
pub open spec fn title_of_match(capture: bool, found: Option<Option<Seq<char>>>) -> Option<
    Seq<char>,
> {
    match found {
        None => None,
        Some(group) => if capture {
            group
        } else {
            Some(Seq::empty())
        },
    }
}

/// The title that the matcher of `tokens` reads out of `text`, if it matches.
pub open spec fn captured_title(tokens: Seq<SpecToken>, text: Seq<char>) -> Option<Seq<char>> {
    let pattern = matcher_pattern(tokens);
    if regex_compiles(pattern) {
        title_of_match(captures_title(tokens), regex_title_capture(pattern, text))
    } else {
        None
    }
}

/// The clean title given what the matcher read from the title itself and,
/// when the format ends in padding before its title, from the padded title.
pub open spec fn settled_title(
    title: Seq<char>,
    direct: Option<Seq<char>>,
    padded: Option<Seq<char>>,
) -> Seq<char> {
    match direct {
        Some(clean) => clean,
        None => if padded == Some(Seq::<char>::empty()) {
            Seq::empty()
        } else {
            title
        },
    }
}

/// The title of `title` without the wrapping that the format of `tokens`
/// adds: what the matcher captures; else the empty title when the title is
/// a rendering of an empty title whose trailing padding was trimmed; else
/// the title unchanged.
pub open spec fn clean_title_of(tokens: Seq<SpecToken>, title: Seq<char>) -> Seq<char> {
    settled_title(
        title,
        captured_title(tokens, title),
        match trailing_padding(tokens) {
            Some(padding) => captured_title(tokens, title + padding),
            None => None,
        },
    )
}

/// How many ASCII digits `s` starts with.
pub open spec fn leading_digits(s: Seq<char>) -> nat
    decreases s.len(),
{
    if s.len() > 0 && is_ascii_digit(s[0]) {
        1 + leading_digits(s.drop_first())
    } else {
        0
    }
}

/// `s` without a numeric prefix such as `12. `: one or more digits, a dot,
/// and then white space or the end of the title. The white space after the
/// dot goes too; any other title is left as it is.
pub open spec fn without_numeric_prefix(s: Seq<char>) -> Seq<char> {
    let d = leading_digits(s);
    if d > 0 && d < s.len() && s[d as int] == '.' && (d + 1 == s.len() || is_white_space(
        s[d + 1 as int],
    )) {
        trim_start(s.skip(d + 1 as int))
    } else {
        s
    }
}

proof fn lemma_leading_digits(s: Seq<char>, k: int)
    requires
        0 <= k <= s.len(),
        forall|j: int| 0 <= j < k ==> is_ascii_digit(s[j]),
        k == s.len() || !is_ascii_digit(s[k]),
    ensures
        leading_digits(s) == k,
    decreases k,
{
    if k > 0 {
        let t = s.drop_first();
        assert forall|j: int| 0 <= j < k - 1 implies is_ascii_digit(t[j]) by {
            assert(t[j] == s[j + 1]);
        }
        if k < s.len() {
            assert(t[k - 1] == s[k]);
        }
        lemma_leading_digits(t, k - 1);
    }
}

/// Removes a numeric prefix such as `12. ` from a title.
pub fn strip_numeric_prefix<'a>(title: &'a str) -> (r: &'a str)
    ensures
        r@ == without_numeric_prefix(title@),
{
    let n = title.unicode_len();
    let mut d: usize = 0;
    while d < n && is_digit(title.get_char(d))
        invariant
            n == title@.len(),
            0 <= d <= n,
            forall|j: int| 0 <= j < d ==> is_ascii_digit(title@[j]),
        decreases n - d,
    {
        d = d + 1;
    }
    proof {
        lemma_leading_digits(title@, d as int);
    }
    if d > 0 && d < n && title.get_char(d) == '.' {
        if d + 1 == n || crate::text::char_is_whitespace(title.get_char(d + 1)) {
            let rest = title.substring_char(d + 1, n);
            assert(rest@ =~= title@.skip(d + 1));
            return str_trim_start(rest);
        }
    }
    title
}

fn is_digit(c: char) -> (r: bool)
    ensures
        r == is_ascii_digit(c),
{
    '0' <= c && c <= '9'
}

/// The title a match yields, given what the regular expression found.
pub fn title_from_match(capture: bool, found: Option<Option<String>>) -> (r: Option<String>)
    ensures
        option_view(r) == title_of_match(capture, capture_view(found)),
{
    match found {
        None => None,
        Some(group) => if capture {
            group
        } else {
            Some(String::new())
        },
    }
}

/// The clean title, given what the matcher read from the title and from the
/// padded title.
pub fn settle_title(title: &str, direct: Option<String>, padded: Option<String>) -> (r: String)
    ensures
        r@ == settled_title(title@, option_view(direct), option_view(padded)),
{
    match direct {
        Some(clean) => clean,
        None => {
            let empty = match &padded {
                Some(value) => value.unicode_len() == 0,
                None => false,
            };
            if empty {
                assert(option_view(padded) == Some(Seq::<char>::empty()));
                String::new()
            } else {
                assert(option_view(padded) != Some(Seq::<char>::empty()));
                String::from_str(title)
            }
        },
    }
}

impl Formatter {
    #[verifier::type_invariant]
    spec fn matcher_fits(self) -> bool {
        self.matcher.built_for(self.template@)
    }

    /// Parses a format and builds the matcher for the titles it renders.
    pub fn parse(format: &str) -> (r: Result<Self, ParseError>)
        ensures
            match r {
                Ok(formatter) => parse_template(format@) == Ok::<
                    Seq<SpecToken>,
                    SpecParseError,
                >(formatter@),
                Err(e) => parse_template(format@) == Err::<Seq<SpecToken>, SpecParseError>(e@),
            },
    {
        let template = Template::parse(format)?;
        let matcher = build_matcher(template.tokens());
        Ok(Formatter { template, matcher })
    }

    /// The title of a tab at `context.index` whose clean title is
    /// `context.title`.
    pub fn render(&self, context: &RenderContext<'_>) -> (r: String)
        ensures
            r@ == render_tokens(self@, context.index as nat, context.title@),
    {
        self.template.render(context)
    }

    /// The title without the wrapping the format adds, e.g. `Editor` for
    /// `[2] Editor` under `[{index}] {title}`.
    pub fn clean_title(&self, title: &str) -> (r: String)
        ensures
            r@ == clean_title_of(self@, title@),
    {
        proof {
            use_type_invariant(self);
        }
        let direct = self.capture_title(title);
        let padded = match &self.matcher.trailing_empty_title_padding {
            Some(padding) => {
                let mut padded_title = String::from_str(title);
                padded_title.append(padding.as_str());
                self.capture_title(padded_title.as_str())
            },
            None => None,
        };
        settle_title(title, direct, padded)
    }

    fn capture_title(&self, text: &str) -> (r: Option<String>)
        ensures
            option_view(r) == captured_title(self@, text@),
    {
        proof {
            use_type_invariant(self);
        }
        match capture_title_group(self.matcher.pattern.as_str(), text) {
            Ok(found) => title_from_match(self.matcher.captures_title, found),
            Err(_) => None,
        }
    }
}

} // verus!
