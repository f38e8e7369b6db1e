//! The regular expression that recognises titles a format rendered, and the
//! calls into the `regex` crate that run it.
use vstd::prelude::*;

use super::token::{Placeholder, SpecToken, Token, tokens_view};
use crate::text::{char_is_whitespace, is_white_space};

verus! {

/// The characters that `regex::escape` puts a backslash before.
pub open spec fn is_regex_meta(c: char) -> bool {
    ||| c == '\\'
    ||| c == '.'
    ||| c == '+'
    ||| c == '*'
    ||| c == '?'
    ||| c == '('
    ||| c == ')'
    ||| c == '|'
    ||| c == '['
    ||| c == ']'
    ||| c == '{'
    ||| c == '}'
    ||| c == '^'
    ||| c == '$'
    ||| c == '#'
    ||| c == '&'
    ||| c == '-'
    ||| c == '~'
}

/// `text` with a backslash before every meta character: a pattern that
/// matches `text` literally.
pub open spec fn regex_escaped(text: Seq<char>) -> Seq<char>
    decreases text.len(),
{
    if text.len() == 0 {
        Seq::empty()
    } else {
        regex_escaped(text.drop_last()) + if is_regex_meta(text.last()) {
            seq!['\\', text.last()]
        } else {
            seq![text.last()]
        }
    }
}

/// `regex::escape`: escapes every meta character of `text`, and nothing else.
#[verifier::external_body]
pub(crate) fn regex_escape(text: &str) -> (r: String)
    ensures
        r@ == regex_escaped(text@),
{
    regex::escape(text)
}

/// The error that `regex::Regex::new` reports for a pattern it refuses.
#[verifier::external_type_specification]
#[verifier::external_body]
pub struct ExRegexError(regex::Error);

/// Whether `regex::Regex::new` accepts `pattern`.
pub uninterp spec fn regex_compiles(pattern: Seq<char>) -> bool;

/// What `regex::Regex::captures` finds when the compiled `pattern` is run on
/// `text`: `None` when it does not match, and otherwise the text of the group
/// named `title` when that group took part in the match.
pub uninterp spec fn regex_title_capture(pattern: Seq<char>, text: Seq<char>) -> Option<
    Option<Seq<char>>,
>;

/// The values of an optional captured group.
pub open spec fn capture_view(found: Option<Option<String>>) -> Option<Option<Seq<char>>> {
    match found {
        Some(Some(group)) => Some(Some(group@)),
        Some(None) => Some(None),
        None => None,
    }
}

/// Compiles `pattern` with `regex::Regex::new` and runs `captures` on `text`,
/// reading the group named `title`. The regular expression engine itself is
/// not described here: its outcome is only named.
#[verifier::external_body]
pub(crate) fn capture_title_group(pattern: &str, text: &str) -> (r: Result<
    Option<Option<String>>,
    regex::Error,
>)
    ensures
        r is Ok <==> regex_compiles(pattern@),
        r matches Ok(found) ==> capture_view(found) == regex_title_capture(pattern@, text@),
{
    let regex = regex::Regex::new(pattern)?;
    Ok(
        match regex.captures(text) {
            Some(captures) => match captures.name("title") {
                Some(group) => Some(Some(group.as_str().to_string())),
                None => Some(None),
            },
            None => None,
        },
    )
}

/// How many `{title}` placeholders the tokens hold.
pub open spec fn title_count(tokens: Seq<SpecToken>) -> nat
    decreases tokens.len(),
{
    if tokens.len() == 0 {
        0
    } else {
        title_count(tokens.drop_last()) + if tokens.last() == SpecToken::Placeholder(
            Placeholder::Title,
        ) {
            1nat
        } else {
            0nat
        }
    }
}

/// Whether the matcher captures the title: only when the format holds
/// exactly one `{title}`.
pub open spec fn captures_title(tokens: Seq<SpecToken>) -> bool {
    title_count(tokens) == 1
}

/// The pattern of one token: an escaped literal, digits for `{index}`, and a
/// lazy group for `{title}` (named `title` when it is captured).
pub open spec fn token_pattern(token: SpecToken, capture: bool) -> Seq<char> {
    match token {
        SpecToken::Literal(value) => regex_escaped(value),
        SpecToken::Placeholder(Placeholder::Index) => "\\d+"@,
        SpecToken::Placeholder(Placeholder::Title) => if capture {
            "(?P<title>.*?)"@
        } else {
            ".*?"@
        },
    }
}

/// The patterns of the tokens, one after another.
pub open spec fn tokens_pattern(tokens: Seq<SpecToken>, capture: bool) -> Seq<char>
    decreases tokens.len(),
{
    if tokens.len() == 0 {
        Seq::empty()
    } else {
        tokens_pattern(tokens.drop_last(), capture) + token_pattern(tokens.last(), capture)
    }
}

/// The anchored pattern that matches exactly the titles the format renders.
pub open spec fn matcher_pattern(tokens: Seq<SpecToken>) -> Seq<char> {
    "^"@ + tokens_pattern(tokens, captures_title(tokens)) + "$"@
}

/// The longest run of white space that ends `text`.
pub open spec fn whitespace_suffix(text: Seq<char>) -> Seq<char>
    decreases text.len(),
{
    if text.len() > 0 && is_white_space(text.last()) {
        whitespace_suffix(text.drop_last()).push(text.last())
    } else {
        Seq::empty()
    }
}

/// The white space that ends the literal just before a final `{title}`, if
/// the tokens end in such a literal and `{title}` and that white space is
/// not empty.
pub open spec fn padding_before_final_title(tokens: Seq<SpecToken>) -> Option<Seq<char>> {
    if tokens.len() >= 2 && tokens.last() == SpecToken::Placeholder(Placeholder::Title) {
        match tokens[tokens.len() - 2] {
            SpecToken::Literal(value) => if whitespace_suffix(value).len() > 0 {
                Some(whitespace_suffix(value))
            } else {
                None
            },
            _ => None,
        }
    } else {
        None
    }
}

/// The padding the matcher of `tokens` keeps: the padding before a final
/// `{title}` when the title is captured. A title that was trimmed after
/// rendering an empty title gets it back before matching.
pub open spec fn trailing_padding(tokens: Seq<SpecToken>) -> Option<Seq<char>> {
    if captures_title(tokens) {
        padding_before_final_title(tokens)
    } else {
        None
    }
}

/// What the matcher of a format reads titles with.
#[derive(Debug, Clone)]
pub struct FormatMatcher {
    pub pattern: String,
    pub captures_title: bool,
    pub trailing_empty_title_padding: Option<String>,
}

/// The values of an optional string.
pub open spec fn option_view(value: Option<String>) -> Option<Seq<char>> {
    match value {
        Some(s) => Some(s@),
        None => None,
    }
}

impl FormatMatcher {
    /// Whether the matcher is the one built for `tokens`.
    pub open spec fn built_for(&self, tokens: Seq<SpecToken>) -> bool {
        &&& self.pattern@ == matcher_pattern(tokens)
        &&& self.captures_title == captures_title(tokens)
        &&& option_view(self.trailing_empty_title_padding) == trailing_padding(tokens)
    }
}

/// Counts the `{title}` placeholders.
fn count_titles(tokens: &[Token]) -> (r: usize)
    ensures
        r == title_count(tokens_view(tokens@)),
{
    let n = tokens.len();
    let mut count: usize = 0;
    let mut k: usize = 0;
    while k < n
        invariant
            n == tokens@.len(),
            0 <= k <= n,
            count == title_count(tokens_view(tokens@).take(k as int)),
            count <= k,
        decreases n - k,
    {
        let ghost ts = tokens_view(tokens@);
        assert(ts.take(k + 1).drop_last() =~= ts.take(k as int));
        assert(ts.take(k + 1).last() == tokens@[k as int]@);
        match &tokens[k] {
            Token::Placeholder(Placeholder::Title) => {
                count = count + 1;
            },
            _ => {},
        }
        k = k + 1;
    }
    assert(tokens_view(tokens@).take(n as int) =~= tokens_view(tokens@));
    count
}

/// Builds the matcher of a format from its tokens.
pub fn build_matcher(tokens: &[Token]) -> (m: FormatMatcher)
    ensures
        m.built_for(tokens_view(tokens@)),
{
    let ghost ts = tokens_view(tokens@);
    let capture = count_titles(tokens) == 1;
    let mut pattern = String::from_str("^");
    let n = tokens.len();
    let mut k: usize = 0;
    while k < n
        invariant
            n == tokens@.len(),
            ts == tokens_view(tokens@),
            capture == captures_title(ts),
            0 <= k <= n,
            pattern@ == "^"@ + tokens_pattern(ts.take(k as int), capture),
        decreases n - k,
    {
        assert(ts.take(k + 1).drop_last() =~= ts.take(k as int));
        assert(ts.take(k + 1).last() == tokens@[k as int]@);
        match &tokens[k] {
            Token::Literal(value) => {
                let escaped = regex_escape(value.as_str());
                pattern.append(escaped.as_str());
            },
            Token::Placeholder(Placeholder::Index) => pattern.append("\\d+"),
            Token::Placeholder(Placeholder::Title) => {
                if capture {
                    pattern.append("(?P<title>.*?)");
                } else {
                    pattern.append(".*?");
                }
            },
        }
        assert(pattern@ =~= "^"@ + tokens_pattern(ts.take(k + 1), capture));
        k = k + 1;
    }
    assert(ts.take(n as int) =~= ts);
    pattern.append("$");
    FormatMatcher {
        pattern,
        captures_title: capture,
        trailing_empty_title_padding: trailing_empty_title_padding(tokens, capture),
    }
}

/// The white space that ends the literal just before a final `{title}`,
/// when `captures_title_flag` is set and there is some; `None` otherwise.
pub fn trailing_empty_title_padding(tokens: &[Token], captures_title_flag: bool) -> (r: Option<
    String,
>)
    ensures
        option_view(r) == if captures_title_flag {
            padding_before_final_title(tokens_view(tokens@))
        } else {
            None
        },
{
    let ghost ts = tokens_view(tokens@);
    let n = tokens.len();
    if !captures_title_flag || n < 2 {
        return None;
    }
    match &tokens[n - 1] {
        Token::Placeholder(Placeholder::Title) => {},
        _ => {
            return None;
        },
    }
    assert(ts.last() == tokens@[n - 1]@);
    assert(ts[n - 2] == tokens@[n - 2]@);
    let literal = match &tokens[n - 2] {
        Token::Literal(value) => value.as_str(),
        _ => {
            return None;
        },
    };
    let len = literal.unicode_len();
    let mut start = len;
    assert(literal@.take(len as int) =~= literal@);
    assert(literal@ + literal@.subrange(len as int, len as int) =~= literal@);
    while start > 0 && char_is_whitespace(literal.get_char(start - 1))
        invariant
            len == literal@.len(),
            0 <= start <= len,
            whitespace_suffix(literal@) == whitespace_suffix(literal@.take(start as int))
                + literal@.subrange(start as int, len as int),
        decreases start,
    {
        let ghost prefix = literal@.take(start as int);
        assert(prefix.drop_last() =~= literal@.take(start - 1));
        assert(literal@.subrange(start - 1, len as int) =~= seq![prefix.last()]
            + literal@.subrange(start as int, len as int));
        start = start - 1;
    }
    proof {
        let prefix = literal@.take(start as int);
        if start > 0 {
            assert(prefix.last() == literal@[start - 1]);
        }
        assert(whitespace_suffix(prefix) =~= Seq::<char>::empty());
        assert(whitespace_suffix(literal@) =~= literal@.subrange(start as int, len as int));
    }
    if start == len {
        None
    } else {
        Some(String::from_str(literal.substring_char(start, len)))
    }
}

} // verus!
