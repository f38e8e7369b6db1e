//! Parsing a title format such as `{index}. {title}` into tokens, and
//! rendering those tokens for one tab.
use vstd::prelude::*;

use super::token::{
    Placeholder, SpecToken, Token, placeholder_name, placeholder_named, tokens_view,
};
use super::RenderContext;
use crate::text::{decimal, decimal_string};

verus! {

/// A parsed title format.
#[derive(Debug, Clone, PartialEq, Eq)]
pub struct Template {
    tokens: Vec<Token>,
}

/// Why a format could not be parsed.
#[derive(Debug, Clone, PartialEq, Eq)]
pub enum ParseError {
    /// `{name}` where `name` is neither `index` nor `title`.
    UnknownPlaceholder(String),
    /// A `{` without a `}` after it.
    UnclosedPlaceholder,
    /// `{}`.
    EmptyPlaceholder,
}

/// The mathematical value of a [`ParseError`].
pub enum SpecParseError {
    UnknownPlaceholder(Seq<char>),
    UnclosedPlaceholder,
    EmptyPlaceholder,
}

impl View for ParseError {
    type V = SpecParseError;

    open spec fn view(&self) -> SpecParseError {
        match self {
            ParseError::UnknownPlaceholder(name) => SpecParseError::UnknownPlaceholder(name@),
            ParseError::UnclosedPlaceholder => SpecParseError::UnclosedPlaceholder,
            ParseError::EmptyPlaceholder => SpecParseError::EmptyPlaceholder,
        }
    }
}

impl View for Template {
    type V = Seq<SpecToken>;

    closed spec fn view(&self) -> Seq<SpecToken> {
        tokens_view(self.tokens@)
    }
}

/// The position of the first `c` in `s`, if `s` holds one.
pub open spec fn first_index_of(s: Seq<char>, c: char) -> Option<nat>
    decreases s.len(),
{
    if s.len() == 0 {
        None
    } else if s[0] == c {
        Some(0)
    } else {
        match first_index_of(s.drop_first(), c) {
            Some(k) => Some(k + 1),
            None => None,
        }
    }
}

/// `first_index_of` finds the first occurrence, and only that.
pub proof fn lemma_first_index_of(s: Seq<char>, c: char)
    ensures
        match first_index_of(s, c) {
            Some(k) => k < s.len() && s[k as int] == c && forall|j: int|
                0 <= j < k ==> s[j] != c,
            None => forall|j: int| 0 <= j < s.len() ==> s[j] != c,
        },
    decreases s.len(),
{
    if s.len() > 0 && s[0] != c {
        lemma_first_index_of(s.drop_first(), c);
        match first_index_of(s.drop_first(), c) {
            Some(k) => {
                assert forall|j: int| 0 <= j < k + 1 implies s[j] != c by {
                    if j > 0 {
                        assert(s[j] == s.drop_first()[j - 1]);
                    }
                }
            },
            None => {
                assert forall|j: int| 0 <= j < s.len() implies s[j] != c by {
                    if j > 0 {
                        assert(s[j] == s.drop_first()[j - 1]);
                    }
                }
            },
        }
    }
}

/// A position that holds `c` with no `c` before it is what `first_index_of`
/// finds.
pub proof fn lemma_first_index_of_is(s: Seq<char>, c: char, k: int)
    requires
        0 <= k < s.len(),
        s[k] == c,
        forall|j: int| 0 <= j < k ==> s[j] != c,
    ensures
        first_index_of(s, c) == Some(k as nat),
{
    lemma_first_index_of(s, c);
    match first_index_of(s, c) {
        Some(m) => {
            if (m as int) < k {
            } else if (m as int) > k {
            }
        },
        None => {},
    }
}

/// The tokens of a run of literal text: none for empty text.
pub open spec fn literal_tokens(text: Seq<char>) -> Seq<SpecToken> {
    if text.len() == 0 {
        Seq::empty()
    } else {
        seq![SpecToken::Literal(text)]
    }
}

/// What parsing the format `s` gives: the text before the first `{` is a
/// literal, the text up to the next `}` names a placeholder, and the rest is
/// parsed the same way. A `{` without a later `}` is unclosed; `{}` is empty;
/// a name other than `index` and `title` is unknown.
pub open spec fn parse_template(s: Seq<char>) -> Result<Seq<SpecToken>, SpecParseError>
    decreases s.len(),
{
    match first_index_of(s, '{') {
        None => Ok(literal_tokens(s)),
        Some(open) => {
            let after = s.skip(open + 1 as int);
            match first_index_of(after, '}') {
                None => Err(SpecParseError::UnclosedPlaceholder),
                Some(close) => {
                    let name = after.take(close as int);
                    if name.len() == 0 {
                        Err(SpecParseError::EmptyPlaceholder)
                    } else {
                        match placeholder_named(name) {
                            None => Err(SpecParseError::UnknownPlaceholder(name)),
                            Some(p) => {
                                proof {
                                    lemma_first_index_of(s, '{');
                                    lemma_first_index_of(after, '}');
                                }
                                match parse_template(after.skip(close + 1 as int)) {
                                    Ok(rest) => Ok(
                                        literal_tokens(s.take(open as int)) + seq![
                                            SpecToken::Placeholder(p),
                                        ] + rest,
                                    ),
                                    Err(e) => Err(e),
                                }
                            },
                        }
                    }
                },
            }
        },
    }
}

/// `done` followed by what `rest` gives, or the error of `rest`.
pub open spec fn after_tokens(
    done: Seq<SpecToken>,
    rest: Result<Seq<SpecToken>, SpecParseError>,
) -> Result<Seq<SpecToken>, SpecParseError> {
    match rest {
        Ok(tokens) => Ok(done + tokens),
        Err(e) => Err(e),
    }
}

/// The text a token renders to for a tab at `index` whose title is `title`.
pub open spec fn render_token(token: SpecToken, index: nat, title: Seq<char>) -> Seq<char> {
    match token {
        SpecToken::Literal(value) => value,
        SpecToken::Placeholder(Placeholder::Index) => decimal(index),
        SpecToken::Placeholder(Placeholder::Title) => title,
    }
}

/// The rendered tokens, one after another.
pub open spec fn render_tokens(tokens: Seq<SpecToken>, index: nat, title: Seq<char>) -> Seq<
    char,
>
    decreases tokens.len(),
{
    if tokens.len() == 0 {
        Seq::empty()
    } else {
        render_tokens(tokens.drop_last(), index, title) + render_token(
            tokens.last(),
            index,
            title,
        )
    }
}

/// The format text that a token was written as.
pub open spec fn token_source(token: SpecToken) -> Seq<char> {
    match token {
        SpecToken::Literal(value) => value,
        SpecToken::Placeholder(p) => seq!['{'] + placeholder_name(p) + seq!['}'],
    }
}

/// The format text of a sequence of tokens.
pub open spec fn template_source(tokens: Seq<SpecToken>) -> Seq<char>
    decreases tokens.len(),
{
    if tokens.len() == 0 {
        Seq::empty()
    } else {
        token_source(tokens[0]) + template_source(tokens.drop_first())
    }
}

/// Whether tokens are what a parse can give: every literal is non-empty
/// and holds no `{`, and no two literals are adjacent.
pub open spec fn well_formed_tokens(tokens: Seq<SpecToken>) -> bool {
    &&& forall|i: int|
        0 <= i < tokens.len() ==> match #[trigger] tokens[i] {
            SpecToken::Literal(value) => value.len() > 0 && !value.contains('{'),
            SpecToken::Placeholder(_) => true,
        }
    &&& forall|i: int|
        0 <= i < tokens.len() - 1 ==> !(#[trigger] tokens[i] is Literal && tokens[i
            + 1] is Literal)
}

/// The source of joined token sequences is the joined sources.
pub proof fn lemma_template_source_concat(a: Seq<SpecToken>, b: Seq<SpecToken>)
    ensures
        template_source(a + b) == template_source(a) + template_source(b),
    decreases a.len(),
{
    if a.len() == 0 {
        assert(a + b =~= b);
    } else {
        assert((a + b).drop_first() =~= a.drop_first() + b);
        lemma_template_source_concat(a.drop_first(), b);
        assert((a + b)[0] == a[0]);
    }
}

proof fn lemma_literal_tokens_source(text: Seq<char>)
    ensures
        template_source(literal_tokens(text)) == text,
{
    if text.len() > 0 {
        let ts = seq![SpecToken::Literal(text)];
        assert(ts.drop_first() =~= Seq::<SpecToken>::empty());
        assert(template_source(ts) == token_source(ts[0]) + template_source(ts.drop_first()));
        assert(text + Seq::<char>::empty() =~= text);
    } else {
        assert(text =~= Seq::<char>::empty());
    }
}

proof fn lemma_placeholder_source(p: Placeholder)
    ensures
        template_source(seq![SpecToken::Placeholder(p)]) == seq!['{'] + placeholder_name(p)
            + seq!['}'],
{
    let ts = seq![SpecToken::Placeholder(p)];
    assert(ts.drop_first() =~= Seq::<SpecToken>::empty());
    assert(template_source(ts) == token_source(ts[0]) + template_source(ts.drop_first()));
    assert(token_source(ts[0]) + Seq::<char>::empty() =~= token_source(ts[0]));
}

proof fn lemma_well_formed_join(text: Seq<char>, p: Placeholder, rest: Seq<SpecToken>)
    requires
        !text.contains('{'),
        well_formed_tokens(rest),
    ensures
        well_formed_tokens(literal_tokens(text) + seq![SpecToken::Placeholder(p)] + rest),
{
    let lit = literal_tokens(text);
    let tokens = lit + seq![SpecToken::Placeholder(p)] + rest;
    assert forall|i: int| 0 <= i < tokens.len() implies match #[trigger] tokens[i] {
        SpecToken::Literal(value) => value.len() > 0 && !value.contains('{'),
        SpecToken::Placeholder(_) => true,
    } by {
        if i >= lit.len() + 1 {
            assert(tokens[i] == rest[i - lit.len() - 1]);
        }
    }
    assert forall|i: int| 0 <= i < tokens.len() - 1 implies !(#[trigger] tokens[i] is Literal
        && tokens[i + 1] is Literal) by {
        if i >= lit.len() + 1 {
            assert(tokens[i] == rest[i - lit.len() - 1]);
            assert(tokens[i + 1] == rest[i - lit.len()]);
        }
    }
}

proof fn lemma_source_join(text: Seq<char>, p: Placeholder, rest: Seq<SpecToken>)
    ensures
        template_source(literal_tokens(text) + seq![SpecToken::Placeholder(p)] + rest) == text
            + (seq!['{'] + placeholder_name(p) + seq!['}']) + template_source(rest),
{
    let lit = literal_tokens(text);
    let mid = seq![SpecToken::Placeholder(p)];
    lemma_template_source_concat(lit + mid, rest);
    lemma_template_source_concat(lit, mid);
    lemma_literal_tokens_source(text);
    lemma_placeholder_source(p);
}

/// Parsing reproduces its input: the source of the tokens a parse gives is
/// the text that was parsed, and those tokens are well formed.
pub proof fn lemma_parse_reproduces_source(s: Seq<char>)
    ensures
        parse_template(s) matches Ok(tokens) ==> template_source(tokens) == s
            && well_formed_tokens(tokens),
    decreases s.len(),
{
    lemma_first_index_of(s, '{');
    match first_index_of(s, '{') {
        None => {
            lemma_literal_tokens_source(s);
            let ts = literal_tokens(s);
            if s.len() > 0 {
                assert(!s.contains('{'));
                assert(ts[0] == SpecToken::Literal(s));
            }
        },
        Some(open) => {
            let after = s.skip(open + 1 as int);
            lemma_first_index_of(after, '}');
            match first_index_of(after, '}') {
                None => {},
                Some(close) => {
                    let name = after.take(close as int);
                    if name.len() > 0 {
                        match placeholder_named(name) {
                            None => {},
                            Some(p) => {
                                let next = after.skip(close + 1 as int);
                                lemma_parse_reproduces_source(next);
                                match parse_template(next) {
                                    Ok(rest) => {
                                        let text = s.take(open as int);
                                        lemma_source_join(text, p, rest);
                                        assert(placeholder_name(p) == name);
                                        assert(s =~= text + (seq!['{'] + name + seq!['}'])
                                            + next);
                                        assert forall|j: int| 0 <= j < text.len() implies text[j]
                                            != '{' by {}
                                        assert(!text.contains('{'));
                                        lemma_well_formed_join(text, p, rest);
                                    },
                                    Err(_) => {},
                                }
                            },
                        }
                    }
                },
            }
        },
    }
}

proof fn lemma_placeholder_name_facts(p: Placeholder)
    ensures
        placeholder_name(p).len() > 0,
        !placeholder_name(p).contains('}'),
        placeholder_named(placeholder_name(p)) == Some(p),
{
    reveal_strlit("index");
    reveal_strlit("title");
    let name = placeholder_name(p);
    assert(name.len() == 5);
    assert forall|j: int| 0 <= j < name.len() implies name[j] != '}' by {}
    if p == Placeholder::Title {
        assert(name[0] != "index"@[0]);
    }
}

/// Well-formed tokens are what parsing their source gives: parsing and
/// writing out a format undo each other.
pub proof fn lemma_source_parses_back(tokens: Seq<SpecToken>)
    requires
        well_formed_tokens(tokens),
    ensures
        parse_template(template_source(tokens)) == Ok::<Seq<SpecToken>, SpecParseError>(tokens),
    decreases tokens.len(),
{
    if tokens.len() == 0 {
        let s = template_source(tokens);
        assert(s =~= Seq::<char>::empty());
        lemma_first_index_of(s, '{');
        assert(literal_tokens(s) =~= tokens);
    } else {
        let text = match tokens[0] {
            SpecToken::Literal(value) => value,
            SpecToken::Placeholder(_) => Seq::<char>::empty(),
        };
        let k: int = if tokens[0] is Literal {
            1
        } else {
            0
        };
        assert(!text.contains('{'));
        if k == tokens.len() {
            assert(tokens =~= literal_tokens(text));
            lemma_literal_tokens_source(text);
            let s = template_source(tokens);
            lemma_first_index_of(s, '{');
            if first_index_of(s, '{') is Some {
                assert(text.contains('{'));
            }
        } else {
            assert(tokens[k] is Placeholder);
            let p = match tokens[k] {
                SpecToken::Placeholder(p) => p,
                SpecToken::Literal(_) => Placeholder::Index,
            };
            let rest = tokens.skip(k + 1);
            assert(tokens =~= literal_tokens(text) + seq![SpecToken::Placeholder(p)] + rest);
            assert(well_formed_tokens(rest)) by {
                assert forall|i: int| 0 <= i < rest.len() implies match #[trigger] rest[i] {
                    SpecToken::Literal(value) => value.len() > 0 && !value.contains('{'),
                    SpecToken::Placeholder(_) => true,
                } by {
                    assert(rest[i] == tokens[i + k + 1]);
                }
                assert forall|i: int| 0 <= i < rest.len() - 1 implies !(#[trigger] rest[i] is Literal
                    && rest[i + 1] is Literal) by {
                    assert(rest[i] == tokens[i + k + 1]);
                    assert(rest[i + 1] == tokens[i + k + 2]);
                }
            }
            lemma_source_parses_back(rest);
            lemma_source_join(text, p, rest);
            lemma_placeholder_name_facts(p);
            let name = placeholder_name(p);
            let s = template_source(tokens);
            let tail = template_source(rest);
            assert(s == text + (seq!['{'] + name + seq!['}']) + tail);
            assert forall|j: int| 0 <= j < text.len() implies s[j] != '{' by {
                assert(s[j] == text[j]);
            }
            assert(s[text.len() as int] == '{');
            lemma_first_index_of_is(s, '{', text.len() as int);
            let after = s.skip(text.len() + 1 as int);
            assert(after =~= name + seq!['}'] + tail);
            assert forall|j: int| 0 <= j < name.len() implies after[j] != '}' by {
                assert(after[j] == name[j]);
            }
            assert(after[name.len() as int] == '}');
            lemma_first_index_of_is(after, '}', name.len() as int);
            assert(after.take(name.len() as int) =~= name);
            assert(after.skip(name.len() + 1 as int) =~= tail);
            assert(s.take(text.len() as int) =~= text);
        }
    }
}

/// The text of a literal token; empty for a placeholder.
pub open spec fn literal_text(token: SpecToken) -> Seq<char> {
    match token {
        SpecToken::Literal(value) => value,
        SpecToken::Placeholder(_) => Seq::empty(),
    }
}

/// The tokens of two formats written one after the other: a literal that
/// ends the first and a literal that starts the second become one literal.
pub open spec fn joined_tokens(a: Seq<SpecToken>, b: Seq<SpecToken>) -> Seq<SpecToken> {
    if a.len() > 0 && b.len() > 0 && a.last() is Literal && b[0] is Literal {
        a.drop_last().push(SpecToken::Literal(literal_text(a.last()) + literal_text(b[0])))
            + b.drop_first()
    } else {
        a + b
    }
}

/// The tokens a successful parse of `s` gives; none when it fails.
pub open spec fn parsed_tokens(s: Seq<char>) -> Seq<SpecToken> {
    match parse_template(s) {
        Ok(tokens) => tokens,
        Err(_) => Seq::empty(),
    }
}

/// Rendering a joined sequence of tokens renders each part.
pub proof fn lemma_render_concat(a: Seq<SpecToken>, b: Seq<SpecToken>, index: nat, title: Seq<char>)
    ensures
        render_tokens(a + b, index, title) == render_tokens(a, index, title) + render_tokens(
            b,
            index,
            title,
        ),
    decreases b.len(),
{
    if b.len() == 0 {
        assert(a + b =~= a);
        assert(render_tokens(a, index, title) + Seq::<char>::empty() =~= render_tokens(
            a,
            index,
            title,
        ));
    } else {
        assert((a + b).drop_last() =~= a + b.drop_last());
        assert((a + b).last() == b.last());
        lemma_render_concat(a, b.drop_last(), index, title);
        assert(render_tokens(a, index, title) + render_tokens(b.drop_last(), index, title)
            + render_token(b.last(), index, title) =~= render_tokens(a, index, title) + (
        render_tokens(b.drop_last(), index, title) + render_token(b.last(), index, title)));
    }
}

proof fn lemma_render_single(t: SpecToken, index: nat, title: Seq<char>)
    ensures
        render_tokens(seq![t], index, title) == render_token(t, index, title),
{
    let ts = seq![t];
    assert(ts.drop_last() =~= Seq::<SpecToken>::empty());
    assert(ts.last() == t);
    assert(render_tokens(ts, index, title) == render_tokens(ts.drop_last(), index, title)
        + render_token(ts.last(), index, title));
    assert(render_tokens(Seq::<SpecToken>::empty(), index, title) =~= Seq::<char>::empty());
    assert(Seq::<char>::empty() + render_token(t, index, title) =~= render_token(t, index, title));
}

/// Each placeholder renders to its whole value and a literal to itself: `{title}` alone
/// gives exactly the title, `{index}` alone the index in decimal, for every index
/// and title.
pub proof fn lemma_render_placeholders(index: nat, title: Seq<char>, text: Seq<char>)
    ensures
        render_tokens(seq![SpecToken::Placeholder(Placeholder::Title)], index, title) == title,
        render_tokens(seq![SpecToken::Placeholder(Placeholder::Index)], index, title) == decimal(
            index,
        ),
        render_tokens(seq![SpecToken::Literal(text)], index, title) == text,
        render_tokens(Seq::<SpecToken>::empty(), index, title) == Seq::<char>::empty(),
{
    lemma_render_single(SpecToken::Placeholder(Placeholder::Title), index, title);
    lemma_render_single(SpecToken::Placeholder(Placeholder::Index), index, title);
    lemma_render_single(SpecToken::Literal(text), index, title);
}

/// Wherever `{title}` stands in a format, the rendered text holds the whole
/// title there, between what the tokens before and after it render to.
pub proof fn lemma_render_keeps_whole_title(
    before: Seq<SpecToken>,
    after: Seq<SpecToken>,
    index: nat,
    title: Seq<char>,
)
    ensures
        render_tokens(
            before + seq![SpecToken::Placeholder(Placeholder::Title)] + after,
            index,
            title,
        ) == render_tokens(before, index, title) + title + render_tokens(after, index, title),
        render_tokens(before + seq![SpecToken::Placeholder(Placeholder::Title)], index, title).len()
            == render_tokens(before, index, title).len() + title.len(),
{
    let t = seq![SpecToken::Placeholder(Placeholder::Title)];
    lemma_render_concat(before + t, after, index, title);
    lemma_render_concat(before, t, index, title);
    lemma_render_placeholders(index, title, Seq::empty());
}

proof fn lemma_source_single(t: SpecToken)
    ensures
        template_source(seq![t]) == token_source(t),
{
    let ts = seq![t];
    assert(ts.drop_first() =~= Seq::<SpecToken>::empty());
    assert(template_source(ts) == token_source(ts[0]) + template_source(ts.drop_first()));
    assert(token_source(t) + Seq::<char>::empty() =~= token_source(t));
}

proof fn lemma_well_formed_sub(tokens: Seq<SpecToken>, i: int, j: int)
    requires
        well_formed_tokens(tokens),
        0 <= i <= j <= tokens.len(),
    ensures
        well_formed_tokens(tokens.subrange(i, j)),
{
    let sub = tokens.subrange(i, j);
    assert forall|k: int| 0 <= k < sub.len() implies match #[trigger] sub[k] {
        SpecToken::Literal(value) => value.len() > 0 && !value.contains('{'),
        SpecToken::Placeholder(_) => true,
    } by {
        assert(sub[k] == tokens[i + k]);
    }
    assert forall|k: int| 0 <= k < sub.len() - 1 implies !(#[trigger] sub[k] is Literal && sub[k
        + 1] is Literal) by {
        assert(sub[k] == tokens[i + k]);
        assert(sub[k + 1] == tokens[i + k + 1]);
    }
}

proof fn lemma_well_formed_concat(a: Seq<SpecToken>, b: Seq<SpecToken>)
    requires
        well_formed_tokens(a),
        well_formed_tokens(b),
        !(a.len() > 0 && b.len() > 0 && a.last() is Literal && b[0] is Literal),
    ensures
        well_formed_tokens(a + b),
{
    let ab = a + b;
    assert forall|k: int| 0 <= k < ab.len() implies match #[trigger] ab[k] {
        SpecToken::Literal(value) => value.len() > 0 && !value.contains('{'),
        SpecToken::Placeholder(_) => true,
    } by {
        if k < a.len() {
            assert(ab[k] == a[k]);
        } else {
            assert(ab[k] == b[k - a.len()]);
        }
    }
    assert forall|k: int| 0 <= k < ab.len() - 1 implies !(#[trigger] ab[k] is Literal && ab[k
        + 1] is Literal) by {
        if k + 1 < a.len() {
            assert(ab[k] == a[k]);
            assert(ab[k + 1] == a[k + 1]);
        } else if k + 1 == a.len() {
            assert(ab[k] == a.last());
            assert(ab[k + 1] == b[0]);
        } else {
            assert(ab[k] == b[k - a.len()]);
            assert(ab[k + 1] == b[k + 1 - a.len()]);
        }
    }
}

/// Writing two formats one after the other: when both parse, so does the
/// joined text, to the joined tokens, and what it renders is what the first
/// renders followed by what the second renders.
pub proof fn lemma_parse_concat(a: Seq<char>, b: Seq<char>)
    requires
        parse_template(a) is Ok,
        parse_template(b) is Ok,
    ensures
        parse_template(a + b) == Ok::<Seq<SpecToken>, SpecParseError>(
            joined_tokens(parsed_tokens(a), parsed_tokens(b)),
        ),
        forall|index: nat, title: Seq<char>|
            #[trigger] render_tokens(joined_tokens(parsed_tokens(a), parsed_tokens(b)), index, title)
                == render_tokens(parsed_tokens(a), index, title) + render_tokens(
                parsed_tokens(b),
                index,
                title,
            ),
{
    let ta = parsed_tokens(a);
    let tb = parsed_tokens(b);
    lemma_parse_reproduces_source(a);
    lemma_parse_reproduces_source(b);
    let joined = joined_tokens(ta, tb);
    if ta.len() > 0 && tb.len() > 0 && ta.last() is Literal && tb[0] is Literal {
        let p = ta.drop_last();
        let q = tb.drop_first();
        let x = literal_text(ta.last());
        let y = literal_text(tb[0]);
        let merged = SpecToken::Literal(x + y);
        assert(ta =~= p + seq![SpecToken::Literal(x)]);
        assert(tb =~= seq![SpecToken::Literal(y)] + q);
        assert(joined =~= (p + seq![merged]) + q);
        lemma_template_source_concat(p, seq![SpecToken::Literal(x)]);
        lemma_template_source_concat(seq![SpecToken::Literal(y)], q);
        lemma_template_source_concat(p + seq![merged], q);
        lemma_template_source_concat(p, seq![merged]);
        lemma_source_single(SpecToken::Literal(x));
        lemma_source_single(SpecToken::Literal(y));
        lemma_source_single(merged);
        assert(template_source(joined) =~= a + b);
        lemma_well_formed_sub(ta, 0, ta.len() - 1);
        lemma_well_formed_sub(tb, 1, tb.len() as int);
        assert(ta.drop_last() =~= ta.subrange(0, ta.len() - 1));
        assert(tb.drop_first() =~= tb.subrange(1, tb.len() as int));
        assert(ta[ta.len() - 1] is Literal);
        assert(tb[0] is Literal);
        assert(x.len() > 0 && !x.contains('{'));
        assert(y.len() > 0 && !y.contains('{'));
        assert(!(x + y).contains('{')) by {
            if (x + y).contains('{') {
                let k = choose|k: int| 0 <= k < (x + y).len() && (x + y)[k] == '{';
                if k < x.len() {
                    assert(x[k] == '{');
                } else {
                    assert(y[k - x.len()] == '{');
                }
            }
        }
        assert(well_formed_tokens(seq![merged]));
        if p.len() > 0 {
            assert(p.last() == ta[ta.len() - 2]);
        }
        lemma_well_formed_concat(p, seq![merged]);
        if q.len() > 0 {
            assert(q[0] == tb[1]);
        }
        lemma_well_formed_concat(p + seq![merged], q);
        lemma_source_parses_back(joined);
        assert forall|index: nat, title: Seq<char>|
            #[trigger] render_tokens(joined, index, title) == render_tokens(ta, index, title)
                + render_tokens(tb, index, title) by {
            lemma_render_concat(p + seq![merged], q, index, title);
            lemma_render_concat(p, seq![merged], index, title);
            lemma_render_concat(p, seq![SpecToken::Literal(x)], index, title);
            lemma_render_concat(seq![SpecToken::Literal(y)], q, index, title);
            lemma_render_single(merged, index, title);
            lemma_render_single(SpecToken::Literal(x), index, title);
            lemma_render_single(SpecToken::Literal(y), index, title);
            assert(render_tokens(joined, index, title) =~= render_tokens(ta, index, title)
                + render_tokens(tb, index, title));
        }
    } else {
        lemma_template_source_concat(ta, tb);
        lemma_well_formed_concat(ta, tb);
        lemma_source_parses_back(joined);
        assert forall|index: nat, title: Seq<char>|
            #[trigger] render_tokens(joined, index, title) == render_tokens(ta, index, title)
                + render_tokens(tb, index, title) by {
            lemma_render_concat(ta, tb, index, title);
        }
    }
}

fn literal_token(input: &str, from: usize, to: usize) -> (t: Token)
    requires
        from <= to <= input@.len(),
    ensures
        t@ == SpecToken::Literal(input@.subrange(from as int, to as int)),
{
    Token::Literal(String::from_str(input.substring_char(from, to)))
}

impl Template {
    /// Parses a format: text outside braces is kept as is, `{index}` and
    /// `{title}` become placeholders.
    pub fn parse(input: &str) -> (r: Result<Self, ParseError>)
        ensures
            match r {
                Ok(template) => parse_template(input@) == Ok::<
                    Seq<SpecToken>,
                    SpecParseError,
                >(template@),
                Err(e) => parse_template(input@) == Err::<Seq<SpecToken>, SpecParseError>(e@),
            },
    {
        let n = input.unicode_len();
        let ghost s = input@;
        let mut tokens: Vec<Token> = Vec::new();
        let mut i: usize = 0;
        assert(s.skip(0) =~= s);
        assert(Seq::<SpecToken>::empty() + tokens_view(tokens@) =~= tokens_view(tokens@));
        loop
            invariant
                n == s.len(),
                s == input@,
                0 <= i <= n,
                parse_template(s) == after_tokens(tokens_view(tokens@), parse_template(s.skip(i as int))),
            decreases n - i,
        {
            let ghost rest = s.skip(i as int);
            let mut open = i;
            while open < n && input.get_char(open) != '{'
                invariant
                    n == s.len(),
                    s == input@,
                    i <= open <= n,
                    forall|j: int| i <= j < open ==> s[j] != '{',
                decreases n - open,
            {
                open = open + 1;
            }
            if open == n {
                proof {
                    lemma_first_index_of(rest, '{');
                    if first_index_of(rest, '{') is Some {
                        let k = first_index_of(rest, '{')->0;
                        assert(rest[k as int] == s[i + k]);
                    }
                }
                assert(rest =~= s.subrange(i as int, n as int));
                if i < n {
                    let t = literal_token(input, i, n);
                    let ghost before = tokens_view(tokens@);
                    tokens.push(t);
                    assert(tokens_view(tokens@) =~= before.push(t@));
                    assert(before + literal_tokens(rest) =~= tokens_view(tokens@));
                } else {
                    assert(tokens_view(tokens@) + literal_tokens(rest) =~= tokens_view(tokens@));
                }
                return Ok(Template { tokens });
            }
            proof {
                lemma_first_index_of_is(rest, '{', open - i);
            }
            let ghost after = s.skip(open + 1);
            assert(rest.skip(open - i + 1) =~= after);
            let mut close = open + 1;
            while close < n && input.get_char(close) != '}'
                invariant
                    n == s.len(),
                    s == input@,
                    open < n,
                    open + 1 <= close <= n,
                    forall|j: int| open + 1 <= j < close ==> s[j] != '}',
                decreases n - close,
            {
                close = close + 1;
            }
            if close == n {
                proof {
                    lemma_first_index_of(after, '}');
                    if first_index_of(after, '}') is Some {
                        let k = first_index_of(after, '}')->0;
                        assert(after[k as int] == s[open + 1 + k]);
                    }
                }
                return Err(ParseError::UnclosedPlaceholder);
            }
            proof {
                assert forall|j: int| 0 <= j < close - open - 1 implies after[j] != '}' by {
                    assert(after[j] == s[open + 1 + j]);
                }
                lemma_first_index_of_is(after, '}', close - open - 1);
            }
            let name = input.substring_char(open + 1, close);
            assert(name@ =~= after.take(close - open - 1));
            if open + 1 == close {
                return Err(ParseError::EmptyPlaceholder);
            }
            let placeholder = match Placeholder::parse(name) {
                Some(p) => p,
                None => {
                    return Err(ParseError::UnknownPlaceholder(String::from_str(name)));
                },
            };
            let ghost before = tokens_view(tokens@);
            let ghost literal = s.subrange(i as int, open as int);
            assert(rest.take(open - i) =~= literal);
            if i < open {
                let t = literal_token(input, i, open);
                tokens.push(t);
            }
            assert(tokens_view(tokens@) =~= before + literal_tokens(literal)) by {
                if i < open {
                    assert(tokens_view(tokens@) =~= before.push(SpecToken::Literal(literal)));
                }
            }
            let ghost mid = tokens_view(tokens@);
            tokens.push(Token::Placeholder(placeholder));
            assert(tokens_view(tokens@) =~= mid.push(SpecToken::Placeholder(placeholder)));
            assert(after.skip(close - open - 1 + 1) =~= s.skip(close + 1));
            proof {
                let next = s.skip(close + 1);
                match parse_template(next) {
                    Ok(more) => {
                        assert(before + (literal_tokens(literal) + seq![
                            SpecToken::Placeholder(placeholder),
                        ] + more) =~= tokens_view(tokens@) + more);
                    },
                    Err(e) => {},
                }
            }
            i = close + 1;
        }
    }

    /// The tokens of the format, in order.
    pub fn tokens(&self) -> (r: &[Token])
        ensures
            tokens_view(r@) == self@,
    {
        self.tokens.as_slice()
    }

    /// The title of a tab at `context.index` with title `context.title`:
    /// literals as written, `{index}` in decimal, `{title}` as given.
    pub fn render(&self, context: &RenderContext<'_>) -> (r: String)
        ensures
            r@ == render_tokens(self@, context.index as nat, context.title@),
    {
        let mut output = String::new();
        let n = self.tokens.len();
        let mut k: usize = 0;
        while k < n
            invariant
                n == self.tokens@.len(),
                0 <= k <= n,
                output@ == render_tokens(self@.take(k as int), context.index as nat, context.title@),
            decreases n - k,
        {
            let ghost before = output@;
            match &self.tokens[k] {
                Token::Literal(value) => output.append(value.as_str()),
                Token::Placeholder(Placeholder::Index) => {
                    let digits = decimal_string(context.index as u128);
                    output.append(digits.as_str());
                },
                Token::Placeholder(Placeholder::Title) => output.append(context.title),
            }
            assert(self@.take(k + 1).drop_last() =~= self@.take(k as int));
            assert(self@.take(k + 1).last() == self.tokens@[k as int]@);
            k = k + 1;
        }
        assert(self@.take(n as int) =~= self@);
        output
    }
}

impl ParseError {
    /// The error as a sentence.
    pub fn message(&self) -> (r: String)
        ensures
            r@ == parse_error_message(self@),
    {
        match self {
            ParseError::UnknownPlaceholder(name) => {
                let mut text = String::from_str("unknown placeholder {");
                text.append(name.as_str());
                text.append("}");
                text
            },
            ParseError::UnclosedPlaceholder => String::from_str("unclosed placeholder"),
            ParseError::EmptyPlaceholder => String::from_str("empty placeholder"),
        }
    }
}

/// The sentence that describes a parse error.
pub open spec fn parse_error_message(e: SpecParseError) -> Seq<char> {
    match e {
        SpecParseError::UnknownPlaceholder(name) => "unknown placeholder {"@ + name + "}"@,
        SpecParseError::UnclosedPlaceholder => "unclosed placeholder"@,
        SpecParseError::EmptyPlaceholder => "empty placeholder"@,
    }
}

} // verus!
