//! The pieces a title format is made of.
use vstd::prelude::*;

use crate::text::str_equal;

verus! {

/// A `{name}` slot of a format.
#[derive(Debug, Clone, Copy, PartialEq, Eq, Structural)]
pub enum Placeholder {
    /// `{index}`: the tab's 1-based position inside its workspace.
    Index,
    /// `{title}`: the tab's own title.
    Title,
}

/// One piece of a format: literal text or a placeholder.
#[derive(Debug, Clone, PartialEq, Eq)]
pub enum Token {
    Literal(String),
    Placeholder(Placeholder),
}

/// The mathematical value of a [`Token`].
pub enum SpecToken {
    Literal(Seq<char>),
    Placeholder(Placeholder),
}

impl View for Token {
    type V = SpecToken;

    open spec fn view(&self) -> SpecToken {
        match self {
            Token::Literal(value) => SpecToken::Literal(value@),
            Token::Placeholder(p) => SpecToken::Placeholder(*p),
        }
    }
}

/// The tokens of a sequence, by their values.
pub open spec fn tokens_view(tokens: Seq<Token>) -> Seq<SpecToken> {
    tokens.map_values(|t: Token| t@)
}

/// The name written between the braces of a placeholder.
pub open spec fn placeholder_name(p: Placeholder) -> Seq<char> {
    match p {
        Placeholder::Index => "index"@,
        Placeholder::Title => "title"@,
    }
}

/// The placeholder that a name between braces stands for, if any.
pub open spec fn placeholder_named(name: Seq<char>) -> Option<Placeholder> {
    if name == "index"@ {
        Some(Placeholder::Index)
    } else if name == "title"@ {
        Some(Placeholder::Title)
    } else {
        None
    }
}

impl Placeholder {
    /// The placeholder called `name`: `index` or `title`.
    pub fn parse(name: &str) -> (r: Option<Self>)
        ensures
            r == placeholder_named(name@),
    {
        if str_equal(name, "index") {
            Some(Placeholder::Index)
        } else if str_equal(name, "title") {
            Some(Placeholder::Title)
        } else {
            None
        }
    }
}

} // verus!
