use vstd::prelude::*;
use vstd::string::*;

verus! {

/// The kinds of token that lexing produces.
#[derive(Debug, Clone, PartialEq)]
pub enum TokenKind {
    Keyword(String),
    Identifier(String),
    Number(String),
    StringLiteral(String),
    Comment(String),
    Newline,
}

/// A token with the line and column at which it starts.
#[derive(Debug, Clone, PartialEq)]
pub struct Token {
    pub kind: TokenKind,
    pub line: usize,
    pub column: usize,
}

/// Two character sequences are equal.
pub fn str_eq(a: &str, b: &str) -> (r: bool)
    ensures
        r == (a@ == b@),
{
    let n = a.unicode_len();
    if n != b.unicode_len() {
        return false;
    }
    let mut i: usize = 0;
    while i < n
        invariant
            n == a@.len(),
            n == b@.len(),
            i <= n,
            a@.subrange(0, i as int) == b@.subrange(0, i as int),
        decreases n - i,
    {
        if a.get_char(i) != b.get_char(i) {
            assert(a@[i as int] != b@[i as int]);
            return false;
        }
        assert(a@.subrange(0, i + 1) == a@.subrange(0, i as int).push(a@[i as int]));
        assert(b@.subrange(0, i + 1) == b@.subrange(0, i as int).push(b@[i as int]));
        i = i + 1;
    }
    assert(a@ == a@.subrange(0, n as int));
    assert(b@ == b@.subrange(0, n as int));
    true
}

/// The fixed set of words that lex as keywords.
pub open spec fn keyword_word(w: Seq<char>) -> bool {
    w == "HAI"@
        || w == "KTHXBYE"@
        || w == "VISIBLE"@
        || w == "GIMMEH"@
        || w == "I"@
        || w == "HAS"@
        || w == "A"@
        || w == "ITZ"@
        || w == "R"@
        || w == "AN"@
        || w == "SUM"@
        || w == "OF"@
        || w == "DIFF"@
        || w == "PRODUKT"@
        || w == "QUOSHUNT"@
        || w == "MOD"@
        || w == "BOTH"@
        || w == "SAEM"@
        || w == "DIFFRINT"@
        || w == "O"@
        || w == "RLY?"@
        || w == "YA"@
        || w == "RLY"@
        || w == "MEBBE"@
        || w == "NO"@
        || w == "WAI"@
        || w == "OIC"@
        || w == "IM"@
        || w == "IN"@
        || w == "YR"@
        || w == "LOOP"@
        || w == "UPPIN"@
        || w == "NERFIN"@
        || w == "TIL"@
        || w == "WILE"@
        || w == "HOW"@
        || w == "DUZ"@
        || w == "FOUND"@
        || w == "MKAY"@
        || w == "OBTW"@
        || w == "TLDR"@
}

impl Token {
    /// Creates a token of the given kind at the given position.
    pub fn new(kind: TokenKind, line: usize, column: usize) -> (r: Self)
        ensures
            r == (Token { kind, line, column }),
    {
        Token { kind, line, column }
    }

    /// Whether a word belongs to the keyword set.
    pub fn is_keyword(word: &str) -> (r: bool)
        ensures
            r == keyword_word(word@),
    {
        str_eq(word, "HAI")
            || str_eq(word, "KTHXBYE")
            || str_eq(word, "VISIBLE")
            || str_eq(word, "GIMMEH")
            || str_eq(word, "I")
            || str_eq(word, "HAS")
            || str_eq(word, "A")
            || str_eq(word, "ITZ")
            || str_eq(word, "R")
            || str_eq(word, "AN")
            || str_eq(word, "SUM")
            || str_eq(word, "OF")
            || str_eq(word, "DIFF")
            || str_eq(word, "PRODUKT")
            || str_eq(word, "QUOSHUNT")
            || str_eq(word, "MOD")
            || str_eq(word, "BOTH")
            || str_eq(word, "SAEM")
            || str_eq(word, "DIFFRINT")
            || str_eq(word, "O")
            || str_eq(word, "RLY?")
            || str_eq(word, "YA")
            || str_eq(word, "RLY")
            || str_eq(word, "MEBBE")
            || str_eq(word, "NO")
            || str_eq(word, "WAI")
            || str_eq(word, "OIC")
            || str_eq(word, "IM")
            || str_eq(word, "IN")
            || str_eq(word, "YR")
            || str_eq(word, "LOOP")
            || str_eq(word, "UPPIN")
            || str_eq(word, "NERFIN")
            || str_eq(word, "TIL")
            || str_eq(word, "WILE")
            || str_eq(word, "HOW")
            || str_eq(word, "DUZ")
            || str_eq(word, "FOUND")
            || str_eq(word, "MKAY")
            || str_eq(word, "OBTW")
            || str_eq(word, "TLDR")
    }
}

/// What `{:?}` makes of a string: the text in double quotes, with quotes,
/// backslashes and control characters escaped.
pub uninterp spec fn debug_text(s: Seq<char>) -> Seq<char>;

/// Relies on the `Debug` formatting of `str`: the quoted, escaped text.
#[verifier::external_body]
fn debug_str(s: &str) -> (r: String)
    ensures
        r@ == debug_text(s@),
{
    format!("{:?}", s)
}

/// The variant name of a token kind.
pub open spec fn kind_name(k: TokenKind) -> Seq<char> {
    match k {
        TokenKind::Keyword(_) => "Keyword"@,
        TokenKind::Identifier(_) => "Identifier"@,
        TokenKind::Number(_) => "Number"@,
        TokenKind::StringLiteral(_) => "StringLiteral"@,
        TokenKind::Comment(_) => "Comment"@,
        TokenKind::Newline => "Newline"@,
    }
}

/// A token kind written with its text already quoted: `Number("1")`, `Newline`.
pub open spec fn kind_with(k: TokenKind, quoted: Seq<char>) -> Seq<char> {
    if k is Newline {
        kind_name(k)
    } else {
        kind_name(k) + "("@ + quoted + ")"@
    }
}

/// How a token kind is written in messages, as `{:?}` writes it: `Number("1")`,
/// `Keyword("OF")`, `Newline`.
pub open spec fn kind_text(k: TokenKind) -> Seq<char> {
    match k {
        TokenKind::Keyword(s) => kind_with(k, debug_text(s@)),
        TokenKind::Identifier(s) => kind_with(k, debug_text(s@)),
        TokenKind::Number(s) => kind_with(k, debug_text(s@)),
        TokenKind::StringLiteral(s) => kind_with(k, debug_text(s@)),
        TokenKind::Comment(s) => kind_with(k, debug_text(s@)),
        TokenKind::Newline => kind_with(k, Seq::empty()),
    }
}

impl TokenKind {
    /// The variant name.
    pub fn name(&self) -> (r: &'static str)
        ensures
            r@ == kind_name(*self),
    {
        match self {
            TokenKind::Keyword(_) => "Keyword",
            TokenKind::Identifier(_) => "Identifier",
            TokenKind::Number(_) => "Number",
            TokenKind::StringLiteral(_) => "StringLiteral",
            TokenKind::Comment(_) => "Comment",
            TokenKind::Newline => "Newline",
        }
    }

    /// The kind written with `quoted` as its already quoted text.
    pub fn describe_with(&self, quoted: &str) -> (r: String)
        ensures
            r@ == kind_with(*self, quoted@),
    {
        let mut r = String::from_str(self.name());
        if let TokenKind::Newline = self {
            return r;
        }
        r.append("(");
        r.append(quoted);
        r.append(")");
        r
    }

    /// The kind as written in messages.
    pub fn describe(&self) -> (r: String)
        ensures
            r@ == kind_text(*self),
    {
        match self {
            TokenKind::Keyword(s) | TokenKind::Identifier(s) | TokenKind::Number(s)
            | TokenKind::StringLiteral(s) | TokenKind::Comment(s) => {
                let q = debug_str(s.as_str());
                self.describe_with(q.as_str())
            },
            TokenKind::Newline => self.describe_with(""),
        }
    }
}

/// The mathematical form of a token kind.
pub enum KindModel {
    Keyword(Seq<char>),
    Identifier(Seq<char>),
    Number(Seq<char>),
    StringLiteral(Seq<char>),
    Comment(Seq<char>),
    Newline,
}

/// The mathematical form of a token.
pub struct TokModel {
    pub kind: KindModel,
    pub line: int,
    pub column: int,
}

pub open spec fn kind_view(k: TokenKind) -> KindModel {
    match k {
        TokenKind::Keyword(s) => KindModel::Keyword(s@),
        TokenKind::Identifier(s) => KindModel::Identifier(s@),
        TokenKind::Number(s) => KindModel::Number(s@),
        TokenKind::StringLiteral(s) => KindModel::StringLiteral(s@),
        TokenKind::Comment(s) => KindModel::Comment(s@),
        TokenKind::Newline => KindModel::Newline,
    }
}

pub open spec fn tok_view(t: Token) -> TokModel {
    TokModel { kind: kind_view(t.kind), line: t.line as int, column: t.column as int }
}

pub open spec fn toks_view(v: Seq<Token>) -> Seq<TokModel> {
    v.map_values(|t: Token| tok_view(t))
}

} // verus!
