use vstd::prelude::*;
use vstd::string::*;
use vstd::std_specs::iter::IteratorSpec;
use crate::types::{keyword_word, kind_view, tok_view, toks_view, KindModel, TokModel, Token, TokenKind};

verus! {

// ---------------------------------------------------------------------------
// Character classes.
// ---------------------------------------------------------------------------

pub open spec fn is_digit(c: char) -> bool {
    48 <= (c as u32) <= 57
}

pub open spec fn is_alpha(c: char) -> bool {
    65 <= (c as u32) <= 90 || 97 <= (c as u32) <= 122
}

pub open spec fn is_alnum(c: char) -> bool {
    is_digit(c) || is_alpha(c)
}

/// The code of `c` with an ASCII lower-case letter raised to upper case.
pub open spec fn upper_code(c: char) -> u32 {
    if 97 <= (c as u32) <= 122 {
        (c as u32 - 32) as u32
    } else {
        c as u32
    }
}

fn digit(c: char) -> (r: bool)
    ensures
        r == is_digit(c),
{
    let u = c as u32;
    48 <= u && u <= 57
}

fn alpha(c: char) -> (r: bool)
    ensures
        r == is_alpha(c),
{
    let u = c as u32;
    (65 <= u && u <= 90) || (97 <= u && u <= 122)
}

fn alnum(c: char) -> (r: bool)
    ensures
        r == is_alnum(c),
{
    digit(c) || alpha(c)
}

// ---------------------------------------------------------------------------
// Lines and columns, as functions of the offset into the source.
// ---------------------------------------------------------------------------

pub open spec fn count_newlines(s: Seq<char>) -> nat
    decreases s.len(),
{
    if s.len() == 0 {
        0
    } else {
        count_newlines(s.drop_last()) + if s.last() == '\n' {
            1nat
        } else {
            0nat
        }
    }
}

/// The column reached after `s`, starting from column 1: one past the characters
/// since the last line break.
pub open spec fn column_after(s: Seq<char>) -> nat
    decreases s.len(),
{
    if s.len() == 0 {
        1
    } else if s.last() == '\n' {
        1
    } else {
        column_after(s.drop_last()) + 1
    }
}

pub open spec fn line_at(chars: Seq<char>, i: int) -> int {
    (1 + count_newlines(chars.take(i))) as int
}

pub open spec fn column_at(chars: Seq<char>, i: int) -> int {
    column_after(chars.take(i)) as int
}

proof fn lemma_position_step(chars: Seq<char>, i: int)
    requires
        0 <= i < chars.len(),
    ensures
        line_at(chars, i + 1) == line_at(chars, i) + if chars[i] == '\n' {
            1int
        } else {
            0int
        },
        column_at(chars, i + 1) == if chars[i] == '\n' {
            1
        } else {
            column_at(chars, i) + 1
        },
{
    assert(chars.take(i + 1).drop_last() =~= chars.take(i));
}

proof fn lemma_position_bound(s: Seq<char>)
    ensures
        count_newlines(s) <= s.len(),
        column_after(s) <= s.len() + 1,
    decreases s.len(),
{
    if s.len() > 0 {
        lemma_position_bound(s.drop_last());
    }
}

// ---------------------------------------------------------------------------
// The lexical grammar, over the characters of the source.
// ---------------------------------------------------------------------------

/// The kinds of character run that a token's text spans.
#[derive(Clone, Copy, PartialEq, Eq, Structural)]
pub enum Run {
    /// Up to a closing double quote.
    StringBody,
    /// Digits and dots.
    NumberBody,
    /// Letters, digits and `?`.
    WordBody,
    /// Up to a line break.
    LineBody,
}

pub open spec fn keeps(r: Run, c: char) -> bool {
    match r {
        Run::StringBody => c != '"',
        Run::NumberBody => is_digit(c) || c == '.',
        Run::WordBody => is_alnum(c) || c == '?',
        Run::LineBody => c != '\n',
    }
}

/// The length of the run of `r` characters from `i`.
pub open spec fn run_len(chars: Seq<char>, i: int, r: Run) -> nat
    decreases chars.len() - i,
{
    if 0 <= i < chars.len() && keeps(r, chars[i]) {
        1 + run_len(chars, i + 1, r)
    } else {
        0
    }
}

/// The run of `r` from `i` ends within the input, holds only `r` characters, and
/// stops at one that is not.
pub open spec fn run_facts(chars: Seq<char>, i: int, r: Run) -> bool {
    let n = run_len(chars, i, r);
    &&& i + n <= chars.len()
    &&& forall|k: int| i <= k < i + n ==> keeps(r, #[trigger] chars[k])
    &&& i + n < chars.len() ==> !keeps(r, chars[i + n])
}

proof fn lemma_run_len_bound(chars: Seq<char>, i: int, r: Run)
    requires
        0 <= i <= chars.len(),
    ensures
        run_facts(chars, i, r),
    decreases chars.len() - i,
{
    if i < chars.len() && keeps(r, chars[i]) {
        lemma_run_len_bound(chars, i + 1, r);
    }
}

/// The characters from `i` spell `w`, ignoring the case of letters.
pub open spec fn word_at(chars: Seq<char>, i: int, w: Seq<char>) -> bool {
    &&& 0 <= i
    &&& i + w.len() <= chars.len()
    &&& forall|k: int| 0 <= k < w.len() ==> upper_code(#[trigger] chars[i + k]) == w[k] as u32
}

/// `w` from `i`, not followed by a letter or digit.
pub open spec fn marker_at(chars: Seq<char>, i: int, w: Seq<char>) -> bool {
    word_at(chars, i, w) && (i + w.len() == chars.len() || !is_alnum(chars[i + w.len()]))
}

/// `TLDR` from `i`, not followed by a letter or digit.
pub open spec fn tldr_at(chars: Seq<char>, i: int) -> bool {
    word_at(chars, i, "TLDR"@) && (i + 4 == chars.len() || !is_alnum(chars[i + 4]))
}

/// How many characters from `i` precede the first `TLDR`, or the end of input.
pub open spec fn until_tldr(chars: Seq<char>, i: int) -> nat
    decreases chars.len() - i,
{
    if !(0 <= i < chars.len()) || tldr_at(chars, i) {
        0
    } else {
        1 + until_tldr(chars, i + 1)
    }
}

pub open spec fn token_at(chars: Seq<char>, kind: KindModel, i: int) -> TokModel {
    TokModel { kind, line: line_at(chars, i), column: column_at(chars, i) }
}

/// A word from `i`, which starts with a letter: a comment, a keyword or an
/// identifier, and the index past it.
pub open spec fn word_token(chars: Seq<char>, i: int) -> (KindModel, int) {
    if marker_at(chars, i, "BTW"@) {
        let n = run_len(chars, i + 3, Run::LineBody);
        (KindModel::Comment(chars.subrange(i + 3, i + 3 + n)), i + 3 + n)
    } else if marker_at(chars, i, "OBTW"@) {
        let n = until_tldr(chars, i + 4);
        let end = if i + 4 + n < chars.len() {
            i + 8 + n
        } else {
            i + 4 + n
        };
        (KindModel::Comment(chars.subrange(i + 4, i + 4 + n)), end)
    } else {
        let n = run_len(chars, i, Run::WordBody);
        let w = chars.subrange(i, i + n);
        (
            if keyword_word(w) {
                KindModel::Keyword(w)
            } else {
                KindModel::Identifier(w)
            },
            i + n,
        )
    }
}

proof fn lemma_until_tldr(chars: Seq<char>, i: int)
    requires
        0 <= i <= chars.len(),
    ensures
        i + until_tldr(chars, i) <= chars.len(),
        i + until_tldr(chars, i) < chars.len() ==> tldr_at(chars, i + until_tldr(chars, i)),
        forall|k: int| i <= k < i + until_tldr(chars, i) ==> !tldr_at(chars, k),
    decreases chars.len() - i,
{
    if i < chars.len() && !tldr_at(chars, i) {
        lemma_until_tldr(chars, i + 1);
    }
}

proof fn lemma_word_token_end(chars: Seq<char>, i: int)
    requires
        0 <= i < chars.len(),
        is_alpha(chars[i]),
    ensures
        i < word_token(chars, i).1 <= chars.len(),
{
    reveal_strlit("BTW");
    reveal_strlit("OBTW");
    reveal_strlit("TLDR");
    if marker_at(chars, i, "BTW"@) {
        lemma_run_len_bound(chars, i + 3, Run::LineBody);
    } else if marker_at(chars, i, "OBTW"@) {
        lemma_until_tldr(chars, i + 4);
    } else {
        lemma_run_len_bound(chars, i, Run::WordBody);
    }
}

#[via_fn]
proof fn lex_from_decreases(chars: Seq<char>, i: int) {
    if 0 <= i < chars.len() {
        lemma_run_len_bound(chars, i + 1, Run::StringBody);
        lemma_run_len_bound(chars, i, Run::NumberBody);
        if is_alpha(chars[i]) {
            lemma_word_token_end(chars, i);
        }
    }
}

/// The tokens of the source from index `i`.
pub open spec fn lex_from(chars: Seq<char>, i: int) -> Seq<TokModel>
    decreases chars.len() - i,
    via lex_from_decreases
{
    if !(0 <= i < chars.len()) {
        Seq::empty()
    } else {
        let c = chars[i];
        if c == '\n' {
            seq![token_at(chars, KindModel::Newline, i + 1)] + lex_from(chars, i + 1)
        } else if c == '"' {
            let n = run_len(chars, i + 1, Run::StringBody);
            let end = if i + 1 + n < chars.len() {
                i + 2 + n
            } else {
                i + 1 + n
            };
            seq![token_at(chars, KindModel::StringLiteral(chars.subrange(i + 1, i + 1 + n)), i)]
                + lex_from(chars, end)
        } else if is_digit(c) {
            let n = run_len(chars, i, Run::NumberBody);
            seq![token_at(chars, KindModel::Number(chars.subrange(i, i + n)), i)] + lex_from(
                chars,
                i + n,
            )
        } else if is_alpha(c) {
            let (k, end) = word_token(chars, i);
            seq![token_at(chars, k, i)] + lex_from(chars, end)
        } else {
            lex_from(chars, i + 1)
        }
    }
}

/// The tokens of a whole source text.
pub open spec fn lex(source: Seq<char>) -> Seq<TokModel> {
    lex_from(source, 0)
}

// ---------------------------------------------------------------------------
// The lexer.
// ---------------------------------------------------------------------------

/// The characters of a string, in order.
fn chars_of(s: &str) -> (r: Vec<char>)
    ensures
        r@ == s@,
{
    broadcast use vstd::string::group_string_axioms;

    let mut it = s.chars();
    let mut v: Vec<char> = Vec::new();
    loop
        invariant
            v@ + it.remaining() == s@,
            it.decrease() is Some,
        ensures
            v@ == s@,
        decreases it.decrease()->0,
    {
        let ghost before = it.remaining();
        match it.next() {
            Some(c) => {
                assert(v@.push(c) + it.remaining() =~= v@ + before);
                v.push(c);
            },
            None => {
                assert(v@ + before =~= v@);
                break;
            },
        }
    }
    v
}

/// Relies on `String::push`: appends one character.
#[verifier::external_body]
fn push_char(s: &mut String, c: char)
    ensures
        final(s)@ == old(s)@.push(c),
{
    s.push(c);
}

fn upper(c: char) -> (r: u32)
    ensures
        r == upper_code(c),
{
    let u = c as u32;
    if 97 <= u && u <= 122 {
        u - 32
    } else {
        u
    }
}

/// A cursor over the characters of a source text, with the line and column it
/// has reached.
pub struct Lexer {
    source: String,
    chars: Vec<char>,
    position: usize,
    line: usize,
    column: usize,
}

impl Lexer {
    /// The source text.
    pub closed spec fn source_view(&self) -> Seq<char> {
        self.source@
    }

    /// The index of the next character to read.
    pub closed spec fn cursor(&self) -> int {
        self.position as int
    }

    /// The line the cursor is on, counted from one.
    pub closed spec fn line_view(&self) -> int {
        self.line as int
    }

    /// The column the cursor is at, counted from one.
    pub closed spec fn column_view(&self) -> int {
        self.column as int
    }

    pub closed spec fn wf(&self) -> bool {
        &&& self.chars@ == self.source@
        &&& self.chars@.len() < usize::MAX
        &&& self.position <= self.chars@.len()
        &&& self.line == line_at(self.chars@, self.position as int)
        &&& self.column == column_at(self.chars@, self.position as int)
    }

    /// The source text.
    pub fn source(&self) -> (r: &String)
        ensures
            r@ == self.source_view(),
    {
        &self.source
    }

    /// The index of the next character to read.
    pub fn position(&self) -> (r: usize)
        ensures
            r == self.cursor(),
    {
        self.position
    }

    /// The line the cursor is on.
    pub fn line(&self) -> (r: usize)
        ensures
            r == self.line_view(),
    {
        self.line
    }

    /// The column the cursor is at.
    pub fn column(&self) -> (r: usize)
        ensures
            r == self.column_view(),
    {
        self.column
    }

    /// Creates a lexer at the start of `source`.
    pub fn new(source: String) -> (r: Self)
        requires
            source@.len() < usize::MAX,
        ensures
            r.wf(),
            r.source_view() == source@,
            r.cursor() == 0,
            r.line_view() == 1,
            r.column_view() == 1,
    {
        let chars = chars_of(source.as_str());
        let r = Lexer { source, chars, position: 0, line: 1, column: 1 };
        assert(r.chars@.take(0) =~= Seq::<char>::empty());
        r
    }

    /// Splits the rest of the source into tokens; lexing never fails.
    pub fn tokenize(&mut self) -> (r: Vec<Token>)
        requires
            old(self).wf(),
        ensures
            final(self).wf(),
            final(self).source_view() == old(self).source_view(),
            final(self).cursor() == old(self).source_view().len(),
            final(self).line_view() == line_at(old(self).source_view(), final(self).cursor()),
            final(self).column_view() == column_at(old(self).source_view(), final(self).cursor()),
            toks_view(r@) == lex_from(old(self).source_view(), old(self).cursor()),
    {
        let ghost chars = self.chars@;
        let ghost start = self.position as int;
        let mut tokens: Vec<Token> = Vec::new();
        assert(toks_view(tokens@) =~= Seq::<TokModel>::empty());
        while self.position < self.chars.len()
            invariant
                self.wf(),
                self.chars@ == chars,
                self.source@ == old(self).source@,
                old(self).chars@ == chars,
                start == old(self).position,
                start <= self.position,
                lex_from(chars, start) == toks_view(tokens@) + lex_from(chars, self.position as int),
            decreases chars.len() - self.position,
        {
            let ch = self.chars[self.position];
            if ch == '\n' {
                self.advance();
                let t = Token::new(TokenKind::Newline, self.line, self.column);
                tokens.push(t);
                proof {
                    lemma_toks_push(tokens@.drop_last(), t, lex_from(chars, self.position as int));
                }
            } else if ch == '"' {
                let t = self.read_string();
                tokens.push(t);
                proof {
                    lemma_toks_push(tokens@.drop_last(), t, lex_from(chars, self.position as int));
                }
            } else if digit(ch) {
                let t = self.read_number();
                tokens.push(t);
                proof {
                    lemma_toks_push(tokens@.drop_last(), t, lex_from(chars, self.position as int));
                }
            } else if alpha(ch) {
                let t = self.read_word();
                tokens.push(t);
                proof {
                    lemma_toks_push(tokens@.drop_last(), t, lex_from(chars, self.position as int));
                }
            } else {
                self.advance();
            }
        }
        proof {
            assert(toks_view(tokens@) + Seq::<TokModel>::empty() =~= toks_view(tokens@));
        }
        tokens
    }

    /// Moves one character on, past a line break onto the next line.
    fn advance(&mut self)
        requires
            old(self).wf(),
            old(self).position < old(self).chars@.len(),
        ensures
            final(self).wf(),
            final(self).chars@ == old(self).chars@,
            final(self).source@ == old(self).source@,
            final(self).position == old(self).position + 1,
    {
        proof {
            lemma_position_step(self.chars@, self.position as int);
            lemma_position_bound(self.chars@.take(self.position as int));
        }
        if self.chars[self.position] == '\n' {
            self.line = self.line + 1;
            self.column = 1;
        } else {
            self.column = self.column + 1;
        }
        self.position = self.position + 1;
    }

    /// Reads characters while they belong to the run `r`, appending them to `text`.
    fn read_run(&mut self, text: &mut String, r: Run)
        requires
            old(self).wf(),
        ensures
            final(self).wf(),
            final(self).chars@ == old(self).chars@,
            final(self).source@ == old(self).source@,
            final(self).position == old(self).position + run_len(
                old(self).chars@,
                old(self).position as int,
                r,
            ),
            final(text)@ == old(text)@ + old(self).chars@.subrange(
                old(self).position as int,
                final(self).position as int,
            ),
    {
        let ghost chars = self.chars@;
        let ghost i = self.position as int;
        proof {
            lemma_run_len_bound(chars, i, r);
        }
        let ghost n = run_len(chars, i, r);
        while self.position < self.chars.len() && self.keeps_at(r)
            invariant
                self.wf(),
                self.chars@ == chars,
                self.source@ == old(self).source@,
                old(self).chars@ == chars,
                old(self).position == i,
                run_facts(chars, i, r),
                n == run_len(chars, i, r),
                i <= self.position <= i + n,
                text@ == old(text)@ + chars.subrange(i, self.position as int),
            decreases chars.len() - self.position,
        {
            push_char(text, self.chars[self.position]);
            self.advance();
            assert(text@ =~= old(text)@ + chars.subrange(i, self.position as int));
        }
    }

    fn keeps_at(&self, r: Run) -> (b: bool)
        requires
            self.wf(),
            self.position < self.chars@.len(),
        ensures
            b == keeps(r, self.chars@[self.position as int]),
    {
        let c = self.chars[self.position];
        match r {
            Run::StringBody => c != '"',
            Run::NumberBody => digit(c) || c == '.',
            Run::WordBody => alnum(c) || c == '?',
            Run::LineBody => c != '\n',
        }
    }

    /// Reads a string literal; an unclosed one runs to the end of input.
    fn read_string(&mut self) -> (t: Token)
        requires
            old(self).wf(),
            old(self).position < old(self).chars@.len(),
            old(self).chars@[old(self).position as int] == '"',
        ensures
            final(self).wf(),
            final(self).chars@ == old(self).chars@,
            final(self).source@ == old(self).source@,
            ({
                let (chars, i) = (old(self).chars@, old(self).position as int);
                let n = run_len(chars, i + 1, Run::StringBody);
                &&& final(self).position == if i + 1 + n < chars.len() {
                    i + 2 + n
                } else {
                    i + 1 + n
                }
                &&& tok_view(t) == token_at(
                    chars,
                    KindModel::StringLiteral(chars.subrange(i + 1, i + 1 + n)),
                    i,
                )
            }),
    {
        let line = self.line;
        let column = self.column;
        let mut result = String::new();
        self.advance();
        self.read_run(&mut result, Run::StringBody);
        if self.position < self.chars.len() {
            self.advance();
        }
        Token::new(TokenKind::StringLiteral(result), line, column)
    }

    /// Reads a number literal: digits and dots, kept as written.
    fn read_number(&mut self) -> (t: Token)
        requires
            old(self).wf(),
            old(self).position < old(self).chars@.len(),
        ensures
            final(self).wf(),
            final(self).chars@ == old(self).chars@,
            final(self).source@ == old(self).source@,
            ({
                let (chars, i) = (old(self).chars@, old(self).position as int);
                let n = run_len(chars, i, Run::NumberBody);
                &&& final(self).position == i + n
                &&& tok_view(t) == token_at(chars, KindModel::Number(chars.subrange(i, i + n)), i)
            }),
    {
        let line = self.line;
        let column = self.column;
        let mut result = String::new();
        let ghost i = self.position as int;
        self.read_run(&mut result, Run::NumberBody);
        assert(result@ =~= self.chars@.subrange(i, self.position as int));
        Token::new(TokenKind::Number(result), line, column)
    }

    /// Whether the characters under the cursor spell `word`, ignoring case.
    fn word_matches(&self, word: &str) -> (r: bool)
        requires
            self.wf(),
        ensures
            r == word_at(self.chars@, self.position as int, word@),
    {
        let n = word.unicode_len();
        if n > self.chars.len() - self.position {
            return false;
        }
        let mut k: usize = 0;
        while k < n
            invariant
                self.wf(),
                n == word@.len(),
                self.position + n <= self.chars@.len(),
                k <= n,
                forall|j: int| 0 <= j < k ==> upper_code(#[trigger] self.chars@[self.position + j]) == word@[j] as u32,
            decreases n - k,
        {
            if upper(self.chars[self.position + k]) != word.get_char(k) as u32 {
                return false;
            }
            k = k + 1;
        }
        true
    }

    /// Whether `word` is under the cursor and not followed by a letter or digit.
    fn peek_word_matches(&self, word: &str) -> (r: bool)
        requires
            self.wf(),
        ensures
            r == marker_at(self.chars@, self.position as int, word@),
    {
        if !self.word_matches(word) {
            return false;
        }
        let end = self.position + word.unicode_len();
        if end < self.chars.len() {
            !alnum(self.chars[end])
        } else {
            true
        }
    }

    /// Whether `TLDR` is under the cursor and not followed by a letter or digit.
    fn peek_word_uppercase_is_tldr(&self) -> (r: bool)
        requires
            self.wf(),
        ensures
            r == tldr_at(self.chars@, self.position as int),
    {
        proof {
            reveal_strlit("TLDR");
        }
        if !self.word_matches("TLDR") {
            return false;
        }
        let end = self.position + 4;
        if end < self.chars.len() {
            !alnum(self.chars[end])
        } else {
            true
        }
    }

    /// Reads a word under the cursor, which starts with a letter: a comment, a
    /// keyword or an identifier.
    fn read_word(&mut self) -> (t: Token)
        requires
            old(self).wf(),
            old(self).position < old(self).chars@.len(),
            is_alpha(old(self).chars@[old(self).position as int]),
        ensures
            final(self).wf(),
            final(self).chars@ == old(self).chars@,
            final(self).source@ == old(self).source@,
            ({
                let (chars, i) = (old(self).chars@, old(self).position as int);
                &&& final(self).position == word_token(chars, i).1
                &&& tok_view(t) == token_at(chars, word_token(chars, i).0, i)
            }),
    {
        let line = self.line;
        let column = self.column;
        let ghost i = self.position as int;
        proof {
            reveal_strlit("BTW");
            reveal_strlit("OBTW");
        }
        if self.peek_word_matches("BTW") {
            self.advance();
            self.advance();
            self.advance();
            return self.read_comment(line, column);
        }
        if self.peek_word_matches("OBTW") {
            self.advance();
            self.advance();
            self.advance();
            self.advance();
            return self.read_multiline_comment(line, column);
        }
        let mut result = String::new();
        self.read_run(&mut result, Run::WordBody);
        assert(result@ =~= self.chars@.subrange(i, self.position as int));
        let kind = if Token::is_keyword(result.as_str()) {
            TokenKind::Keyword(result)
        } else {
            TokenKind::Identifier(result)
        };
        Token::new(kind, line, column)
    }

    /// Reads a single-line comment to the end of the line.
    fn read_comment(&mut self, line: usize, column: usize) -> (t: Token)
        requires
            old(self).wf(),
        ensures
            final(self).wf(),
            final(self).chars@ == old(self).chars@,
            final(self).source@ == old(self).source@,
            ({
                let (chars, i) = (old(self).chars@, old(self).position as int);
                let n = run_len(chars, i, Run::LineBody);
                &&& final(self).position == i + n
                &&& t.kind == TokenKind::Comment(t.kind->Comment_0)
                &&& t.kind->Comment_0@ == chars.subrange(i, i + n)
                &&& t.line == line
                &&& t.column == column
            }),
    {
        let mut result = String::new();
        let ghost i = self.position as int;
        self.read_run(&mut result, Run::LineBody);
        assert(result@ =~= self.chars@.subrange(i, self.position as int));
        Token::new(TokenKind::Comment(result), line, column)
    }

    /// Reads a multi-line comment through `TLDR`, or to the end of input.
    fn read_multiline_comment(&mut self, line: usize, column: usize) -> (t: Token)
        requires
            old(self).wf(),
        ensures
            final(self).wf(),
            final(self).chars@ == old(self).chars@,
            final(self).source@ == old(self).source@,
            ({
                let (chars, i) = (old(self).chars@, old(self).position as int);
                let n = until_tldr(chars, i);
                &&& final(self).position == if i + n < chars.len() {
                    i + 4 + n
                } else {
                    i + n
                }
                &&& t.kind == TokenKind::Comment(t.kind->Comment_0)
                &&& t.kind->Comment_0@ == chars.subrange(i, i + n)
                &&& t.line == line
                &&& t.column == column
            }),
    {
        let ghost chars = self.chars@;
        let ghost i = self.position as int;
        proof {
            lemma_until_tldr(chars, i);
        }
        let ghost n = until_tldr(chars, i);
        let mut content = String::new();
        while self.position < self.chars.len() && !self.peek_word_uppercase_is_tldr()
            invariant
                self.wf(),
                self.chars@ == chars,
                self.source@ == old(self).source@,
                old(self).chars@ == chars,
                old(self).position == i,
                n == until_tldr(chars, i),
                i + n <= chars.len(),
                i + n < chars.len() ==> tldr_at(chars, i + n),
                forall|k: int| i <= k < i + n ==> !tldr_at(chars, k),
                i <= self.position <= i + n,
                content@ == chars.subrange(i, self.position as int),
            decreases chars.len() - self.position,
        {
            push_char(&mut content, self.chars[self.position]);
            self.advance();
            assert(content@ =~= chars.subrange(i, self.position as int));
        }
        if self.position < self.chars.len() {
            proof {
                reveal_strlit("TLDR");
            }
            self.advance();
            self.advance();
            self.advance();
            self.advance();
        }
        Token::new(TokenKind::Comment(content), line, column)
    }
}

proof fn lemma_toks_push(v: Seq<Token>, t: Token, rest: Seq<TokModel>)
    ensures
        toks_view(v) + (seq![tok_view(t)] + rest) == toks_view(v.push(t)) + rest,
{
    assert(toks_view(v.push(t)) =~= toks_view(v).push(tok_view(t)));
    assert(toks_view(v) + (seq![tok_view(t)] + rest) =~= toks_view(v).push(tok_view(t)) + rest);
}

// ---------------------------------------------------------------------------
// Token texts as slices of the source.
// ---------------------------------------------------------------------------

/// The text that a token carries from the source: a keyword, identifier, number or
/// string literal (line breaks and comments carry none).
pub open spec fn significant_text(k: KindModel) -> Option<Seq<char>> {
    match k {
        KindModel::Keyword(w) => Some(w),
        KindModel::Identifier(w) => Some(w),
        KindModel::Number(w) => Some(w),
        KindModel::StringLiteral(w) => Some(w),
        _ => None,
    }
}

/// The texts of the significant tokens, in order.
pub open spec fn significant_texts(toks: Seq<TokModel>) -> Seq<Seq<char>>
    decreases toks.len(),
{
    if toks.len() == 0 {
        Seq::empty()
    } else {
        match significant_text(toks[0].kind) {
            Some(w) => seq![w] + significant_texts(toks.drop_first()),
            None => significant_texts(toks.drop_first()),
        }
    }
}

/// Each of `texts` stands in `chars` at the matching index of `starts`, and each
/// ends at or before the next one starts.
pub open spec fn slices_in_order(chars: Seq<char>, texts: Seq<Seq<char>>, starts: Seq<int>) -> bool {
    &&& starts.len() == texts.len()
    &&& forall|k: int|
        0 <= k < texts.len() ==> {
            &&& 0 <= #[trigger] starts[k]
            &&& starts[k] + texts[k].len() <= chars.len()
            &&& chars.subrange(starts[k], starts[k] + texts[k].len()) == texts[k]
        }
    &&& forall|k: int|
        0 <= k < texts.len() - 1 ==> #[trigger] starts[k] + texts[k].len() <= starts[k + 1]
}

proof fn lemma_texts_cons(t: TokModel, rest: Seq<TokModel>)
    ensures
        significant_texts(seq![t] + rest) == match significant_text(t.kind) {
            Some(w) => seq![w] + significant_texts(rest),
            None => significant_texts(rest),
        },
{
    assert((seq![t] + rest).drop_first() =~= rest);
}

proof fn lemma_slices_cons(
    chars: Seq<char>,
    w: Seq<char>,
    a: int,
    texts: Seq<Seq<char>>,
    starts: Seq<int>,
    from: int,
)
    requires
        0 <= a,
        a + w.len() <= from,
        a + w.len() <= chars.len(),
        chars.subrange(a, a + w.len()) == w,
        slices_in_order(chars, texts, starts),
        forall|k: int| 0 <= k < starts.len() ==> from <= #[trigger] starts[k],
    ensures
        slices_in_order(chars, seq![w] + texts, seq![a] + starts),
{
    let t2 = seq![w] + texts;
    let s2 = seq![a] + starts;
    assert forall|k: int| 0 <= k < t2.len() implies {
        &&& 0 <= #[trigger] s2[k]
        &&& s2[k] + t2[k].len() <= chars.len()
        &&& chars.subrange(s2[k], s2[k] + t2[k].len()) == t2[k]
    } by {
        if k > 0 {
            assert(s2[k] == starts[k - 1]);
            assert(t2[k] == texts[k - 1]);
        }
    }
    assert forall|k: int| 0 <= k < t2.len() - 1 implies #[trigger] s2[k] + t2[k].len() <= s2[k + 1] by {
        if k > 0 {
            assert(s2[k] == starts[k - 1]);
            assert(s2[k + 1] == starts[k]);
        }
    }
}

/// The texts of the significant tokens from index `i` stand in the source in
/// order, at places from `i` on.
#[verifier::spinoff_prover]
#[verifier::rlimit(100)]
pub proof fn lemma_lex_slices(chars: Seq<char>, i: int) -> (starts: Seq<int>)
    requires
        0 <= i,
    ensures
        slices_in_order(chars, significant_texts(lex_from(chars, i)), starts),
        forall|k: int| 0 <= k < starts.len() ==> i <= #[trigger] starts[k],
    decreases chars.len() - i,
{
    if !(i < chars.len()) {
        assert(lex_from(chars, i) =~= Seq::<TokModel>::empty());
        Seq::empty()
    } else {
        let c = chars[i];
        lemma_run_len_bound(chars, i + 1, Run::StringBody);
        lemma_run_len_bound(chars, i, Run::NumberBody);
        if c == '\n' {
            let rest = lemma_lex_slices(chars, i + 1);
            lemma_texts_cons(token_at(chars, KindModel::Newline, i + 1), lex_from(chars, i + 1));
            rest
        } else if c == '"' {
            let n = run_len(chars, i + 1, Run::StringBody);
            let end = if i + 1 + n < chars.len() {
                i + 2 + n
            } else {
                i + 1 + n
            };
            let w = chars.subrange(i + 1, i + 1 + n);
            let rest = lemma_lex_slices(chars, end);
            lemma_texts_cons(token_at(chars, KindModel::StringLiteral(w), i), lex_from(chars, end));
            lemma_slices_cons(chars, w, i + 1, significant_texts(lex_from(chars, end)), rest, end);
            seq![i + 1] + rest
        } else if is_digit(c) {
            let n = run_len(chars, i, Run::NumberBody);
            let w = chars.subrange(i, i + n);
            let rest = lemma_lex_slices(chars, i + n);
            lemma_texts_cons(token_at(chars, KindModel::Number(w), i), lex_from(chars, i + n));
            lemma_slices_cons(chars, w, i, significant_texts(lex_from(chars, i + n)), rest, i + n);
            seq![i] + rest
        } else if is_alpha(c) {
            lemma_word_token_end(chars, i);
            let (k, end) = word_token(chars, i);
            let rest = lemma_lex_slices(chars, end);
            lemma_texts_cons(token_at(chars, k, i), lex_from(chars, end));
            match significant_text(k) {
                Some(w) => {
                    lemma_run_len_bound(chars, i, Run::WordBody);
                    lemma_slices_cons(chars, w, i, significant_texts(lex_from(chars, end)), rest, end);
                    seq![i] + rest
                },
                None => rest,
            }
        } else {
            lemma_lex_slices(chars, i + 1)
        }
    }
}

/// Lexing drops, repeats and reorders no lexeme: the texts of the keyword,
/// identifier, number and string-literal tokens stand in the source, in order, at
/// places that do not overlap.
pub proof fn lemma_lexemes_in_order(source: Seq<char>)
    ensures
        exists|starts: Seq<int>| slices_in_order(source, significant_texts(lex(source)), starts),
{
    let starts = lemma_lex_slices(source, 0);
    assert(slices_in_order(source, significant_texts(lex(source)), starts));
}

/// Where a token's text starts within its span: past the opening quote of a
/// string literal, else at the span's start.
pub open spec fn text_start(k: KindModel, span: (int, int)) -> int {
    if k is StringLiteral {
        span.0 + 1
    } else {
        span.0
    }
}

/// A significant token's text is the slice of its span from `text_start`.
pub open spec fn text_in_span(chars: Seq<char>, k: KindModel, span: (int, int)) -> bool {
    match significant_text(k) {
        Some(w) => {
            &&& text_start(k, span) + w.len() <= span.1
            &&& chars.subrange(text_start(k, span), text_start(k, span) + w.len()) == w
        },
        None => true,
    }
}

/// Index `j` lies in one of the spans.
pub open spec fn covered(spans: Seq<(int, int)>, j: int) -> bool {
    exists|k: int| 0 <= k < spans.len() && #[trigger] spans[k].0 <= j < spans[k].1
}

/// Token `k` of `toks` occupies `spans[k]` of the source, from `i` on; the spans are
/// in order and do not overlap, each holds its token's text, and every letter or
/// digit from `i` on lies in one of them.
pub open spec fn spans_cover(
    chars: Seq<char>,
    i: int,
    toks: Seq<TokModel>,
    spans: Seq<(int, int)>,
) -> bool {
    &&& spans.len() == toks.len()
    &&& forall|k: int| 0 <= k < spans.len() ==> i <= #[trigger] spans[k].0 < spans[k].1 <= chars.len()
    &&& forall|k: int| 0 <= k < spans.len() - 1 ==> #[trigger] spans[k].1 <= spans[k + 1].0
    &&& forall|k: int| 0 <= k < spans.len() ==> text_in_span(chars, toks[k].kind, #[trigger] spans[k])
    &&& forall|j: int| i <= j < chars.len() && is_alnum(chars[j]) ==> #[trigger] covered(spans, j)
}

proof fn lemma_spans_cons(
    chars: Seq<char>,
    i: int,
    end: int,
    t: TokModel,
    toks: Seq<TokModel>,
    spans: Seq<(int, int)>,
)
    requires
        0 <= i < end <= chars.len(),
        text_in_span(chars, t.kind, (i, end)),
        spans_cover(chars, end, toks, spans),
    ensures
        spans_cover(chars, i, seq![t] + toks, seq![(i, end)] + spans),
{
    let t2 = seq![t] + toks;
    let s2 = seq![(i, end)] + spans;
    assert forall|k: int| 0 <= k < s2.len() implies i <= #[trigger] s2[k].0 < s2[k].1 <= chars.len() by {
        if k > 0 {
            assert(s2[k] == spans[k - 1]);
        }
    }
    assert forall|k: int| 0 <= k < s2.len() - 1 implies #[trigger] s2[k].1 <= s2[k + 1].0 by {
        if k > 0 {
            assert(s2[k] == spans[k - 1]);
        }
        assert(s2[k + 1] == spans[k]);
    }
    assert forall|k: int| 0 <= k < s2.len() implies text_in_span(chars, t2[k].kind, #[trigger] s2[k]) by {
        if k > 0 {
            assert(s2[k] == spans[k - 1]);
            assert(t2[k] == toks[k - 1]);
        }
    }
    assert forall|j: int| i <= j < chars.len() && is_alnum(chars[j]) implies #[trigger] covered(s2, j) by {
        if j < end {
            assert(s2[0].0 <= j < s2[0].1);
        } else {
            assert(covered(spans, j));
            let k = choose|k: int| 0 <= k < spans.len() && #[trigger] spans[k].0 <= j < spans[k].1;
            assert(s2[k + 1] == spans[k]);
        }
    }
}

proof fn lemma_spans_skip(chars: Seq<char>, i: int, toks: Seq<TokModel>, spans: Seq<(int, int)>)
    requires
        0 <= i < chars.len(),
        !is_alnum(chars[i]),
        spans_cover(chars, i + 1, toks, spans),
    ensures
        spans_cover(chars, i, toks, spans),
{
    assert forall|j: int| i <= j < chars.len() && is_alnum(chars[j]) implies #[trigger] covered(spans, j) by {
        assert(j != i);
    }
}

/// The spans of the tokens from index `i`.
#[verifier::spinoff_prover]
#[verifier::rlimit(100)]
pub proof fn lemma_lex_spans(chars: Seq<char>, i: int) -> (spans: Seq<(int, int)>)
    requires
        0 <= i,
    ensures
        spans_cover(chars, i, lex_from(chars, i), spans),
    decreases chars.len() - i,
{
    if !(i < chars.len()) {
        assert(lex_from(chars, i) =~= Seq::<TokModel>::empty());
        let e = Seq::<(int, int)>::empty();
        assert(spans_cover(chars, i, lex_from(chars, i), e));
        e
    } else {
        let c = chars[i];
        lemma_run_len_bound(chars, i + 1, Run::StringBody);
        lemma_run_len_bound(chars, i, Run::NumberBody);
        if c == '\n' {
            let rest = lemma_lex_spans(chars, i + 1);
            lemma_spans_cons(
                chars,
                i,
                i + 1,
                token_at(chars, KindModel::Newline, i + 1),
                lex_from(chars, i + 1),
                rest,
            );
            seq![(i, i + 1)] + rest
        } else if c == '"' {
            let n = run_len(chars, i + 1, Run::StringBody);
            let end = if i + 1 + n < chars.len() {
                i + 2 + n
            } else {
                i + 1 + n
            };
            let rest = lemma_lex_spans(chars, end);
            let t = token_at(chars, KindModel::StringLiteral(chars.subrange(i + 1, i + 1 + n)), i);
            lemma_spans_cons(chars, i, end, t, lex_from(chars, end), rest);
            seq![(i, end)] + rest
        } else if is_digit(c) {
            let n = run_len(chars, i, Run::NumberBody);
            let rest = lemma_lex_spans(chars, i + n);
            let t = token_at(chars, KindModel::Number(chars.subrange(i, i + n)), i);
            lemma_spans_cons(chars, i, i + n, t, lex_from(chars, i + n), rest);
            seq![(i, i + n)] + rest
        } else if is_alpha(c) {
            lemma_word_token_end(chars, i);
            lemma_run_len_bound(chars, i, Run::WordBody);
            let (k, end) = word_token(chars, i);
            let rest = lemma_lex_spans(chars, end);
            lemma_spans_cons(chars, i, end, token_at(chars, k, i), lex_from(chars, end), rest);
            seq![(i, end)] + rest
        } else {
            let rest = lemma_lex_spans(chars, i + 1);
            lemma_spans_skip(chars, i, lex_from(chars, i + 1), rest);
            rest
        }
    }
}

/// Every letter and digit of the source falls in the span of exactly one token
/// (the spans are in order and do not overlap), and each keyword, identifier,
/// number or string-literal token's text is the slice of its own span.
pub proof fn lemma_lexemes_complete(source: Seq<char>)
    ensures
        exists|spans: Seq<(int, int)>| spans_cover(source, 0, lex(source), spans),
{
    let spans = lemma_lex_spans(source, 0);
    assert(spans_cover(source, 0, lex(source), spans));
}

/// The texts joined end to end.
pub open spec fn joined(ts: Seq<Seq<char>>) -> Seq<char>
    decreases ts.len(),
{
    if ts.len() == 0 {
        Seq::empty()
    } else {
        ts[0] + joined(ts.drop_first())
    }
}

/// The source from `i` with its double quotes dropped, and its spaces and line
/// breaks dropped outside string literals.
pub open spec fn squeezed(chars: Seq<char>, i: int) -> Seq<char>
    decreases chars.len() - i,
    via squeezed_decreases
{
    if !(0 <= i < chars.len()) {
        Seq::empty()
    } else if chars[i] == '"' {
        let n = run_len(chars, i + 1, Run::StringBody);
        let end = if i + 1 + n < chars.len() {
            i + 2 + n
        } else {
            i + 1 + n
        };
        chars.subrange(i + 1, i + 1 + n) + squeezed(chars, end)
    } else if chars[i] == ' ' || chars[i] == '\n' {
        squeezed(chars, i + 1)
    } else {
        seq![chars[i]] + squeezed(chars, i + 1)
    }
}

#[via_fn]
proof fn squeezed_decreases(chars: Seq<char>, i: int) {
    if 0 <= i < chars.len() {
        lemma_run_len_bound(chars, i + 1, Run::StringBody);
    }
}

/// A source of ASCII letters, digits, spaces, line breaks and double quotes, in
/// which `BTW` occurs nowhere, in any case: it holds no comment.
pub open spec fn plain_source(chars: Seq<char>) -> bool {
    &&& forall|j: int|
        0 <= j < chars.len() ==> is_alnum(#[trigger] chars[j]) || chars[j] == ' ' || chars[j]
            == '\n' || chars[j] == '"'
    &&& forall|j: int| 0 <= j ==> !#[trigger] word_at(chars, j, "BTW"@)
}

proof fn lemma_squeezed_run(chars: Seq<char>, i: int, e: int)
    requires
        0 <= i <= e <= chars.len(),
        forall|k: int| i <= k < e ==> is_alnum(#[trigger] chars[k]),
    ensures
        squeezed(chars, i) == chars.subrange(i, e) + squeezed(chars, e),
    decreases e - i,
{
    if i < e {
        assert(is_alnum(chars[i]));
        lemma_squeezed_run(chars, i + 1, e);
        assert(chars.subrange(i, e) =~= seq![chars[i]] + chars.subrange(i + 1, e));
    } else {
        assert(chars.subrange(i, e) =~= Seq::<char>::empty());
    }
}

proof fn lemma_joined_cons(w: Option<Seq<char>>, t: TokModel, rest: Seq<TokModel>)
    requires
        w == significant_text(t.kind),
    ensures
        joined(significant_texts(seq![t] + rest)) == match w {
            Some(x) => x + joined(significant_texts(rest)),
            None => joined(significant_texts(rest)),
        },
{
    lemma_texts_cons(t, rest);
    if let Some(x) = w {
        assert((seq![x] + significant_texts(rest)).drop_first() =~= significant_texts(rest));
    }
}

#[verifier::spinoff_prover]
#[verifier::rlimit(100)]
proof fn lemma_joined_from(chars: Seq<char>, i: int)
    requires
        0 <= i,
        plain_source(chars),
    ensures
        joined(significant_texts(lex_from(chars, i))) == squeezed(chars, i),
    decreases chars.len() - i,
{
    reveal_strlit("BTW");
    reveal_strlit("OBTW");
    if i >= chars.len() {
        assert(lex_from(chars, i) =~= Seq::<TokModel>::empty());
    } else {
        let c = chars[i];
        lemma_run_len_bound(chars, i + 1, Run::StringBody);
        lemma_run_len_bound(chars, i, Run::NumberBody);
        lemma_run_len_bound(chars, i, Run::WordBody);
        if c == '\n' {
            lemma_joined_from(chars, i + 1);
            let t = token_at(chars, KindModel::Newline, i + 1);
            lemma_joined_cons(None, t, lex_from(chars, i + 1));
        } else if c == '"' {
            let n = run_len(chars, i + 1, Run::StringBody);
            let end = if i + 1 + n < chars.len() {
                i + 2 + n
            } else {
                i + 1 + n
            };
            let w = chars.subrange(i + 1, i + 1 + n);
            lemma_joined_from(chars, end);
            lemma_joined_cons(Some(w), token_at(chars, KindModel::StringLiteral(w), i), lex_from(chars, end));
        } else if is_digit(c) {
            let n = run_len(chars, i, Run::NumberBody);
            let w = chars.subrange(i, i + n);
            assert forall|k: int| i <= k < i + n implies is_alnum(#[trigger] chars[k]) by {
                assert(keeps(Run::NumberBody, chars[k]));
            }
            lemma_squeezed_run(chars, i, i + n);
            lemma_joined_from(chars, i + n);
            lemma_joined_cons(Some(w), token_at(chars, KindModel::Number(w), i), lex_from(chars, i + n));
        } else if is_alpha(c) {
            assert(!word_at(chars, i, "BTW"@));
            assert(!word_at(chars, i + 1, "BTW"@));
            if word_at(chars, i, "OBTW"@) {
                assert forall|k: int| 0 <= k < 3 implies upper_code(#[trigger] chars[i + 1 + k])
                    == "BTW"@[k] as u32 by {
                    assert(upper_code(chars[i + (k + 1)]) == "OBTW"@[k + 1] as u32);
                }
                assert(word_at(chars, i + 1, "BTW"@));
            }
            let n = run_len(chars, i, Run::WordBody);
            let w = chars.subrange(i, i + n);
            assert forall|k: int| i <= k < i + n implies is_alnum(#[trigger] chars[k]) by {
                assert(keeps(Run::WordBody, chars[k]));
            }
            lemma_squeezed_run(chars, i, i + n);
            lemma_joined_from(chars, i + n);
            let (k, end) = word_token(chars, i);
            assert(end == i + n);
            assert(significant_text(k) == Some(w));
            lemma_joined_cons(Some(w), token_at(chars, k, i), lex_from(chars, i + n));
        } else {
            lemma_joined_from(chars, i + 1);
        }
    }
}

/// On a source without comments whose characters are letters, digits, spaces,
/// line breaks and double quotes, the texts of the keyword, identifier, number and
/// string-literal tokens, joined in order, give back the source with its quotes
/// dropped and its spaces and line breaks outside string literals dropped.
pub proof fn lemma_lexemes_round_trip(source: Seq<char>)
    requires
        plain_source(source),
    ensures
        joined(significant_texts(lex(source))) == squeezed(source, 0),
{
    lemma_joined_from(source, 0);
}

} // verus!
