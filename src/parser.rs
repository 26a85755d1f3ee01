use vstd::prelude::*;
use vstd::string::*;
use crate::ast::{
    lemma_block_view, stmt_view, stmts_view, views_of, Block, Expression, Position, Program, ProgramModel, Statement,
    StmtModel,
};
use crate::types::{kind_text, str_eq, Token, TokenKind};

verus! {

/// A fatal parse failure: what was wrong, and where.
#[derive(Debug)]
pub struct ParseError {
    pub message: String,
    pub line: usize,
    pub column: usize,
}

/// The mathematical form of a parse failure.
pub struct Failure {
    pub message: Seq<char>,
    pub line: int,
    pub column: int,
}

impl View for ParseError {
    type V = Failure;

    open spec fn view(&self) -> Failure {
        Failure { message: self.message@, line: self.line as int, column: self.column as int }
    }
}

// ---------------------------------------------------------------------------
// The grammar, over a token sequence and an index into it.
// ---------------------------------------------------------------------------

pub open spec fn pos_of(t: Token) -> Position {
    Position { line: t.line, column: t.column }
}

/// Token `i` is the keyword `w`.
pub open spec fn kw_at(toks: Seq<Token>, i: int, w: Seq<char>) -> bool {
    0 <= i < toks.len() && match toks[i].kind {
        TokenKind::Keyword(k) => k@ == w,
        _ => false,
    }
}

/// Token `i` is the identifier `w`.
pub open spec fn ident_at(toks: Seq<Token>, i: int, w: Seq<char>) -> bool {
    0 <= i < toks.len() && match toks[i].kind {
        TokenKind::Identifier(k) => k@ == w,
        _ => false,
    }
}

pub open spec fn newline_at(toks: Seq<Token>, i: int) -> bool {
    0 <= i < toks.len() && toks[i].kind is Newline
}

/// Token `i` carries no statement: a line break or a comment.
pub open spec fn filler_at(toks: Seq<Token>, i: int) -> bool {
    0 <= i < toks.len() && (toks[i].kind is Newline || toks[i].kind is Comment)
}

/// A statement may end before token `i`: it is a line break, or input is over.
pub open spec fn stmt_end_at(toks: Seq<Token>, i: int) -> bool {
    i >= toks.len() || newline_at(toks, i)
}

/// The failure `msg` at token `i`; past the last token it is at line 0, column 0,
/// and the message says so.
pub open spec fn fail_at(toks: Seq<Token>, i: int, msg: Seq<char>) -> Failure {
    if 0 <= i < toks.len() {
        Failure { message: msg, line: toks[i].line as int, column: toks[i].column as int }
    } else {
        Failure { message: msg + " (at end of file)"@, line: 0, column: 0 }
    }
}

/// The failure at token `i`, whose message ends with `sep` and the token found.
pub open spec fn fail_with_token(toks: Seq<Token>, i: int, msg: Seq<char>, sep: Seq<char>) -> Failure {
    fail_at(toks, i, msg + sep + kind_text(toks[i].kind))
}

/// The message when the keyword `w` was expected at token `i`.
pub open spec fn expected_msg(toks: Seq<Token>, i: int, w: Seq<char>) -> Seq<char> {
    if 0 <= i < toks.len() {
        "Expected '"@ + w + "', but found "@ + kind_text(toks[i].kind)
    } else {
        "Expected '"@ + w + "', but reached end of file"@
    }
}

/// The failure when input ends before `KTHXBYE`.
pub open spec fn missing_end_msg() -> Seq<char> {
    "Expected 'KTHXBYE' at end of program"@
}

/// Consumes the keyword `w` at token `i`.
pub open spec fn expect_at(toks: Seq<Token>, i: int, w: Seq<char>) -> Result<int, Failure> {
    if kw_at(toks, i, w) {
        Ok(i + 1)
    } else {
        Err(fail_at(toks, i, expected_msg(toks, i, w)))
    }
}

/// The prefix keywords of the binary operators.
pub open spec fn binary_op_word(w: Seq<char>) -> bool {
    w == "SUM"@ || w == "DIFF"@ || w == "PRODUKT"@ || w == "QUOSHUNT"@ || w == "MOD"@ || w
        == "BOTH"@ || w == "DIFFRINT"@
}

pub open spec fn binary_expr(
    op: Seq<char>,
    left: Expression,
    right: Expression,
    pos: Position,
) -> Expression {
    let (left, right) = (Box::new(left), Box::new(right));
    if op == "SUM"@ {
        Expression::Sum { left, right, pos }
    } else if op == "DIFF"@ {
        Expression::Diff { left, right, pos }
    } else if op == "PRODUKT"@ {
        Expression::Produkt { left, right, pos }
    } else if op == "QUOSHUNT"@ {
        Expression::Quoshunt { left, right, pos }
    } else if op == "MOD"@ {
        Expression::Mod { left, right, pos }
    } else if op == "BOTH"@ {
        Expression::BothSaem { left, right, pos }
    } else {
        Expression::Diffrint { left, right, pos }
    }
}

/// Where the first operand of operator `op` at token `i` starts: after `OF` for
/// arithmetic, after `SAEM` for `BOTH`, right away for `DIFFRINT`.
pub open spec fn operand_start(toks: Seq<Token>, i: int, op: Seq<char>) -> Result<int, Failure> {
    if op == "DIFFRINT"@ {
        Ok(i + 1)
    } else if op == "BOTH"@ {
        expect_at(toks, i + 1, "SAEM"@)
    } else {
        expect_at(toks, i + 1, "OF"@)
    }
}

pub open spec fn no_progress(toks: Seq<Token>, i: int) -> Failure {
    fail_at(toks, i, "Parse made no progress"@)
}

/// The expression that starts at token `i`, and the index just past it.
pub open spec fn expr_at(toks: Seq<Token>, i: int) -> Result<(Expression, int), Failure>
    decreases toks.len() - i,
{
    if !(0 <= i < toks.len()) {
        Err(Failure { message: "unexpected EOF in expression"@, line: 0, column: 0 })
    } else {
        let p = pos_of(toks[i]);
        match toks[i].kind {
            TokenKind::Number(n) => Ok((Expression::Number(n, p), i + 1)),
            TokenKind::StringLiteral(s) => Ok((Expression::String(s, p), i + 1)),
            TokenKind::Identifier(x) => Ok((Expression::Identifier(x, p), i + 1)),
            TokenKind::Keyword(k) => if !binary_op_word(k@) {
                Err(fail_with_token(toks, i, "Unexpected token in expression"@, ": "@))
            } else {
                match operand_start(toks, i, k@) {
                    Err(f) => Err(f),
                    Ok(j) => match expr_at(toks, j) {
                        Err(f) => Err(f),
                        Ok((l, j2)) => if j2 <= i {
                            Err(no_progress(toks, i))
                        } else {
                            match expect_at(toks, j2, "AN"@) {
                                Err(f) => Err(f),
                                Ok(j3) => match expr_at(toks, j3) {
                                    Err(f) => Err(f),
                                    Ok((r, j4)) => Ok((binary_expr(k@, l, r, p), j4)),
                                },
                            }
                        },
                    },
                }
            },
            _ => Err(fail_with_token(toks, i, "Unexpected token in expression"@, ": "@)),
        }
    }
}

/// The expressions of a `VISIBLE` statement from token `i` to the end of the line.
pub open spec fn visible_rest(toks: Seq<Token>, i: int) -> Result<(Seq<Expression>, int), Failure>
    decreases toks.len() - i,
{
    if stmt_end_at(toks, i) || i < 0 {
        Ok((Seq::empty(), i))
    } else if toks[i].kind is Comment {
        Err(fail_with_token(toks, i, "Unexpected token after expression in VISIBLE"@, ": "@))
    } else {
        match expr_at(toks, i) {
            Err(f) => Err(f),
            Ok((e, k)) => if k <= i || k > toks.len() {
                Err(no_progress(toks, i))
            } else {
                match visible_rest(toks, k) {
                    Err(f) => Err(f),
                    Ok((es, m)) => Ok((seq![e] + es, m)),
                }
            },
        }
    }
}

/// An expression that must close its statement.
pub open spec fn closing_expr_at(toks: Seq<Token>, i: int, what: Seq<char>) -> Result<
    (Expression, int),
    Failure,
> {
    match expr_at(toks, i) {
        Err(f) => Err(f),
        Ok((e, k)) => if stmt_end_at(toks, k) {
            Ok((e, k))
        } else {
            Err(fail_with_token(toks, k, what, ", found "@))
        },
    }
}

/// A statement, if any, followed by the rest of a block.
pub open spec fn prepend(
    s: Option<StmtModel>,
    rest: Result<(Seq<StmtModel>, int), Failure>,
) -> Result<(Seq<StmtModel>, int), Failure> {
    match rest {
        Err(f) => Err(f),
        Ok((ss, m)) => match s {
            Some(x) => Ok((seq![x] + ss, m)),
            None => Ok((ss, m)),
        },
    }
}

/// Token `i` closes a conditional's branch: `OIC`, and for the `YA RLY` branch also
/// `MEBBE` or `NO WAI` (a bare `NO` does not close it).
pub open spec fn branch_closes(toks: Seq<Token>, i: int, then_branch: bool) -> bool {
    if then_branch {
        (kw_at(toks, i, "NO"@) && kw_at(toks, i + 1, "WAI"@)) || kw_at(toks, i, "OIC"@) || kw_at(
            toks,
            i,
            "MEBBE"@,
        )
    } else {
        kw_at(toks, i, "OIC"@)
    }
}

pub open spec fn loop_opens(toks: Seq<Token>, i: int) -> bool {
    kw_at(toks, i, "IM"@) && kw_at(toks, i + 1, "IN"@) && kw_at(toks, i + 2, "YR"@) && kw_at(
        toks,
        i + 3,
        "LOOP"@,
    )
}

/// `OUTTA` is not in the keyword set, so the closer reads it as an identifier.
pub open spec fn loop_closes(toks: Seq<Token>, i: int) -> bool {
    kw_at(toks, i, "IM"@) && ident_at(toks, i + 1, "OUTTA"@) && kw_at(toks, i + 2, "YR"@)
        && kw_at(toks, i + 3, "LOOP"@)
}

/// The statement at token `i`: `None` where the token starts no statement and is
/// skipped.
pub open spec fn stmt_at(toks: Seq<Token>, i: int) -> Result<(Option<StmtModel>, int), Failure>
    decreases toks.len() - i, 0int,
{
    if !(0 <= i < toks.len()) {
        Ok((None, i))
    } else {
        let p = pos_of(toks[i]);
        if kw_at(toks, i, "O"@) && kw_at(toks, i + 1, "RLY?"@) {
            cond_at(toks, i + 2, p)
        } else if loop_opens(toks, i) {
            match loop_body_at(toks, i + 4) {
                Err(f) => Err(f),
                Ok((b, k)) => Ok((Some(StmtModel::Loop { body: b, pos: p }), k)),
            }
        } else if kw_at(toks, i, "VISIBLE"@) {
            match expr_at(toks, i + 1) {
                Err(f) => Err(f),
                Ok((e, k)) => if k <= i || k > toks.len() {
                    Err(no_progress(toks, i))
                } else {
                    match visible_rest(toks, k) {
                        Err(f) => Err(f),
                        Ok((es, m)) => Ok(
                            (Some(StmtModel::Visible { expressions: seq![e] + es, pos: p }), m),
                        ),
                    }
                },
            }
        } else if kw_at(toks, i, "I"@) {
            match expect_at(toks, i + 1, "HAS"@) {
                Err(f) => Err(f),
                Ok(j) => match expect_at(toks, j, "A"@) {
                    Err(f) => Err(f),
                    Ok(j2) => if 0 <= j2 < toks.len() && toks[j2].kind is Identifier {
                        let name = toks[j2].kind->Identifier_0;
                        if kw_at(toks, j2 + 1, "ITZ"@) {
                            match closing_expr_at(toks, j2 + 2, "Expected newline after expression"@) {
                                Err(f) => Err(f),
                                Ok((e, k)) => Ok(
                                    (
                                        Some(
                                            StmtModel::Declaration { name, value: Some(e), pos: p },
                                        ),
                                        k,
                                    ),
                                ),
                            }
                        } else {
                            Ok((Some(StmtModel::Declaration { name, value: None, pos: p }), j2 + 1))
                        }
                    } else {
                        Err(fail_at(toks, j2, "Expected identifier after I HAS A"@))
                    },
                },
            }
        } else if toks[i].kind is Identifier {
            if kw_at(toks, i + 1, "R"@) {
                match closing_expr_at(toks, i + 2, "Expected newline after expression"@) {
                    Err(f) => Err(f),
                    Ok((e, k)) => Ok(
                        (
                            Some(
                                StmtModel::Assignment {
                                    name: toks[i].kind->Identifier_0,
                                    value: Some(e),
                                    pos: p,
                                },
                            ),
                            k,
                        ),
                    ),
                }
            } else {
                Ok((None, i + 1))
            }
        } else if toks[i].kind is Keyword && binary_op_word(toks[i].kind->Keyword_0@) {
            match closing_expr_at(toks, i, "Expected newline after expression statement"@) {
                Err(f) => Err(f),
                Ok((e, k)) => Ok((Some(StmtModel::ExpressionStatement { expression: e, pos: p }), k)),
            }
        } else {
            Ok((None, i + 1))
        }
    }
}

/// A conditional after its `O RLY?`, from token `i`: line breaks and comments,
/// then `YA RLY`,
/// its branch, an optional `NO WAI` branch, and `OIC`.
pub open spec fn cond_at(toks: Seq<Token>, i: int, p: Position) -> Result<
    (Option<StmtModel>, int),
    Failure,
>
    decreases toks.len() - i, 0int,
{
    if filler_at(toks, i) {
        cond_at(toks, i + 1, p)
    } else if !kw_at(toks, i, "YA"@) {
        Err(fail_at(toks, i, "Expected YA RLY after O RLY?"@))
    } else if !kw_at(toks, i + 1, "RLY"@) {
        Err(fail_at(toks, i, "Expected RLY after YA"@))
    } else {
        match block_at(toks, i + 2, true) {
            Err(f) => Err(f),
            Ok((ya, k)) => if k < i {
                Err(no_progress(toks, i))
            } else if kw_at(toks, k, "NO"@) && kw_at(toks, k + 1, "WAI"@) {
                match block_at(toks, k + 2, false) {
                    Err(f) => Err(f),
                    Ok((nw, m)) => match expect_at(toks, m, "OIC"@) {
                        Err(f) => Err(f),
                        Ok(m2) => Ok(
                            (Some(StmtModel::ORly { ya_rly: ya, no_wai: Some(nw), pos: p }), m2),
                        ),
                    },
                }
            } else {
                match expect_at(toks, k, "OIC"@) {
                    Err(f) => Err(f),
                    Ok(m2) => Ok((Some(StmtModel::ORly { ya_rly: ya, no_wai: None, pos: p }), m2)),
                }
            },
        }
    }
}

/// The statements of a conditional's branch from token `i`, up to (not past) the
/// token that closes it, or to the end of input.
pub open spec fn block_at(toks: Seq<Token>, i: int, then_branch: bool) -> Result<
    (Seq<StmtModel>, int),
    Failure,
>
    decreases toks.len() - i, 1int,
{
    if !(0 <= i < toks.len()) || branch_closes(toks, i, then_branch) {
        Ok((Seq::empty(), i))
    } else if filler_at(toks, i) {
        block_at(toks, i + 1, then_branch)
    } else {
        match stmt_at(toks, i) {
            Err(f) => Err(f),
            Ok((s, k)) => if k <= i || k > toks.len() {
                Err(no_progress(toks, i))
            } else {
                prepend(s, block_at(toks, k, then_branch))
            },
        }
    }
}

/// The statements of a loop body from token `i`, and the index past its closer; at
/// the end of input the body simply ends.
pub open spec fn loop_body_at(toks: Seq<Token>, i: int) -> Result<(Seq<StmtModel>, int), Failure>
    decreases toks.len() - i, 1int,
{
    if !(0 <= i < toks.len()) {
        Ok((Seq::empty(), i))
    } else if loop_closes(toks, i) {
        Ok((Seq::empty(), i + 4))
    } else if filler_at(toks, i) {
        loop_body_at(toks, i + 1)
    } else {
        match stmt_at(toks, i) {
            Err(f) => Err(f),
            Ok((s, k)) => if k <= i || k > toks.len() {
                Err(no_progress(toks, i))
            } else {
                prepend(s, loop_body_at(toks, k))
            },
        }
    }
}

/// The statements of a program's body from token `i`, and the index past `KTHXBYE`;
/// input that ends first is a failure.
pub open spec fn body_at(toks: Seq<Token>, i: int) -> Result<(Seq<StmtModel>, int), Failure>
    decreases toks.len() - i,
{
    if !(0 <= i < toks.len()) {
        Err(fail_at(toks, i, missing_end_msg()))
    } else if kw_at(toks, i, "KTHXBYE"@) {
        Ok((Seq::empty(), i + 1))
    } else if filler_at(toks, i) {
        body_at(toks, i + 1)
    } else {
        match stmt_at(toks, i) {
            Err(f) => Err(f),
            Ok((s, k)) => if k <= i || k > toks.len() {
                Err(no_progress(toks, i))
            } else {
                prepend(s, body_at(toks, k))
            },
        }
    }
}

/// The program that a token sequence spells: `HAI`, an optional version number,
/// then the body.
pub open spec fn program_of(toks: Seq<Token>) -> Result<ProgramModel, Failure> {
    if !kw_at(toks, 0, "HAI"@) {
        Err(fail_at(toks, 0, expected_msg(toks, 0, "HAI"@)))
    } else {
        let has_version = 1 < toks.len() && toks[1].kind is Number;
        let version = if has_version {
            toks[1].kind->Number_0@
        } else {
            "1.2"@
        };
        match body_at(toks, if has_version { 2 } else { 1 }) {
            Err(f) => Err(f),
            Ok((b, _)) => Ok(ProgramModel { version, body: b }),
        }
    }
}


// ---------------------------------------------------------------------------
// Every successful parse consumes input and stays within it, so the
// `no_progress` branches above are never taken.
// ---------------------------------------------------------------------------

pub proof fn lemma_expr_progress(toks: Seq<Token>, i: int)
    ensures
        expr_at(toks, i) matches Ok((_, k)) ==> i < k <= toks.len(),
    decreases toks.len() - i,
{
    if 0 <= i < toks.len() {
        if let TokenKind::Keyword(op) = toks[i].kind {
            if binary_op_word(op@) {
                if let Ok(j) = operand_start(toks, i, op@) {
                    lemma_expr_progress(toks, j);
                    if let Ok((_, j2)) = expr_at(toks, j) {
                        if let Ok(j3) = expect_at(toks, j2, "AN"@) {
                            lemma_expr_progress(toks, j3);
                        }
                    }
                }
            }
        }
    }
}

proof fn lemma_visible_progress(toks: Seq<Token>, i: int)
    requires
        0 <= i <= toks.len(),
    ensures
        visible_rest(toks, i) matches Ok((_, m)) ==> i <= m <= toks.len(),
    decreases toks.len() - i,
{
    if !stmt_end_at(toks, i) {
        lemma_expr_progress(toks, i);
        if let Ok((_, k)) = expr_at(toks, i) {
            lemma_visible_progress(toks, k);
        }
    }
}

proof fn lemma_closing_progress(toks: Seq<Token>, i: int, what: Seq<char>)
    ensures
        closing_expr_at(toks, i, what) matches Ok((_, k)) ==> i < k <= toks.len(),
{
    lemma_expr_progress(toks, i);
}

pub proof fn lemma_stmt_progress(toks: Seq<Token>, i: int)
    requires
        0 <= i < toks.len(),
    ensures
        stmt_at(toks, i) matches Ok((_, k)) ==> i < k <= toks.len(),
    decreases toks.len() - i, 0int,
{
    let p = pos_of(toks[i]);
    if kw_at(toks, i, "O"@) && kw_at(toks, i + 1, "RLY?"@) {
        lemma_cond_progress(toks, i + 2, p);
    } else if loop_opens(toks, i) {
        lemma_loop_progress(toks, i + 4);
    } else if kw_at(toks, i, "VISIBLE"@) {
        lemma_expr_progress(toks, i + 1);
        if let Ok((_, k)) = expr_at(toks, i + 1) {
            lemma_visible_progress(toks, k);
        }
    } else if kw_at(toks, i, "I"@) {
        if let Ok(j) = expect_at(toks, i + 1, "HAS"@) {
            if let Ok(j2) = expect_at(toks, j, "A"@) {
                lemma_closing_progress(toks, j2 + 2, "Expected newline after expression"@);
            }
        }
    } else if toks[i].kind is Identifier {
        lemma_closing_progress(toks, i + 2, "Expected newline after expression"@);
    } else {
        lemma_closing_progress(toks, i, "Expected newline after expression statement"@);
    }
}

proof fn lemma_cond_progress(toks: Seq<Token>, i: int, p: Position)
    requires
        0 <= i <= toks.len(),
    ensures
        cond_at(toks, i, p) matches Ok((_, k)) ==> i < k <= toks.len(),
    decreases toks.len() - i, 0int,
{
    if filler_at(toks, i) {
        lemma_cond_progress(toks, i + 1, p);
    } else if kw_at(toks, i, "YA"@) && kw_at(toks, i + 1, "RLY"@) {
        lemma_block_progress(toks, i + 2, true);
        if let Ok((_, k)) = block_at(toks, i + 2, true) {
            if kw_at(toks, k, "NO"@) && kw_at(toks, k + 1, "WAI"@) {
                lemma_block_progress(toks, k + 2, false);
            }
        }
    }
}

proof fn lemma_block_progress(toks: Seq<Token>, i: int, then_branch: bool)
    requires
        0 <= i <= toks.len(),
    ensures
        block_at(toks, i, then_branch) matches Ok((_, k)) ==> i <= k <= toks.len(),
    decreases toks.len() - i, 1int,
{
    if i < toks.len() && !branch_closes(toks, i, then_branch) {
        if filler_at(toks, i) {
            lemma_block_progress(toks, i + 1, then_branch);
        } else {
            lemma_stmt_progress(toks, i);
            if let Ok((_, k)) = stmt_at(toks, i) {
                lemma_block_progress(toks, k, then_branch);
            }
        }
    }
}

proof fn lemma_loop_progress(toks: Seq<Token>, i: int)
    requires
        0 <= i <= toks.len(),
    ensures
        loop_body_at(toks, i) matches Ok((_, k)) ==> i <= k <= toks.len(),
    decreases toks.len() - i, 1int,
{
    if i < toks.len() && !loop_closes(toks, i) {
        if filler_at(toks, i) {
            lemma_loop_progress(toks, i + 1);
        } else {
            lemma_stmt_progress(toks, i);
            if let Ok((_, k)) = stmt_at(toks, i) {
                lemma_loop_progress(toks, k);
            }
        }
    }
}

/// Some token is the keyword `KTHXBYE`.
pub open spec fn has_closing_keyword(toks: Seq<Token>) -> bool {
    exists|j: int| #[trigger] kw_at(toks, j, "KTHXBYE"@)
}

/// How a body without `KTHXBYE` fails: at the end of input, or where one of its
/// statements fails.
pub open spec fn unclosed_failure(toks: Seq<Token>, f: Failure) -> bool {
    f == fail_at(toks, toks.len() as int, missing_end_msg()) || exists|j: int|
        0 <= j < toks.len() && #[trigger] stmt_at(toks, j) == Err::<(Option<StmtModel>, int), Failure>(
            f,
        )
}

proof fn lemma_body_without_end(toks: Seq<Token>, i: int)
    requires
        0 <= i <= toks.len(),
        !has_closing_keyword(toks),
    ensures
        body_at(toks, i) is Err,
        unclosed_failure(toks, body_at(toks, i)->Err_0),
    decreases toks.len() - i,
{
    if i < toks.len() {
        assert(!kw_at(toks, i, "KTHXBYE"@));
        if filler_at(toks, i) {
            lemma_body_without_end(toks, i + 1);
        } else {
            lemma_stmt_progress(toks, i);
            match stmt_at(toks, i) {
                Ok((_, k)) => {
                    lemma_body_without_end(toks, k);
                },
                Err(f) => {
                    assert(stmt_at(toks, i) == Err::<(Option<StmtModel>, int), Failure>(f));
                },
            }
        }
    }
}

/// A program that opens with `HAI` and lacks `KTHXBYE` never parses to a program:
/// the parse fails at the end of input ("Expected 'KTHXBYE', but found end of input"),
/// unless one of its statements fails first.
pub proof fn lemma_missing_end_fails(toks: Seq<Token>)
    requires
        !has_closing_keyword(toks),
    ensures
        program_of(toks) is Err,
        kw_at(toks, 0, "HAI"@) ==> unclosed_failure(toks, program_of(toks)->Err_0),
{
    if kw_at(toks, 0, "HAI"@) {
        if 1 < toks.len() && toks[1].kind is Number {
            lemma_body_without_end(toks, 2);
        } else {
            lemma_body_without_end(toks, 1);
        }
    }
}

// ---------------------------------------------------------------------------
// Relating executable results to the grammar.
// ---------------------------------------------------------------------------

pub open spec fn stmt_opt_view(o: Option<Statement>) -> Option<StmtModel> {
    match o {
        Some(s) => Some(stmt_view(s)),
        None => None,
    }
}

/// A sequence of statements, followed by what the rest of a block parses to.
pub open spec fn prepend_all(
    pre: Seq<StmtModel>,
    rest: Result<(Seq<StmtModel>, int), Failure>,
) -> Result<(Seq<StmtModel>, int), Failure> {
    match rest {
        Err(f) => Err(f),
        Ok((ss, m)) => Ok((pre + ss, m)),
    }
}

pub open spec fn yields<T>(s: Result<(T, int), Failure>, r: Result<T, ParseError>, end: int) -> bool {
    match r {
        Ok(v) => s == Ok::<(T, int), Failure>((v, end)),
        Err(e) => s == Err::<(T, int), Failure>(e@),
    }
}

pub open spec fn yields_stmt(
    s: Result<(Option<StmtModel>, int), Failure>,
    r: Result<Option<Statement>, ParseError>,
    end: int,
) -> bool {
    match r {
        Ok(o) => s == Ok::<(Option<StmtModel>, int), Failure>((stmt_opt_view(o), end)),
        Err(e) => s == Err::<(Option<StmtModel>, int), Failure>(e@),
    }
}

pub open spec fn yields_block(
    s: Result<(Seq<StmtModel>, int), Failure>,
    r: Result<Block, ParseError>,
    end: int,
) -> bool {
    match r {
        Ok(b) => s == Ok::<(Seq<StmtModel>, int), Failure>((b.view(), end)),
        Err(e) => s == Err::<(Seq<StmtModel>, int), Failure>(e@),
    }
}

proof fn lemma_push_view(v: Seq<Statement>, s: Statement, rest: Result<(Seq<StmtModel>, int), Failure>)
    ensures
        prepend_all(views_of(v), prepend(Some(stmt_view(s)), rest)) == prepend_all(
            views_of(v.push(s)),
            rest,
        ),
{
    assert(views_of(v.push(s)) =~= views_of(v).push(stmt_view(s)));
    match rest {
        Ok((ss, m)) => {
            assert(views_of(v) + (seq![stmt_view(s)] + ss) =~= views_of(v).push(stmt_view(s)) + ss);
        },
        Err(_) => {},
    }
}

proof fn lemma_prepend_nothing(pre: Seq<StmtModel>, i: int)
    ensures
        prepend_all(pre, Ok((Seq::<StmtModel>::empty(), i))) == Ok::<(Seq<StmtModel>, int), Failure>(
            (pre, i),
        ),
{
    assert(pre + Seq::<StmtModel>::empty() =~= pre);
}

proof fn lemma_prepend_nothing_left(r: Result<(Seq<StmtModel>, int), Failure>)
    ensures
        r == prepend_all(views_of(Seq::<Statement>::empty()), r),
{
    assert(views_of(Seq::<Statement>::empty()) =~= Seq::<StmtModel>::empty());
    match r {
        Ok((ss, m)) => {
            assert(Seq::<StmtModel>::empty() + ss =~= ss);
        },
        Err(_) => {},
    }
}

/// Builds the node of binary operator `op`.
fn make_binary(op: &str, left: Expression, right: Expression, pos: Position) -> (e: Expression)
    ensures
        e == binary_expr(op@, left, right, pos),
{
    let (left, right) = (Box::new(left), Box::new(right));
    if str_eq(op, "SUM") {
        Expression::Sum { left, right, pos }
    } else if str_eq(op, "DIFF") {
        Expression::Diff { left, right, pos }
    } else if str_eq(op, "PRODUKT") {
        Expression::Produkt { left, right, pos }
    } else if str_eq(op, "QUOSHUNT") {
        Expression::Quoshunt { left, right, pos }
    } else if str_eq(op, "MOD") {
        Expression::Mod { left, right, pos }
    } else if str_eq(op, "BOTH") {
        Expression::BothSaem { left, right, pos }
    } else {
        Expression::Diffrint { left, right, pos }
    }
}

fn is_binary_op(w: &str) -> (r: bool)
    ensures
        r == binary_op_word(w@),
{
    str_eq(w, "SUM") || str_eq(w, "DIFF") || str_eq(w, "PRODUKT") || str_eq(w, "QUOSHUNT")
        || str_eq(w, "MOD") || str_eq(w, "BOTH") || str_eq(w, "DIFFRINT")
}

// ---------------------------------------------------------------------------
// The parser.
// ---------------------------------------------------------------------------

/// A forward cursor over a token sequence.
pub struct Parser {
    tokens: Vec<Token>,
    position: usize,
}

impl Parser {
    /// The tokens being parsed.
    pub closed spec fn toks(&self) -> Seq<Token> {
        self.tokens@
    }

    /// The index of the next token to read.
    pub closed spec fn cursor(&self) -> int {
        self.position as int
    }

    pub closed spec fn wf(&self) -> bool {
        self.position <= self.tokens@.len()
    }

    /// The same tokens, with the cursor at or after where `prev` had it.
    pub closed spec fn moved_from(&self, prev: Parser) -> bool {
        &&& self.wf()
        &&& self.tokens@ == prev.tokens@
        &&& prev.position <= self.position
    }

    /// Creates a parser at the start of `tokens`.
    pub fn new(tokens: Vec<Token>) -> (r: Self)
        ensures
            r.wf(),
            r.toks() == tokens@,
            r.cursor() == 0,
    {
        Parser { tokens, position: 0 }
    }

    /// The token `n` places ahead of the cursor, if there is one.
    fn peek(&self, n: usize) -> (r: Option<&Token>)
        requires
            self.wf(),
        ensures
            match r {
                Some(t) => self.position + n < self.tokens@.len() && *t == self.tokens@[self.position
                    + n],
                None => self.position + n >= self.tokens@.len(),
            },
    {
        if n < self.tokens.len() - self.position {
            Some(&self.tokens[self.position + n])
        } else {
            None
        }
    }

    /// The token under the cursor, if there is one.
    fn current(&self) -> (r: Option<&Token>)
        requires
            self.wf(),
        ensures
            match r {
                Some(t) => self.position < self.tokens@.len() && *t == self.tokens@[self.position as int],
                None => self.position >= self.tokens@.len(),
            },
    {
        self.peek(0)
    }

    fn peek_kw(&self, n: usize, w: &str) -> (r: bool)
        requires
            self.wf(),
        ensures
            r == kw_at(self.tokens@, self.position + n, w@),
    {
        match self.peek(n) {
            Some(t) => match &t.kind {
                TokenKind::Keyword(k) => str_eq(k.as_str(), w),
                _ => false,
            },
            None => false,
        }
    }

    fn peek_ident(&self, n: usize, w: &str) -> (r: bool)
        requires
            self.wf(),
        ensures
            r == ident_at(self.tokens@, self.position + n, w@),
    {
        match self.peek(n) {
            Some(t) => match &t.kind {
                TokenKind::Identifier(k) => str_eq(k.as_str(), w),
                _ => false,
            },
            None => false,
        }
    }

    fn at_newline(&self) -> (r: bool)
        requires
            self.wf(),
        ensures
            r == newline_at(self.tokens@, self.position as int),
    {
        match self.current() {
            Some(t) => match &t.kind {
                TokenKind::Newline => true,
                _ => false,
            },
            None => false,
        }
    }

    fn at_filler(&self) -> (r: bool)
        requires
            self.wf(),
        ensures
            r == filler_at(self.tokens@, self.position as int),
    {
        match self.current() {
            Some(t) => match &t.kind {
                TokenKind::Newline => true,
                TokenKind::Comment(_) => true,
                _ => false,
            },
            None => false,
        }
    }

    fn at_stmt_end(&self) -> (r: bool)
        requires
            self.wf(),
        ensures
            r == stmt_end_at(self.tokens@, self.position as int),
    {
        self.position >= self.tokens.len() || self.at_newline()
    }

    /// Moves the cursor one token on, unless input is over.
    fn advance(&mut self)
        requires
            old(self).wf(),
        ensures
            final(self).wf(),
            final(self).tokens@ == old(self).tokens@,
            final(self).position == if old(self).position < old(self).tokens@.len() {
                old(self).position + 1
            } else {
                old(self).position as int
            },
    {
        if self.position < self.tokens.len() {
            self.position = self.position + 1;
        }
    }

    /// The failure `msg` at the cursor.
    fn error(&self, msg: &str) -> (e: ParseError)
        requires
            self.wf(),
        ensures
            e@ == fail_at(self.tokens@, self.position as int, msg@),
    {
        match self.current() {
            Some(t) => ParseError { message: String::from_str(msg), line: t.line, column: t.column },
            None => {
                let mut m = String::from_str(msg);
                m.append(" (at end of file)");
                ParseError { message: m, line: 0, column: 0 }
            },
        }
    }

    /// The failure `msg` at the cursor, followed by `sep` and the token there.
    fn error_with_token(&self, msg: &str, sep: &str) -> (e: ParseError)
        requires
            self.wf(),
            self.position < self.tokens@.len(),
        ensures
            e@ == fail_with_token(self.tokens@, self.position as int, msg@, sep@),
    {
        let mut m = String::from_str(msg);
        m.append(sep);
        let d = self.tokens[self.position].kind.describe();
        m.append(d.as_str());
        self.error(m.as_str())
    }

    /// The failure when the keyword `w` was expected at the cursor.
    fn expected(&self, w: &str) -> (e: ParseError)
        requires
            self.wf(),
        ensures
            e@ == fail_at(self.tokens@, self.position as int, expected_msg(self.tokens@, self.position as int, w@)),
    {
        let mut m = String::from_str("Expected '");
        m.append(w);
        match self.current() {
            Some(t) => {
                m.append("', but found ");
                let d = t.kind.describe();
                m.append(d.as_str());
            },
            None => {
                m.append("', but reached end of file");
            },
        }
        self.error(m.as_str())
    }

    /// Consumes the keyword `w`, or fails.
    fn expect(&mut self, w: &str) -> (r: Result<(), ParseError>)
        requires
            old(self).wf(),
        ensures
            final(self).moved_from(*old(self)),
            match r {
                Ok(_) => expect_at(old(self).tokens@, old(self).position as int, w@) == Ok::<
                    int,
                    Failure,
                >(final(self).position as int),
                Err(e) => expect_at(old(self).tokens@, old(self).position as int, w@) == Err::<
                    int,
                    Failure,
                >(e@),
            },
            r is Err ==> final(self).position == old(self).position,
    {
        if self.peek_kw(0, w) {
            self.advance();
            Ok(())
        } else {
            Err(self.expected(w))
        }
    }

    /// Parses the expression at the cursor.
    fn parse_expression(&mut self) -> (r: Result<Expression, ParseError>)
        requires
            old(self).wf(),
        ensures
            final(self).moved_from(*old(self)),
            yields(expr_at(old(self).tokens@, old(self).position as int), r, final(self).position as int),
            r is Ok ==> old(self).position < final(self).position,
        decreases old(self).tokens@.len() - old(self).position,
    {
        let i = self.position;
        if i >= self.tokens.len() {
            return Err(
                ParseError {
                    message: String::from_str("unexpected EOF in expression"),
                    line: 0,
                    column: 0,
                },
            );
        }
        let p = Position { line: self.tokens[i].line, column: self.tokens[i].column };
        match &self.tokens[i].kind {
            TokenKind::Number(n) => {
                let v = n.clone();
                self.advance();
                Ok(Expression::Number(v, p))
            },
            TokenKind::StringLiteral(t) => {
                let v = t.clone();
                self.advance();
                Ok(Expression::String(v, p))
            },
            TokenKind::Identifier(x) => {
                let v = x.clone();
                self.advance();
                Ok(Expression::Identifier(v, p))
            },
            TokenKind::Keyword(k) => {
                let op = k.clone();
                if !is_binary_op(op.as_str()) {
                    return Err(self.error_with_token("Unexpected token in expression", ": "));
                }
                self.advance();
                if str_eq(op.as_str(), "DIFFRINT") {
                } else if str_eq(op.as_str(), "BOTH") {
                    if let Err(e) = self.expect("SAEM") {
                        return Err(e);
                    }
                } else if let Err(e) = self.expect("OF") {
                    return Err(e);
                }
                let left = match self.parse_expression() {
                    Ok(e) => e,
                    Err(e) => return Err(e),
                };
                if let Err(e) = self.expect("AN") {
                    return Err(e);
                }
                let right = match self.parse_expression() {
                    Ok(e) => e,
                    Err(e) => return Err(e),
                };
                Ok(make_binary(op.as_str(), left, right, p))
            },
            _ => Err(self.error_with_token("Unexpected token in expression", ": ")),
        }
    }

    /// Parses an expression that must end its statement.
    fn parse_closing_expression(&mut self, what: &str) -> (r: Result<Expression, ParseError>)
        requires
            old(self).wf(),
        ensures
            final(self).moved_from(*old(self)),
            yields(
                closing_expr_at(old(self).tokens@, old(self).position as int, what@),
                r,
                final(self).position as int,
            ),
            r is Ok ==> old(self).position < final(self).position,
    {
        let e = match self.parse_expression() {
            Ok(e) => e,
            Err(e) => return Err(e),
        };
        if !self.at_stmt_end() {
            return Err(self.error_with_token(what, ", found "));
        }
        Ok(e)
    }

    /// Parses the statement at the cursor; `None` where the token there starts no
    /// statement and is skipped.
    fn parse_statement(&mut self) -> (r: Result<Option<Statement>, ParseError>)
        requires
            old(self).wf(),
            old(self).position < old(self).tokens@.len(),
        ensures
            final(self).moved_from(*old(self)),
            yields_stmt(
                stmt_at(old(self).tokens@, old(self).position as int),
                r,
                final(self).position as int,
            ),
            r is Ok ==> old(self).position < final(self).position,
        decreases old(self).tokens@.len() - old(self).position, 0int,
    {
        let i = self.position;
        let p = Position { line: self.tokens[i].line, column: self.tokens[i].column };
        // conditional
        if self.peek_kw(0, "O") && self.peek_kw(1, "RLY?") {
            self.advance();
            self.advance();
            return self.parse_conditional(p);
        }

        // loop
        if self.peek_kw(0, "IM") && self.peek_kw(1, "IN") && self.peek_kw(2, "YR") && self.peek_kw(
            3,
            "LOOP",
        ) {
            self.advance();
            self.advance();
            self.advance();
            self.advance();
            let body = match self.parse_loop_body() {
                Ok(b) => b,
                Err(e) => return Err(e),
            };
            return Ok(Some(Statement::Loop { body, pos: p }));
        }

        // output
        if self.peek_kw(0, "VISIBLE") {
            self.advance();
            let first = match self.parse_expression() {
                Ok(e) => e,
                Err(e) => return Err(e),
            };
            let ghost toks = self.tokens@;
            let mut expressions: Vec<Expression> = Vec::new();
            expressions.push(first);
            assert(expressions@ =~= seq![first]);
            while !self.at_stmt_end()
                invariant
                    self.wf(),
                    self.tokens@ == toks,
                    old(self).tokens@ == toks,
                    old(self).position == i,
                    i < self.position,
                    stmt_at(toks, i as int) == match visible_rest(toks, self.position as int) {
                        Err(f) => Err::<(Option<StmtModel>, int), Failure>(f),
                        Ok((es, m)) => Ok(
                            (Some(StmtModel::Visible { expressions: expressions@ + es, pos: p }), m),
                        ),
                    },
                decreases self.tokens@.len() - self.position,
            {
                if let TokenKind::Comment(_) = &self.tokens[self.position].kind {
                    return Err(self.error_with_token("Unexpected token after expression in VISIBLE", ": "));
                }
                let e = match self.parse_expression() {
                    Ok(e) => e,
                    Err(e) => return Err(e),
                };
                proof {
                    let ghost rest = visible_rest(toks, self.position as int);
                    match rest {
                        Ok((es, m)) => {
                            assert(expressions@ + (seq![e] + es) =~= expressions@.push(e) + es);
                        },
                        Err(_) => {},
                    }
                }
                expressions.push(e);
            }
            proof {
                assert(expressions@ + Seq::<Expression>::empty() =~= expressions@);
            }
            return Ok(Some(Statement::Visible { expressions, pos: p }));
        }

        // declaration
        if self.peek_kw(0, "I") {
            self.advance();
            if let Err(e) = self.expect("HAS") {
                return Err(e);
            }
            if let Err(e) = self.expect("A") {
                return Err(e);
            }
            let name = match self.current() {
                Some(t) => match &t.kind {
                    TokenKind::Identifier(id) => id.clone(),
                    _ => return Err(self.error("Expected identifier after I HAS A")),
                },
                None => return Err(self.error("Expected identifier after I HAS A")),
            };
            self.advance();
            if self.peek_kw(0, "ITZ") {
                self.advance();
                let e = match self.parse_closing_expression("Expected newline after expression") {
                    Ok(e) => e,
                    Err(e) => return Err(e),
                };
                return Ok(Some(Statement::Declaration { name, value: Some(e), pos: p }));
            }
            return Ok(Some(Statement::Declaration { name, value: None, pos: p }));
        }

        // assignment, or an expression whose value goes to IT
        match &self.tokens[i].kind {
            TokenKind::Identifier(id) => {
                let name = id.clone();
                self.advance();
                if self.peek_kw(0, "R") {
                    self.advance();
                    let e = match self.parse_closing_expression("Expected newline after expression") {
                        Ok(e) => e,
                        Err(e) => return Err(e),
                    };
                    return Ok(Some(Statement::Assignment { name, value: Some(e), pos: p }));
                }
                return Ok(None);
            },
            TokenKind::Keyword(k) => {
                if is_binary_op(k.as_str()) {
                    let e = match self.parse_closing_expression("Expected newline after expression statement") {
                        Ok(e) => e,
                        Err(e) => return Err(e),
                    };
                    return Ok(Some(Statement::ExpressionStatement { expression: e, pos: p }));
                }
            },
            _ => {},
        }

        // anything else starts no statement
        self.advance();
        Ok(None)
    }

    /// Parses a conditional after its `O RLY?`.
    fn parse_conditional(&mut self, p: Position) -> (r: Result<Option<Statement>, ParseError>)
        requires
            old(self).wf(),
        ensures
            final(self).moved_from(*old(self)),
            yields_stmt(
                cond_at(old(self).tokens@, old(self).position as int, p),
                r,
                final(self).position as int,
            ),
            r is Ok ==> old(self).position < final(self).position,
        decreases old(self).tokens@.len() - old(self).position, 0int,
    {
        let ghost toks = self.tokens@;
        let ghost start = self.position as int;
        while self.at_filler()
            invariant
                self.wf(),
                self.tokens@ == toks,
                old(self).tokens@ == toks,
                old(self).position == start,
                start <= self.position,
                cond_at(toks, start, p) == cond_at(toks, self.position as int, p),
            decreases self.tokens@.len() - self.position,
        {
            self.advance();
        }
        if !self.peek_kw(0, "YA") {
            return Err(self.error("Expected YA RLY after O RLY?"));
        }
        if !self.peek_kw(1, "RLY") {
            return Err(self.error("Expected RLY after YA"));
        }
        self.advance();
        self.advance();
        let ya_rly = match self.parse_block(true) {
            Ok(b) => b,
            Err(e) => return Err(e),
        };
        if self.peek_kw(0, "NO") && self.peek_kw(1, "WAI") {
            self.advance();
            self.advance();
            let no_wai = match self.parse_block(false) {
                Ok(b) => b,
                Err(e) => return Err(e),
            };
            if let Err(e) = self.expect("OIC") {
                return Err(e);
            }
            return Ok(Some(Statement::ORly { ya_rly, no_wai: Some(no_wai), pos: p }));
        }
        if let Err(e) = self.expect("OIC") {
            return Err(e);
        }
        Ok(Some(Statement::ORly { ya_rly, no_wai: None, pos: p }))
    }

    fn closes_branch(&self, then_branch: bool) -> (r: bool)
        requires
            self.wf(),
        ensures
            r == branch_closes(self.tokens@, self.position as int, then_branch),
    {
        if then_branch {
            (self.peek_kw(0, "NO") && self.peek_kw(1, "WAI")) || self.peek_kw(0, "OIC")
                || self.peek_kw(0, "MEBBE")
        } else {
            self.peek_kw(0, "OIC")
        }
    }

    /// Parses a conditional's branch up to the token that closes it, which stays
    /// unread.
    fn parse_block(&mut self, then_branch: bool) -> (r: Result<Block, ParseError>)
        requires
            old(self).wf(),
        ensures
            final(self).moved_from(*old(self)),
            yields_block(
                block_at(old(self).tokens@, old(self).position as int, then_branch),
                r,
                final(self).position as int,
            ),
        decreases old(self).tokens@.len() - old(self).position, 1int,
    {
        let ghost toks = self.tokens@;
        let ghost start = self.position as int;
        let mut statements: Vec<Statement> = Vec::new();
        proof {
            lemma_prepend_nothing_left(block_at(toks, start, then_branch));
        }
        while self.position < self.tokens.len() && !self.closes_branch(then_branch)
            invariant
                self.wf(),
                self.tokens@ == toks,
                old(self).tokens@ == toks,
                old(self).position == start,
                start <= self.position,
                block_at(toks, start, then_branch) == prepend_all(
                    views_of(statements@),
                    block_at(toks, self.position as int, then_branch),
                ),
            decreases self.tokens@.len() - self.position,
        {
            if self.at_filler() {
                self.advance();
            } else {
                match self.parse_statement() {
                    Err(e) => return Err(e),
                    Ok(Some(s)) => {
                        proof {
                            lemma_push_view(
                                statements@,
                                s,
                                block_at(toks, self.position as int, then_branch),
                            );
                        }
                        statements.push(s);
                    },
                    Ok(None) => {},
                }
            }
        }
        let b = Block { statements };
        proof {
            lemma_block_view(b);
            lemma_prepend_nothing(views_of(b.statements@), self.position as int);
        }
        Ok(b)
    }

    /// Parses a loop body through its closer `IM OUTTA YR LOOP`, or to the end of
    /// input.
    fn parse_loop_body(&mut self) -> (r: Result<Block, ParseError>)
        requires
            old(self).wf(),
        ensures
            final(self).moved_from(*old(self)),
            yields_block(
                loop_body_at(old(self).tokens@, old(self).position as int),
                r,
                final(self).position as int,
            ),
        decreases old(self).tokens@.len() - old(self).position, 1int,
    {
        let ghost toks = self.tokens@;
        let ghost start = self.position as int;
        let mut statements: Vec<Statement> = Vec::new();
        proof {
            lemma_prepend_nothing_left(loop_body_at(toks, start));
        }
        while self.position < self.tokens.len() && !(self.peek_kw(0, "IM") && self.peek_ident(
            1,
            "OUTTA",
        ) && self.peek_kw(2, "YR") && self.peek_kw(3, "LOOP"))
            invariant
                self.wf(),
                self.tokens@ == toks,
                old(self).tokens@ == toks,
                old(self).position == start,
                start <= self.position,
                loop_body_at(toks, start) == prepend_all(
                    views_of(statements@),
                    loop_body_at(toks, self.position as int),
                ),
            decreases self.tokens@.len() - self.position,
        {
            if self.at_filler() {
                self.advance();
            } else {
                match self.parse_statement() {
                    Err(e) => return Err(e),
                    Ok(Some(s)) => {
                        proof {
                            lemma_push_view(statements@, s, loop_body_at(toks, self.position as int));
                        }
                        statements.push(s);
                    },
                    Ok(None) => {},
                }
            }
        }
        if self.position < self.tokens.len() {
            self.advance();
            self.advance();
            self.advance();
            self.advance();
        }
        let b = Block { statements };
        proof {
            lemma_block_view(b);
            lemma_prepend_nothing(views_of(b.statements@), self.position as int);
        }
        Ok(b)
    }

    /// Parses a whole program: `HAI`, an optional version number (else "1.2"), its
    /// statements, and `KTHXBYE`, after which nothing is read.
    pub fn parse_program(&mut self) -> (r: Result<Program, ParseError>)
        requires
            old(self).wf(),
            old(self).cursor() == 0,
        ensures
            final(self).wf(),
            final(self).toks() == old(self).toks(),
            match r {
                Ok(prog) => program_of(old(self).toks()) == Ok::<ProgramModel, Failure>(
                    (ProgramModel { version: prog.version@, body: prog.body.view() }),
                ),
                Err(e) => program_of(old(self).toks()) == Err::<ProgramModel, Failure>(e@),
            },
    {
        if let Err(e) = self.expect("HAI") {
            return Err(e);
        }
        let number = match self.current() {
            Some(t) => match &t.kind {
                TokenKind::Number(n) => Some(n.clone()),
                _ => None,
            },
            None => None,
        };
        let version = match number {
            Some(v) => {
                self.advance();
                v
            },
            None => String::from_str("1.2"),
        };
        let ghost toks = self.tokens@;
        let ghost start = self.position as int;
        let mut statements: Vec<Statement> = Vec::new();
        proof {
            lemma_prepend_nothing_left(body_at(toks, start));
        }
        while !self.peek_kw(0, "KTHXBYE")
            invariant
                self.wf(),
                self.tokens@ == toks,
                old(self).tokens@ == toks,
                start <= self.position,
                program_of(toks) == match body_at(toks, start) {
                    Err(f) => Err::<ProgramModel, Failure>(f),
                    Ok((b, _)) => Ok((ProgramModel { version: version@, body: b })),
                },
                body_at(toks, start) == prepend_all(
                    views_of(statements@),
                    body_at(toks, self.position as int),
                ),
            decreases self.tokens@.len() - self.position,
        {
            if self.position >= self.tokens.len() {
                return Err(self.error("Expected 'KTHXBYE' at end of program"));
            }
            if self.at_filler() {
                self.advance();
            } else {
                match self.parse_statement() {
                    Err(e) => return Err(e),
                    Ok(Some(s)) => {
                        proof {
                            lemma_push_view(statements@, s, body_at(toks, self.position as int));
                        }
                        statements.push(s);
                    },
                    Ok(None) => {},
                }
            }
        }
        self.advance();
        let body = Block { statements };
        proof {
            lemma_block_view(body);
            lemma_prepend_nothing(views_of(body.statements@), self.position as int);
        }
        Ok(Program { version, body })
    }
}

/// Parses a token sequence into a program, or reports the first grammar violation.
pub fn parse(tokens: Vec<Token>) -> (r: Result<Program, ParseError>)
    ensures
        match r {
            Ok(prog) => program_of(tokens@) == Ok::<ProgramModel, Failure>(
                (ProgramModel { version: prog.version@, body: prog.body.view() }),
            ),
            Err(e) => program_of(tokens@) == Err::<ProgramModel, Failure>(e@),
        },
{
    let mut parser = Parser::new(tokens);
    parser.parse_program()
}

} // verus!
