use vstd::prelude::*;

verus! {

broadcast use vstd::std_specs::vec::axiom_vec_index_decreases;

/// A source position: line and column, both counted from one.
#[derive(Debug, Clone, Copy, PartialEq, Eq, Structural)]
pub struct Position {
    pub line: usize,
    pub column: usize,
}

/// An expression: a literal or identifier leaf, or a binary operator over two
/// exclusively owned operands.
#[derive(Debug, PartialEq)]
pub enum Expression {
    Number(String, Position),
    String(String, Position),
    Identifier(String, Position),
    Sum { left: Box<Expression>, right: Box<Expression>, pos: Position },
    Diff { left: Box<Expression>, right: Box<Expression>, pos: Position },
    Produkt { left: Box<Expression>, right: Box<Expression>, pos: Position },
    Quoshunt { left: Box<Expression>, right: Box<Expression>, pos: Position },
    Mod { left: Box<Expression>, right: Box<Expression>, pos: Position },
    BothSaem { left: Box<Expression>, right: Box<Expression>, pos: Position },
    Diffrint { left: Box<Expression>, right: Box<Expression>, pos: Position },
}

/// A statement of the language.
#[derive(Debug, PartialEq)]
pub enum Statement {
    /// `I HAS A name [ITZ value]`
    Declaration { name: String, value: Option<Expression>, pos: Position },
    /// `name R value`
    Assignment { name: String, value: Option<Expression>, pos: Position },
    /// `VISIBLE expr ...`
    Visible { expressions: Vec<Expression>, pos: Position },
    /// `O RLY?` / `YA RLY` ... [`NO WAI` ...] / `OIC`
    ORly { ya_rly: Block, no_wai: Option<Block>, pos: Position },
    /// `IM IN YR LOOP` ... `IM OUTTA YR LOOP`
    Loop { body: Block, pos: Position },
    /// A bare expression, whose value goes to the implicit variable `IT`.
    ExpressionStatement { expression: Expression, pos: Position },
}

/// Statements in program order.
#[derive(Debug, PartialEq)]
pub struct Block {
    pub statements: Vec<Statement>,
}

/// A whole program: its version text and its body.
#[derive(Debug, PartialEq)]
pub struct Program {
    pub version: String,
    pub body: Block,
}

/// The mathematical form of a statement: blocks and expression lists as sequences.
pub enum StmtModel {
    Declaration { name: String, value: Option<Expression>, pos: Position },
    Assignment { name: String, value: Option<Expression>, pos: Position },
    Visible { expressions: Seq<Expression>, pos: Position },
    ORly { ya_rly: Seq<StmtModel>, no_wai: Option<Seq<StmtModel>>, pos: Position },
    Loop { body: Seq<StmtModel>, pos: Position },
    ExpressionStatement { expression: Expression, pos: Position },
}

/// The mathematical form of a program.
pub struct ProgramModel {
    pub version: Seq<char>,
    pub body: Seq<StmtModel>,
}

pub open spec fn stmt_view(s: Statement) -> StmtModel
    decreases s, 0int,
{
    match s {
        Statement::Declaration { name, value, pos } => StmtModel::Declaration { name, value, pos },
        Statement::Assignment { name, value, pos } => StmtModel::Assignment { name, value, pos },
        Statement::Visible { expressions, pos } => StmtModel::Visible {
            expressions: expressions@,
            pos,
        },
        Statement::ORly { ya_rly, no_wai, pos } => StmtModel::ORly {
            ya_rly: stmts_view(ya_rly.statements, 0),
            no_wai: match no_wai {
                Some(b) => Some(stmts_view(b.statements, 0)),
                None => None,
            },
            pos,
        },
        Statement::Loop { body, pos } => StmtModel::Loop { body: stmts_view(body.statements, 0), pos },
        Statement::ExpressionStatement { expression, pos } => StmtModel::ExpressionStatement {
            expression,
            pos,
        },
    }
}

/// The views of the statements of `v` from index `i` on.
pub open spec fn stmts_view(v: Vec<Statement>, i: int) -> Seq<StmtModel>
    decreases v, v@.len() - i,
{
    if 0 <= i < v@.len() {
        seq![stmt_view(v@[i])] + stmts_view(v, i + 1)
    } else {
        Seq::empty()
    }
}

impl Block {
    pub open spec fn view(&self) -> Seq<StmtModel> {
        stmts_view(self.statements, 0)
    }
}

/// The views of a sequence of statements.
pub open spec fn views_of(v: Seq<Statement>) -> Seq<StmtModel> {
    v.map_values(|s: Statement| stmt_view(s))
}

pub proof fn lemma_stmts_view(v: Vec<Statement>, i: int)
    requires
        0 <= i <= v@.len(),
    ensures
        stmts_view(v, i) == views_of(v@.subrange(i, v@.len() as int)),
    decreases v@.len() - i,
{
    if i < v@.len() {
        lemma_stmts_view(v, i + 1);
        assert(views_of(v@.subrange(i, v@.len() as int)) =~= seq![stmt_view(v@[i])] + views_of(
            v@.subrange(i + 1, v@.len() as int),
        ));
    } else {
        assert(views_of(v@.subrange(i, v@.len() as int)) =~= Seq::empty());
    }
}

pub proof fn lemma_block_view(b: Block)
    ensures
        b.view() == views_of(b.statements@),
{
    lemma_stmts_view(b.statements, 0);
    assert(b.statements@.subrange(0, b.statements@.len() as int) =~= b.statements@);
}

impl Clone for Expression {
    /// An equal copy of the tree.
    fn clone(&self) -> (r: Self)
        ensures
            r == *self,
        decreases self,
    {
        match self {
            Expression::Number(s, p) => Expression::Number(s.clone(), *p),
            Expression::String(s, p) => Expression::String(s.clone(), *p),
            Expression::Identifier(s, p) => Expression::Identifier(s.clone(), *p),
            Expression::Sum { left, right, pos } => Expression::Sum {
                left: Box::new((**left).clone()),
                right: Box::new((**right).clone()),
                pos: *pos,
            },
            Expression::Diff { left, right, pos } => Expression::Diff {
                left: Box::new((**left).clone()),
                right: Box::new((**right).clone()),
                pos: *pos,
            },
            Expression::Produkt { left, right, pos } => Expression::Produkt {
                left: Box::new((**left).clone()),
                right: Box::new((**right).clone()),
                pos: *pos,
            },
            Expression::Quoshunt { left, right, pos } => Expression::Quoshunt {
                left: Box::new((**left).clone()),
                right: Box::new((**right).clone()),
                pos: *pos,
            },
            Expression::Mod { left, right, pos } => Expression::Mod {
                left: Box::new((**left).clone()),
                right: Box::new((**right).clone()),
                pos: *pos,
            },
            Expression::BothSaem { left, right, pos } => Expression::BothSaem {
                left: Box::new((**left).clone()),
                right: Box::new((**right).clone()),
                pos: *pos,
            },
            Expression::Diffrint { left, right, pos } => Expression::Diffrint {
                left: Box::new((**left).clone()),
                right: Box::new((**right).clone()),
                pos: *pos,
            },
        }
    }
}

impl Clone for Statement {
    /// A copy with the same model.
    fn clone(&self) -> (r: Self)
        ensures
            stmt_view(r) == stmt_view(*self),
        decreases self,
    {
        match self {
            Statement::Declaration { name, value, pos } => Statement::Declaration {
                name: name.clone(),
                value: match value {
                    Some(e) => Some(e.clone()),
                    None => None,
                },
                pos: *pos,
            },
            Statement::Assignment { name, value, pos } => Statement::Assignment {
                name: name.clone(),
                value: match value {
                    Some(e) => Some(e.clone()),
                    None => None,
                },
                pos: *pos,
            },
            Statement::Visible { expressions, pos } => {
                let mut copy: Vec<Expression> = Vec::new();
                let mut i: usize = 0;
                while i < expressions.len()
                    invariant
                        i <= expressions@.len(),
                        copy@ == expressions@.subrange(0, i as int),
                    decreases expressions@.len() - i,
                {
                    copy.push(expressions[i].clone());
                    assert(copy@ =~= expressions@.subrange(0, i + 1));
                    i = i + 1;
                }
                assert(copy@ =~= expressions@);
                Statement::Visible { expressions: copy, pos: *pos }
            },
            Statement::ORly { ya_rly, no_wai, pos } => Statement::ORly {
                ya_rly: ya_rly.clone(),
                no_wai: match no_wai {
                    Some(b) => Some(b.clone()),
                    None => None,
                },
                pos: *pos,
            },
            Statement::Loop { body, pos } => Statement::Loop { body: body.clone(), pos: *pos },
            Statement::ExpressionStatement { expression, pos } => Statement::ExpressionStatement {
                expression: expression.clone(),
                pos: *pos,
            },
        }
    }
}

impl Clone for Block {
    /// A copy with the same model.
    fn clone(&self) -> (r: Self)
        ensures
            r.view() == self.view(),
        decreases self,
    {
        let mut copy: Vec<Statement> = Vec::new();
        let mut i: usize = 0;
        while i < self.statements.len()
            invariant
                i <= self.statements@.len(),
                copy@.len() == i,
                forall|j: int| 0 <= j < i ==> stmt_view(#[trigger] copy@[j]) == stmt_view(self.statements@[j]),
            decreases self.statements@.len() - i,
        {
            copy.push(self.statements[i].clone());
            i = i + 1;
        }
        let r = Block { statements: copy };
        proof {
            lemma_block_view(r);
            lemma_block_view(*self);
            assert(views_of(r.statements@) =~= views_of(self.statements@));
        }
        r
    }
}

impl Clone for Program {
    /// A copy with the same version and the same body model.
    fn clone(&self) -> (r: Self)
        ensures
            r.version == self.version,
            r.body.view() == self.body.view(),
    {
        Program { version: self.version.clone(), body: self.body.clone() }
    }
}

} // verus!
