use vstd::prelude::*;
use vstd::string::*;
use crate::types::str_eq;
use crate::ast::{lemma_block_view, stmt_view, views_of, Block, Expression, Position, Program, Statement, StmtModel};

verus! {

broadcast use vstd::seq::axiom_seq_index_decreases, vstd::std_specs::vec::axiom_vec_index_decreases;

// ---------------------------------------------------------------------------
// Message text.
// ---------------------------------------------------------------------------

pub open spec fn digit_char(d: nat) -> char {
    if d == 0 {
        '0'
    } else if d == 1 {
        '1'
    } else if d == 2 {
        '2'
    } else if d == 3 {
        '3'
    } else if d == 4 {
        '4'
    } else if d == 5 {
        '5'
    } else if d == 6 {
        '6'
    } else if d == 7 {
        '7'
    } else if d == 8 {
        '8'
    } else {
        '9'
    }
}

/// The decimal digits of `n`, without leading zeros.
pub open spec fn decimal(n: nat) -> Seq<char>
    decreases n,
{
    if n < 10 {
        seq![digit_char(n)]
    } else {
        decimal(n / 10) + seq![digit_char(n % 10)]
    }
}

/// The suffix that places a diagnostic: ` (line L, column C)`.
pub open spec fn at_pos(p: Position) -> Seq<char> {
    " (line "@ + decimal(p.line as nat) + ", column "@ + decimal(p.column as nat) + ")"@
}

pub open spec fn msg_declared_twice(name: Seq<char>, p: Position) -> Seq<char> {
    "error: variable '"@ + name + "' declared twice"@ + at_pos(p)
}

pub open spec fn msg_assign_undeclared(name: Seq<char>, p: Position) -> Seq<char> {
    "error: assignment to undeclared variable '"@ + name + "'"@ + at_pos(p)
}

pub open spec fn msg_use_undeclared(name: Seq<char>, p: Position) -> Seq<char> {
    "error: use of undeclared variable '"@ + name + "'"@ + at_pos(p)
}

pub open spec fn msg_empty_ya_rly(p: Position) -> Seq<char> {
    "warning: YA RLY block is empty"@ + at_pos(p)
}

pub open spec fn msg_no_else(p: Position) -> Seq<char> {
    "warning: O RLY? without NO WAI branch"@ + at_pos(p)
}

pub open spec fn msg_empty_loop(p: Position) -> Seq<char> {
    "warning: empty loop body"@ + at_pos(p)
}

pub open spec fn msg_unused(name: Seq<char>) -> Seq<char> {
    "warning: variable '"@ + name + "' declared but never used"@
}

pub open spec fn truth_word(b: bool) -> Seq<char> {
    if b {
        " is always true"@
    } else {
        " is always false"@
    }
}

pub open spec fn quoted(s: Seq<char>) -> Seq<char> {
    "\""@ + s + "\""@
}

/// The warning for a comparison whose outcome its literal operands fix.
pub open spec fn constant_warning(e: Expression) -> Option<Seq<char>> {
    match e {
        Expression::BothSaem { left, right, pos } => match (*left, *right) {
            (Expression::Number(a, _), Expression::Number(b, _)) => Some(
                "warning: BOTH SAEM "@ + a@ + " AN "@ + b@ + truth_word(a@ == b@) + at_pos(pos),
            ),
            (Expression::String(a, _), Expression::String(b, _)) => Some(
                "warning: BOTH SAEM "@ + quoted(a@) + " AN "@ + quoted(b@) + truth_word(a@ == b@)
                    + at_pos(pos),
            ),
            (Expression::Identifier(a, _), Expression::Identifier(b, _)) => if a@ == b@ && (a@
                == "WIN"@ || a@ == "FAIL"@) {
                Some("warning: BOTH SAEM "@ + a@ + " AN "@ + b@ + truth_word(true) + at_pos(pos))
            } else {
                None
            },
            _ => None,
        },
        Expression::Diffrint { left, right, pos } => match (*left, *right) {
            (Expression::Number(a, _), Expression::Number(b, _)) => Some(
                "warning: DIFFRINT "@ + a@ + " AN "@ + b@ + truth_word(a@ != b@) + at_pos(pos),
            ),
            (Expression::String(a, _), Expression::String(b, _)) => Some(
                "warning: DIFFRINT "@ + quoted(a@) + " AN "@ + quoted(b@) + truth_word(a@ != b@)
                    + at_pos(pos),
            ),
            (Expression::Identifier(a, _), Expression::Identifier(b, _)) => if a@ == b@ && (a@
                == "WIN"@ || a@ == "FAIL"@) {
                Some("warning: DIFFRINT "@ + a@ + " AN "@ + b@ + truth_word(false) + at_pos(pos))
            } else {
                None
            },
            _ => None,
        },
        _ => None,
    }
}

// ---------------------------------------------------------------------------
// What the traversal sees, in order.
// ---------------------------------------------------------------------------

/// One step of the traversal: a declaration, an assignment, a read of a
/// variable, or a warning found on the spot.
pub enum Event {
    Declare(Seq<char>, Position),
    Assign(Seq<char>, Position),
    Use(Seq<char>, Position),
    Warn(Seq<char>),
}

pub open spec fn expr_events(e: Expression) -> Seq<Event>
    decreases e,
{
    match e {
        Expression::Identifier(n, p) => seq![Event::Use(n@, p)],
        Expression::Number(..) => Seq::empty(),
        Expression::String(..) => Seq::empty(),
        Expression::Sum { left, right, .. } => expr_events(*left) + expr_events(*right),
        Expression::Diff { left, right, .. } => expr_events(*left) + expr_events(*right),
        Expression::Produkt { left, right, .. } => expr_events(*left) + expr_events(*right),
        Expression::Quoshunt { left, right, .. } => expr_events(*left) + expr_events(*right),
        Expression::Mod { left, right, .. } => expr_events(*left) + expr_events(*right),
        Expression::BothSaem { left, right, .. } => expr_events(*left) + expr_events(*right),
        Expression::Diffrint { left, right, .. } => expr_events(*left) + expr_events(*right),
    }
}

pub open spec fn opt_expr_events(e: Option<Expression>) -> Seq<Event> {
    match e {
        Some(x) => expr_events(x),
        None => Seq::empty(),
    }
}

/// The events of the expressions `es[i..]`.
pub open spec fn exprs_events(es: Seq<Expression>, i: int) -> Seq<Event>
    decreases es.len() - i,
{
    if 0 <= i < es.len() {
        expr_events(es[i]) + exprs_events(es, i + 1)
    } else {
        Seq::empty()
    }
}

pub open spec fn warn_if(c: bool, m: Seq<char>) -> Seq<Event> {
    if c {
        seq![Event::Warn(m)]
    } else {
        Seq::empty()
    }
}

pub open spec fn stmt_events(s: StmtModel) -> Seq<Event>
    decreases s, 0int,
{
    match s {
        StmtModel::Declaration { name, value, pos } => seq![Event::Declare(name@, pos)]
            + opt_expr_events(value),
        StmtModel::Assignment { name, value, pos } => seq![Event::Assign(name@, pos)]
            + opt_expr_events(value),
        StmtModel::Visible { expressions, .. } => exprs_events(expressions, 0),
        StmtModel::ORly { ya_rly, no_wai, pos } => warn_if(ya_rly.len() == 0, msg_empty_ya_rly(pos))
            + stmts_events(ya_rly, 0) + match no_wai {
            Some(b) => stmts_events(b, 0),
            None => seq![Event::Warn(msg_no_else(pos))],
        },
        StmtModel::Loop { body, pos } => warn_if(body.len() == 0, msg_empty_loop(pos))
            + stmts_events(body, 0),
        StmtModel::ExpressionStatement { expression, .. } => expr_events(expression) + match constant_warning(expression) {
            Some(m) => seq![Event::Warn(m)],
            None => Seq::empty(),
        },
    }
}

/// The events of the statements `ss[i..]`, in program order.
pub open spec fn stmts_events(ss: Seq<StmtModel>, i: int) -> Seq<Event>
    decreases ss, ss.len() - i,
{
    if 0 <= i < ss.len() {
        stmt_events(ss[i]) + stmts_events(ss, i + 1)
    } else {
        Seq::empty()
    }
}

// ---------------------------------------------------------------------------
// The analysis, as a fold over the events.
// ---------------------------------------------------------------------------

pub struct LintState {
    pub declared: Seq<Seq<char>>,
    pub used: Seq<Seq<char>>,
    pub errors: Seq<Seq<char>>,
    pub warnings: Seq<Seq<char>>,
}

pub open spec fn fresh_state() -> LintState {
    LintState {
        declared: Seq::empty(),
        used: Seq::empty(),
        errors: Seq::empty(),
        warnings: Seq::empty(),
    }
}

pub open spec fn step(st: LintState, ev: Event) -> LintState {
    match ev {
        Event::Declare(n, p) => if st.declared.contains(n) {
            LintState { errors: st.errors.push(msg_declared_twice(n, p)), ..st }
        } else {
            LintState { declared: st.declared.push(n), ..st }
        },
        Event::Assign(n, p) => if st.declared.contains(n) {
            LintState { used: st.used.push(n), ..st }
        } else {
            LintState { errors: st.errors.push(msg_assign_undeclared(n, p)), ..st }
        },
        Event::Use(n, p) => if st.declared.contains(n) {
            LintState { used: st.used.push(n), ..st }
        } else {
            LintState { errors: st.errors.push(msg_use_undeclared(n, p)), ..st }
        },
        Event::Warn(m) => LintState { warnings: st.warnings.push(m), ..st },
    }
}

pub open spec fn run(st: LintState, evs: Seq<Event>) -> LintState
    decreases evs.len(),
{
    if evs.len() == 0 {
        st
    } else {
        run(step(st, evs[0]), evs.drop_first())
    }
}

/// One warning for each name of `declared[..n]` that `used` lacks, in order.
pub open spec fn unused_warnings(declared: Seq<Seq<char>>, used: Seq<Seq<char>>, n: int) -> Seq<
    Seq<char>,
>
    decreases n,
{
    if n <= 0 || n > declared.len() {
        Seq::empty()
    } else if used.contains(declared[n - 1]) {
        unused_warnings(declared, used, n - 1)
    } else {
        unused_warnings(declared, used, n - 1).push(msg_unused(declared[n - 1]))
    }
}

/// The state after traversing a program body.
pub open spec fn traversal(body: Seq<StmtModel>) -> LintState {
    run(fresh_state(), stmts_events(body, 0))
}

pub open spec fn lint_errors(body: Seq<StmtModel>) -> Seq<Seq<char>> {
    traversal(body).errors
}

pub open spec fn lint_warnings(body: Seq<StmtModel>) -> Seq<Seq<char>> {
    let st = traversal(body);
    st.warnings + unused_warnings(st.declared, st.used, st.declared.len() as int)
}

pub proof fn lemma_run_append(st: LintState, a: Seq<Event>, b: Seq<Event>)
    ensures
        run(st, a + b) == run(run(st, a), b),
    decreases a.len(),
{
    if a.len() == 0 {
        assert(a + b =~= b);
    } else {
        assert((a + b).drop_first() =~= a.drop_first() + b);
        lemma_run_append(step(st, a[0]), a.drop_first(), b);
    }
}

pub proof fn lemma_run_one(st: LintState, ev: Event)
    ensures
        run(st, seq![ev]) == step(st, ev),
{
    reveal_with_fuel(run, 2);
    assert(seq![ev].drop_first() =~= Seq::<Event>::empty());
}

// ---------------------------------------------------------------------------
// Programs that use their variables correctly.
// ---------------------------------------------------------------------------

/// Some event before index `i` declares `n`.
pub open spec fn declared_before(evs: Seq<Event>, i: int, n: Seq<char>) -> bool {
    exists|j: int| 0 <= j < i && evs[j] is Declare && #[trigger] evs[j]->Declare_0 == n
}

/// Every read and every assignment comes after a declaration of its name, and no
/// name is declared twice, in traversal order.
pub open spec fn well_scoped(evs: Seq<Event>) -> bool {
    forall|i: int| 0 <= i < evs.len() ==> #[trigger] event_ok(Seq::empty(), evs, i)
}

/// Event `i` is correct given the names in `known` and the declarations before it.
pub open spec fn event_ok(known: Seq<Seq<char>>, evs: Seq<Event>, i: int) -> bool {
    match evs[i] {
        Event::Declare(n, _) => !(known.contains(n) || declared_before(evs, i, n)),
        Event::Assign(n, _) => known.contains(n) || declared_before(evs, i, n),
        Event::Use(n, _) => known.contains(n) || declared_before(evs, i, n),
        Event::Warn(_) => true,
    }
}

proof fn lemma_shift_known(st: LintState, evs: Seq<Event>, i: int, n: Seq<char>)
    requires
        0 < evs.len(),
        0 <= i < evs.len() - 1,
        event_ok(st.declared, evs, 0),
    ensures
        (step(st, evs[0]).declared.contains(n) || declared_before(evs.drop_first(), i, n)) == (
        st.declared.contains(n) || declared_before(evs, i + 1, n)),
{
    let st2 = step(st, evs[0]);
    let rest = evs.drop_first();
    if st2.declared.contains(n) {
        let k = choose|k: int| 0 <= k < st2.declared.len() && st2.declared[k] == n;
        if k < st.declared.len() {
            assert(st.declared[k] == n);
        } else {
            assert(evs[0] is Declare && evs[0]->Declare_0 == n);
        }
    }
    if declared_before(rest, i, n) {
        let j = choose|j: int| 0 <= j < i && rest[j] is Declare && #[trigger] rest[j]->Declare_0 == n;
        assert(evs[j + 1]->Declare_0 == n);
    }
    if st.declared.contains(n) {
        let k = choose|k: int| 0 <= k < st.declared.len() && st.declared[k] == n;
        assert(st2.declared[k] == n);
    }
    if declared_before(evs, i + 1, n) {
        let j = choose|j: int| 0 <= j < i + 1 && evs[j] is Declare && #[trigger] evs[j]->Declare_0 == n;
        if j == 0 {
            assert(st2.declared[st2.declared.len() - 1] == n);
        } else {
            assert(rest[j - 1]->Declare_0 == n);
        }
    }
}

proof fn lemma_run_keeps_errors(st: LintState, evs: Seq<Event>)
    requires
        forall|i: int| 0 <= i < evs.len() ==> #[trigger] event_ok(st.declared, evs, i),
    ensures
        run(st, evs).errors == st.errors,
    decreases evs.len(),
{
    if evs.len() > 0 {
        assert(event_ok(st.declared, evs, 0));
        assert(!declared_before(evs, 0, evs[0]->Declare_0));
        assert(!declared_before(evs, 0, evs[0]->Assign_0));
        assert(!declared_before(evs, 0, evs[0]->Use_0));
        let st2 = step(st, evs[0]);
        let rest = evs.drop_first();
        assert forall|i: int| 0 <= i < rest.len() implies #[trigger] event_ok(
            st2.declared,
            rest,
            i,
        ) by {
            assert(event_ok(st.declared, evs, i + 1));
            assert(rest[i] == evs[i + 1]);
            match rest[i] {
                Event::Declare(n, _) => lemma_shift_known(st, evs, i, n),
                Event::Assign(n, _) => lemma_shift_known(st, evs, i, n),
                Event::Use(n, _) => lemma_shift_known(st, evs, i, n),
                Event::Warn(_) => {},
            }
        }
        lemma_run_keeps_errors(st2, rest);
    }
}

/// A program in which every variable is declared once, before any read of it or
/// assignment to it (in traversal order), gets no errors.
pub proof fn lemma_well_scoped_no_errors(program: Program)
    requires
        well_scoped(stmts_events(program.body.view(), 0)),
    ensures
        lint_errors(program.body.view()) == Seq::<Seq<char>>::empty(),
{
    let evs = stmts_events(program.body.view(), 0);
    assert forall|i: int| 0 <= i < evs.len() implies #[trigger] event_ok(
        fresh_state().declared,
        evs,
        i,
    ) by {
        assert(event_ok(Seq::empty(), evs, i));
    }
    lemma_run_keeps_errors(fresh_state(), evs);
}

// ---------------------------------------------------------------------------
// Building message text.
// ---------------------------------------------------------------------------

fn digit_str(d: usize) -> (r: &'static str)
    requires
        d < 10,
    ensures
        r@ == seq![digit_char(d as nat)],
{
    proof {
        reveal_strlit("0");
        reveal_strlit("1");
        reveal_strlit("2");
        reveal_strlit("3");
        reveal_strlit("4");
        reveal_strlit("5");
        reveal_strlit("6");
        reveal_strlit("7");
        reveal_strlit("8");
        reveal_strlit("9");
    }
    if d == 0 {
        "0"
    } else if d == 1 {
        "1"
    } else if d == 2 {
        "2"
    } else if d == 3 {
        "3"
    } else if d == 4 {
        "4"
    } else if d == 5 {
        "5"
    } else if d == 6 {
        "6"
    } else if d == 7 {
        "7"
    } else if d == 8 {
        "8"
    } else {
        "9"
    }
}

/// Appends the decimal digits of `n`.
fn push_decimal(s: &mut String, n: usize)
    ensures
        final(s)@ == old(s)@ + decimal(n as nat),
    decreases n,
{
    if n >= 10 {
        push_decimal(s, n / 10);
    }
    s.append(digit_str(n % 10));
    proof {
        if n >= 10 {
            assert(final(s)@ =~= old(s)@ + decimal(n as nat));
        } else {
            assert(n % 10 == n);
        }
    }
}

/// Appends ` (line L, column C)`.
fn push_pos(s: &mut String, p: Position)
    ensures
        final(s)@ == old(s)@ + at_pos(p),
{
    s.append(" (line ");
    push_decimal(s, p.line);
    s.append(", column ");
    push_decimal(s, p.column);
    s.append(")");
    assert(final(s)@ =~= old(s)@ + at_pos(p));
}

pub open spec fn strs(v: Seq<String>) -> Seq<Seq<char>> {
    v.map_values(|s: String| s@)
}

proof fn lemma_strs_push(v: Seq<String>, s: String)
    ensures
        strs(v.push(s)) == strs(v).push(s@),
{
    assert(strs(v.push(s)) =~= strs(v).push(s@));
}

/// Whether `v` holds a string equal to `x`.
fn contains(v: &Vec<String>, x: &String) -> (r: bool)
    ensures
        r == strs(v@).contains(x@),
{
    let mut i: usize = 0;
    while i < v.len()
        invariant
            i <= v@.len(),
            forall|j: int| 0 <= j < i ==> v@[j]@ != x@,
        decreases v@.len() - i,
    {
        if v[i] == *x {
            assert(strs(v@)[i as int] == x@);
            return true;
        }
        i = i + 1;
    }
    proof {
        if strs(v@).contains(x@) {
            let j = choose|j: int| 0 <= j < strs(v@).len() && strs(v@)[j] == x@;
            assert(v@[j]@ == x@);
        }
    }
    false
}

// ---------------------------------------------------------------------------
// The linter.
// ---------------------------------------------------------------------------

/// The outcome of one analysis: the errors and warnings found, and the names
/// declared and used on the way.
pub struct Linter {
    pub errors: Vec<String>,
    pub warnings: Vec<String>,
    /// The names declared, in order of first declaration.
    pub declared_vars: Vec<String>,
    /// The names read or assigned after their declaration, in order.
    pub used_vars: Vec<String>,
}

impl Linter {
    pub open spec fn state(&self) -> LintState {
        LintState {
            declared: strs(self.declared_vars@),
            used: strs(self.used_vars@),
            errors: strs(self.errors@),
            warnings: strs(self.warnings@),
        }
    }

    /// The errors found, in order.
    pub open spec fn errors_view(&self) -> Seq<Seq<char>> {
        strs(self.errors@)
    }

    /// The warnings found, in order.
    pub open spec fn warnings_view(&self) -> Seq<Seq<char>> {
        strs(self.warnings@)
    }

    /// Analyses a program: one traversal, then one warning for each variable
    /// that was declared and never used, in order of declaration.
    pub fn lint(program: &Program) -> (r: Linter)
        ensures
            r.errors_view() == lint_errors(program.body.view()),
            r.warnings_view() == lint_warnings(program.body.view()),
    {
        let mut linter = Linter {
            errors: Vec::new(),
            warnings: Vec::new(),
            declared_vars: Vec::new(),
            used_vars: Vec::new(),
        };
        assert(linter.state() == fresh_state()) by {
            assert(strs(Seq::<String>::empty()) =~= Seq::<Seq<char>>::empty());
        }
        linter.check_block(&program.body);
        linter.check_unused_variables();
        linter
    }

    /// Whether the analysis found any error.
    pub fn has_errors(&self) -> (r: bool)
        ensures
            r == (self.errors_view().len() > 0),
    {
        self.errors.len() > 0
    }

    fn note(&mut self, m: String)
        ensures
            final(self).state() == step(old(self).state(), Event::Warn(m@)),
    {
        proof {
            lemma_strs_push(self.warnings@, m);
        }
        self.warnings.push(m);
    }

    fn error(&mut self, m: String)
        ensures
            final(self).state() == (LintState {
                errors: old(self).state().errors.push(m@),
                ..old(self).state()
            }),
    {
        proof {
            lemma_strs_push(self.errors@, m);
        }
        self.errors.push(m);
    }

    fn mark_used(&mut self, name: &String)
        ensures
            final(self).state() == (LintState {
                used: old(self).state().used.push(name@),
                ..old(self).state()
            }),
    {
        let n = name.clone();
        proof {
            lemma_strs_push(self.used_vars@, n);
        }
        self.used_vars.push(n);
    }

    fn declare(&mut self, name: &String, pos: Position)
        ensures
            final(self).state() == step(old(self).state(), Event::Declare(name@, pos)),
    {
        if contains(&self.declared_vars, name) {
            let mut m = String::from_str("error: variable '");
            m.append(name.as_str());
            m.append("' declared twice");
            push_pos(&mut m, pos);
            self.error(m);
        } else {
            let n = name.clone();
            proof {
                lemma_strs_push(self.declared_vars@, n);
            }
            self.declared_vars.push(n);
        }
    }

    fn assign(&mut self, name: &String, pos: Position)
        ensures
            final(self).state() == step(old(self).state(), Event::Assign(name@, pos)),
    {
        if contains(&self.declared_vars, name) {
            self.mark_used(name);
        } else {
            let mut m = String::from_str("error: assignment to undeclared variable '");
            m.append(name.as_str());
            m.append("'");
            push_pos(&mut m, pos);
            self.error(m);
        }
    }

    fn read_var(&mut self, name: &String, pos: Position)
        ensures
            final(self).state() == step(old(self).state(), Event::Use(name@, pos)),
    {
        if contains(&self.declared_vars, name) {
            self.mark_used(name);
        } else {
            let mut m = String::from_str("error: use of undeclared variable '");
            m.append(name.as_str());
            m.append("'");
            push_pos(&mut m, pos);
            self.error(m);
        }
    }

    /// Checks the statements of a block in order.
    fn check_block(&mut self, block: &Block)
        ensures
            final(self).state() == run(old(self).state(), stmts_events(block.view(), 0)),
        decreases block,
    {
        proof {
            lemma_block_view(*block);
        }
        let ghost ss = block.view();
        let mut i: usize = 0;
        while i < block.statements.len()
            invariant
                ss == block.view(),
                ss == views_of(block.statements@),
                i <= block.statements@.len(),
                run(old(self).state(), stmts_events(ss, 0)) == run(self.state(), stmts_events(ss, i as int)),
            decreases block.statements@.len() - i,
        {
            let ghost before = self.state();
            self.check_statement(&block.statements[i]);
            proof {
                lemma_run_append(before, stmt_events(ss[i as int]), stmts_events(ss, i + 1));
            }
            i = i + 1;
        }
    }

    /// Checks one statement.
    fn check_statement(&mut self, stmt: &Statement)
        ensures
            final(self).state() == run(old(self).state(), stmt_events(stmt_view(*stmt))),
        decreases stmt,
    {
        let ghost st0 = self.state();
        match stmt {
            Statement::Declaration { name, value, pos } => {
                self.declare(name, *pos);
                match value {
                    Some(e) => self.check_expression(e),
                    None => {},
                }
                proof {
                    lemma_run_one(st0, Event::Declare(name@, *pos));
                    lemma_run_append(st0, seq![Event::Declare(name@, *pos)], opt_expr_events(*value));
                }
            },
            Statement::Assignment { name, value, pos } => {
                self.assign(name, *pos);
                match value {
                    Some(e) => self.check_expression(e),
                    None => {},
                }
                proof {
                    lemma_run_one(st0, Event::Assign(name@, *pos));
                    lemma_run_append(st0, seq![Event::Assign(name@, *pos)], opt_expr_events(*value));
                }
            },
            Statement::Visible { expressions, pos: _ } => {
                let mut i: usize = 0;
                while i < expressions.len()
                    invariant
                        i <= expressions@.len(),
                        run(st0, exprs_events(expressions@, 0)) == run(
                            self.state(),
                            exprs_events(expressions@, i as int),
                        ),
                    decreases expressions@.len() - i,
                {
                    let ghost before = self.state();
                    self.check_expression(&expressions[i]);
                    proof {
                        lemma_run_append(
                            before,
                            expr_events(expressions@[i as int]),
                            exprs_events(expressions@, i + 1),
                        );
                    }
                    i = i + 1;
                }
            },
            Statement::ORly { ya_rly, no_wai, pos } => {
                proof {
                    lemma_block_view(*ya_rly);
                }
                let ghost ya = ya_rly.view();
                let empty = ya_rly.statements.len() == 0;
                if empty {
                    let mut m = String::from_str("warning: YA RLY block is empty");
                    push_pos(&mut m, *pos);
                    self.note(m);
                }
                let ghost st1 = self.state();
                proof {
                    if empty {
                        lemma_run_one(st0, Event::Warn(msg_empty_ya_rly(*pos)));
                    }
                    assert(st1 == run(st0, warn_if(ya.len() == 0, msg_empty_ya_rly(*pos))));
                }
                self.check_block(ya_rly);
                let ghost st2 = self.state();
                let ghost tail = match stmt_view(*stmt) {
                    StmtModel::ORly { no_wai: Some(b), .. } => stmts_events(b, 0),
                    _ => seq![Event::Warn(msg_no_else(*pos))],
                };
                match no_wai {
                    Some(b) => self.check_block(b),
                    None => {
                        let mut m = String::from_str("warning: O RLY? without NO WAI branch");
                        push_pos(&mut m, *pos);
                        self.note(m);
                        proof {
                            lemma_run_one(st2, Event::Warn(msg_no_else(*pos)));
                        }
                    },
                }
                proof {
                    let a = warn_if(ya.len() == 0, msg_empty_ya_rly(*pos));
                    let b = stmts_events(ya, 0);
                    lemma_run_append(st0, a, b);
                    lemma_run_append(st0, a + b, tail);
                }
            },
            Statement::Loop { body, pos } => {
                proof {
                    lemma_block_view(*body);
                }
                let empty = body.statements.len() == 0;
                if empty {
                    let mut m = String::from_str("warning: empty loop body");
                    push_pos(&mut m, *pos);
                    self.note(m);
                }
                proof {
                    if empty {
                        lemma_run_one(st0, Event::Warn(msg_empty_loop(*pos)));
                    }
                }
                self.check_block(body);
                proof {
                    lemma_run_append(
                        st0,
                        warn_if(body.view().len() == 0, msg_empty_loop(*pos)),
                        stmts_events(body.view(), 0),
                    );
                }
            },
            Statement::ExpressionStatement { expression, pos: _ } => {
                self.check_expression(expression);
                let ghost st1 = self.state();
                let ghost tail = match constant_warning(*expression) {
                    Some(m) => seq![Event::Warn(m)],
                    None => Seq::<Event>::empty(),
                };
                match self.check_constant_expression(expression) {
                    Some(m) => {
                        self.note(m);
                        proof {
                            lemma_run_one(st1, Event::Warn(m@));
                        }
                    },
                    None => {},
                }
                proof {
                    lemma_run_append(st0, expr_events(*expression), tail);
                }
            },
        }
    }

    /// Checks the variables that an expression reads.
    fn check_expression(&mut self, expr: &Expression)
        ensures
            final(self).state() == run(old(self).state(), expr_events(*expr)),
        decreases expr,
    {
        let ghost st0 = self.state();
        match expr {
            Expression::Identifier(name, pos) => {
                self.read_var(name, *pos);
                proof {
                    lemma_run_one(st0, Event::Use(name@, *pos));
                }
            },
            Expression::Number(..) => {},
            Expression::String(..) => {},
            Expression::Sum { left, right, .. }
            | Expression::Diff { left, right, .. }
            | Expression::Produkt { left, right, .. }
            | Expression::Quoshunt { left, right, .. }
            | Expression::Mod { left, right, .. }
            | Expression::BothSaem { left, right, .. }
            | Expression::Diffrint { left, right, .. } => {
                self.check_expression(left);
                self.check_expression(right);
                proof {
                    lemma_run_append(st0, expr_events(**left), expr_events(**right));
                }
            },
        }
    }

    /// The warning for a comparison whose outcome its literal operands fix, if any.
    fn check_constant_expression(&self, expr: &Expression) -> (r: Option<String>)
        ensures
            match r {
                Some(m) => constant_warning(*expr) == Some(m@),
                None => constant_warning(*expr) is None,
            },
    {
        match expr {
            Expression::BothSaem { left, right, pos } => match (&**left, &**right) {
                (Expression::Number(a, _), Expression::Number(b, _)) => {
                    let mut m = String::from_str("warning: BOTH SAEM ");
                    m.append(a.as_str());
                    m.append(" AN ");
                    m.append(b.as_str());
                    m.append(if *a == *b { " is always true" } else { " is always false" });
                    push_pos(&mut m, *pos);
                    assert(m@ =~= "warning: BOTH SAEM "@ + a@ + " AN "@ + b@ + truth_word(a@ == b@) + at_pos(*pos));
                    Some(m)
                },
                (Expression::String(a, _), Expression::String(b, _)) => {
                    let mut m = String::from_str("warning: BOTH SAEM ");
                    m.append("\"");
                    m.append(a.as_str());
                    m.append("\"");
                    m.append(" AN ");
                    m.append("\"");
                    m.append(b.as_str());
                    m.append("\"");
                    m.append(if *a == *b { " is always true" } else { " is always false" });
                    push_pos(&mut m, *pos);
                    assert(m@ =~= "warning: BOTH SAEM "@ + quoted(a@) + " AN "@ + quoted(b@)
                        + truth_word(a@ == b@) + at_pos(*pos));
                    Some(m)
                },
                (Expression::Identifier(a, _), Expression::Identifier(b, _)) => {
                    if *a == *b && (str_eq(a.as_str(), "WIN") || str_eq(a.as_str(), "FAIL")) {
                        let mut m = String::from_str("warning: BOTH SAEM ");
                        m.append(a.as_str());
                        m.append(" AN ");
                        m.append(b.as_str());
                        m.append(" is always true");
                        push_pos(&mut m, *pos);
                        assert(m@ =~= "warning: BOTH SAEM "@ + a@ + " AN "@ + b@ + truth_word(true)
                            + at_pos(*pos));
                        Some(m)
                    } else {
                        None
                    }
                },
                _ => None,
            },
            Expression::Diffrint { left, right, pos } => match (&**left, &**right) {
                (Expression::Number(a, _), Expression::Number(b, _)) => {
                    let mut m = String::from_str("warning: DIFFRINT ");
                    m.append(a.as_str());
                    m.append(" AN ");
                    m.append(b.as_str());
                    m.append(if *a == *b { " is always false" } else { " is always true" });
                    push_pos(&mut m, *pos);
                    assert(m@ =~= "warning: DIFFRINT "@ + a@ + " AN "@ + b@ + truth_word(a@ != b@) + at_pos(*pos));
                    Some(m)
                },
                (Expression::String(a, _), Expression::String(b, _)) => {
                    let mut m = String::from_str("warning: DIFFRINT ");
                    m.append("\"");
                    m.append(a.as_str());
                    m.append("\"");
                    m.append(" AN ");
                    m.append("\"");
                    m.append(b.as_str());
                    m.append("\"");
                    m.append(if *a == *b { " is always false" } else { " is always true" });
                    push_pos(&mut m, *pos);
                    assert(m@ =~= "warning: DIFFRINT "@ + quoted(a@) + " AN "@ + quoted(b@)
                        + truth_word(a@ != b@) + at_pos(*pos));
                    Some(m)
                },
                (Expression::Identifier(a, _), Expression::Identifier(b, _)) => {
                    if *a == *b && (str_eq(a.as_str(), "WIN") || str_eq(a.as_str(), "FAIL")) {
                        let mut m = String::from_str("warning: DIFFRINT ");
                        m.append(a.as_str());
                        m.append(" AN ");
                        m.append(b.as_str());
                        m.append(" is always false");
                        push_pos(&mut m, *pos);
                        assert(m@ =~= "warning: DIFFRINT "@ + a@ + " AN "@ + b@ + truth_word(false)
                            + at_pos(*pos));
                        Some(m)
                    } else {
                        None
                    }
                },
                _ => None,
            },
            _ => None,
        }
    }

    /// Adds one warning for each declared variable that was never used.
    fn check_unused_variables(&mut self)
        ensures
            final(self).state().errors == old(self).state().errors,
            final(self).state().declared == old(self).state().declared,
            final(self).state().used == old(self).state().used,
            final(self).state().warnings == old(self).state().warnings + unused_warnings(
                old(self).state().declared,
                old(self).state().used,
                old(self).state().declared.len() as int,
            ),
    {
        let ghost st0 = self.state();
        let mut i: usize = 0;
        proof {
            assert(st0.warnings + Seq::<Seq<char>>::empty() =~= st0.warnings);
        }
        while i < self.declared_vars.len()
            invariant
                i <= self.declared_vars@.len(),
                self.state().errors == st0.errors,
                self.state().declared == st0.declared,
                self.state().used == st0.used,
                self.state().warnings == st0.warnings + unused_warnings(
                    st0.declared,
                    st0.used,
                    i as int,
                ),
            decreases self.declared_vars@.len() - i,
        {
            let name = self.declared_vars[i].clone();
            if !contains(&self.used_vars, &name) {
                let mut m = String::from_str("warning: variable '");
                m.append(name.as_str());
                m.append("' declared but never used");
                let ghost w = self.state().warnings;
                self.note(m);
                proof {
                    assert(st0.declared[i as int] == name@);
                    assert(st0.warnings + unused_warnings(st0.declared, st0.used, i + 1) =~= w.push(
                        m@,
                    ));
                }
            } else {
                assert(st0.declared[i as int] == name@);
            }
            i = i + 1;
        }
    }
}

} // verus!
