//! The syntax tree, its mathematical model and its printed form.
use vstd::prelude::*;
use vstd::string::*;

use crate::token::SyntaxToken;

verus! {

// ── AST Definition ───────────────────────────────────────────────────────────────
#[derive(Debug, PartialEq)]
pub struct Program(pub Vec<FuncDef>);

// ── Function Definition ───────────────────────────────────────────────────────────────
#[derive(Debug, PartialEq)]
pub struct FuncDef {
    pub name: Id,
    pub params: Vec<Param>,
    pub ret: Type,
    pub body: Vec<Stmt>,
    pub ret_stmt: ReturnStmt,
}

#[derive(Debug, PartialEq)]
pub struct Param(pub Id, pub Type);

// ── Statement ───────────────────────────────────────────────────────────────
#[derive(Debug, PartialEq)]
pub enum Stmt {
    Assign(Id, Expr),
    Let(Id, Type, Expr),
    If(Branch, Vec<Branch>, Option<Vec<Stmt>>),
    While(Branch),
}

#[derive(Debug, PartialEq)]
pub struct Branch(pub Expr, pub Vec<Stmt>);

#[derive(Debug, PartialEq)]
pub struct ReturnStmt(pub Expr);

// ── Expression ───────────────────────────────────────────────────────────────
pub type Expr = CompExpr;

#[derive(Debug, PartialEq)]
pub enum CompOp {
    Grt,
    Equality,
}

#[derive(Debug, PartialEq)]
pub struct CompExpr(pub ArithExpr, pub Option<(CompOp, ArithExpr)>);

#[derive(Debug, PartialEq)]
pub enum ArithOp {
    Plus,
    Minus,
}

#[derive(Debug, PartialEq)]
pub struct ArithExpr(pub AtomExpr, pub Vec<(ArithOp, AtomExpr)>);

#[derive(Debug, PartialEq)]
pub enum AtomExpr {
    Id(Id),
    Num(Num),
    Group(Box<Expr>),
    Call(Id, Vec<Expr>),
}

// ── Type ───────────────────────────────────────────────────────────────
#[derive(Debug, PartialEq)]
pub enum Type {
    Int,
}

// ── Terminals ───────────────────────────────────────────────────────────────
#[derive(Debug, PartialEq)]
pub struct Id {
    pub st: SyntaxToken,
    pub name: String,
}

#[derive(Debug, PartialEq)]
pub struct Num {
    pub st: SyntaxToken,
    pub name: String,
}

// ── Mathematical model of the tree ───────────────────────────────────────────
/// An arithmetic expression: an atom followed by operators and atoms.
pub struct ArithM {
    pub head: AtomM,
    pub tail: Seq<(ArithOp, AtomM)>,
}

pub enum AtomM {
    Id(Id),
    Num(Num),
    Group(Box<ExprM>),
    Call(Id, Seq<ExprM>),
}

/// An expression: an arithmetic expression, compared with a second one or not.
pub struct ExprM {
    pub lhs: ArithM,
    pub rhs: Option<(CompOp, ArithM)>,
}

/// A condition and the statements it guards.
pub struct BranchM {
    pub cond: ExprM,
    pub body: Seq<StmtM>,
}

pub enum StmtM {
    Assign(Id, ExprM),
    Let(Id, Type, ExprM),
    If(BranchM, Seq<BranchM>, Option<Seq<StmtM>>),
    While(BranchM),
}

pub struct FuncM {
    pub name: Id,
    pub params: Seq<Param>,
    pub ret: Type,
    pub body: Seq<StmtM>,
    pub ret_expr: ExprM,
}

impl CompExpr {
    pub open spec fn model(self) -> ExprM
        decreases self,
    {
        ExprM {
            lhs: self.0.model(),
            rhs: match self.1 {
                Some((op, rhs)) => Some((op, rhs.model())),
                None => None,
            },
        }
    }
}

impl ArithExpr {
    pub open spec fn model(self) -> ArithM
        decreases self,
    {
        ArithM { head: self.0.model(), tail: arith_tail_model(self.1@) }
    }
}

pub open spec fn arith_tail_model(s: Seq<(ArithOp, AtomExpr)>) -> Seq<(ArithOp, AtomM)>
    decreases s,
{
    if s.len() == 0 {
        Seq::empty()
    } else {
        arith_tail_model(s.drop_last()).push((s.last().0, s.last().1.model()))
    }
}

impl AtomExpr {
    pub open spec fn model(self) -> AtomM
        decreases self,
    {
        match self {
            AtomExpr::Id(id) => AtomM::Id(id),
            AtomExpr::Num(n) => AtomM::Num(n),
            AtomExpr::Group(e) => AtomM::Group(Box::new((*e).model())),
            AtomExpr::Call(f, args) => AtomM::Call(f, exprs_model(args@)),
        }
    }
}

pub open spec fn exprs_model(s: Seq<CompExpr>) -> Seq<ExprM>
    decreases s,
{
    if s.len() == 0 {
        Seq::empty()
    } else {
        exprs_model(s.drop_last()).push(s.last().model())
    }
}


impl Branch {
    pub open spec fn model(self) -> BranchM
        decreases self,
    {
        BranchM { cond: self.0.model(), body: stmts_model(self.1@) }
    }
}

impl Stmt {
    pub open spec fn model(self) -> StmtM
        decreases self,
    {
        match self {
            Stmt::Assign(id, e) => StmtM::Assign(id, e.model()),
            Stmt::Let(id, t, e) => StmtM::Let(id, t, e.model()),
            Stmt::If(b, elifs, els) => StmtM::If(
                b.model(),
                branches_model(elifs@),
                match els {
                    Some(ss) => Some(stmts_model(ss@)),
                    None => None,
                },
            ),
            Stmt::While(b) => StmtM::While(b.model()),
        }
    }
}

pub open spec fn stmts_model(s: Seq<Stmt>) -> Seq<StmtM>
    decreases s,
{
    if s.len() == 0 {
        Seq::empty()
    } else {
        stmts_model(s.drop_last()).push(s.last().model())
    }
}

pub open spec fn branches_model(s: Seq<Branch>) -> Seq<BranchM>
    decreases s,
{
    if s.len() == 0 {
        Seq::empty()
    } else {
        branches_model(s.drop_last()).push(s.last().model())
    }
}

impl FuncDef {
    pub open spec fn model(self) -> FuncM {
        FuncM {
            name: self.name,
            params: self.params@,
            ret: self.ret,
            body: stmts_model(self.body@),
            ret_expr: self.ret_stmt.0.model(),
        }
    }
}

pub open spec fn funcs_model(s: Seq<FuncDef>) -> Seq<FuncM>
    decreases s.len(),
{
    if s.len() == 0 {
        Seq::empty()
    } else {
        funcs_model(s.drop_last()).push(s.last().model())
    }
}

impl Program {
    pub open spec fn model(self) -> Seq<FuncM> {
        funcs_model(self.0@)
    }
}


// ── Printed form ─────────────────────────────────────────────────────────────
/// The texts `strs` with `del` between each two.
pub open spec fn join(strs: Seq<Seq<char>>, del: Seq<char>) -> Seq<char>
    decreases strs.len(),
{
    if strs.len() == 0 {
        Seq::empty()
    } else if strs.len() == 1 {
        strs[0]
    } else {
        join(strs.drop_last(), del) + del + strs.last()
    }
}

/// A list as it is printed between brackets: a single space when empty, otherwise the items
/// joined by `del` with a space on each side.
pub open spec fn list_text(strs: Seq<Seq<char>>, del: Seq<char>) -> Seq<char> {
    if strs.len() == 0 {
        " "@
    } else {
        " "@ + join(strs, del) + " "@
    }
}

pub open spec fn views(strs: Seq<String>) -> Seq<Seq<char>> {
    strs.map_values(|s: String| s@)
}

pub open spec fn comp_op_text(op: CompOp) -> Seq<char> {
    match op {
        CompOp::Grt => ">"@,
        CompOp::Equality => "=="@,
    }
}

pub open spec fn arith_op_text(op: ArithOp) -> Seq<char> {
    match op {
        ArithOp::Plus => "+"@,
        ArithOp::Minus => "-"@,
    }
}

pub open spec fn type_text(t: Type) -> Seq<char> {
    match t {
        Type::Int => "int"@,
    }
}

pub open spec fn expr_text(e: ExprM) -> Seq<char>
    decreases e,
{
    arith_text(e.lhs) + match e.rhs {
        Some((op, rhs)) => " "@ + comp_op_text(op) + " "@ + arith_text(rhs),
        None => Seq::empty(),
    }
}

pub open spec fn arith_text(a: ArithM) -> Seq<char>
    decreases a,
{
    atom_text(a.head) + arith_tail_text(a.tail)
}

pub open spec fn arith_tail_text(t: Seq<(ArithOp, AtomM)>) -> Seq<char>
    decreases t,
{
    if t.len() == 0 {
        Seq::empty()
    } else {
        arith_tail_text(t.drop_last()) + " "@ + arith_op_text(t.last().0) + " "@ + atom_text(
            t.last().1,
        )
    }
}

pub open spec fn atom_text(a: AtomM) -> Seq<char>
    decreases a,
{
    match a {
        AtomM::Id(id) => id.name@,
        AtomM::Num(n) => n.name@,
        AtomM::Group(e) => "( "@ + expr_text(*e) + " )"@,
        AtomM::Call(f, args) => f.name@ + " ("@ + list_text(exprs_text(args), " , "@) + ")"@,
    }
}

pub open spec fn exprs_text(es: Seq<ExprM>) -> Seq<Seq<char>>
    decreases es,
{
    if es.len() == 0 {
        Seq::empty()
    } else {
        exprs_text(es.drop_last()).push(expr_text(es.last()))
    }
}

pub open spec fn stmt_text(st: StmtM) -> Seq<char>
    decreases st,
{
    match st {
        StmtM::Assign(id, e) => id.name@ + " := "@ + expr_text(e) + " ;"@,
        StmtM::Let(id, t, e) => "let "@ + id.name@ + " : "@ + type_text(t) + " := "@ + expr_text(e)
            + " ;"@,
        StmtM::If(b, elifs, els) => "if "@ + branch_text(b) + join(elifs_text(elifs), ""@)
            + match els {
            Some(ss) => " else {"@ + list_text(stmts_text(ss), " "@) + "}"@,
            None => Seq::empty(),
        },
        StmtM::While(b) => "while "@ + branch_text(b),
    }
}

pub open spec fn branch_text(b: BranchM) -> Seq<char>
    decreases b,
{
    "( "@ + expr_text(b.cond) + " ) {"@ + list_text(stmts_text(b.body), " "@) + "}"@
}

pub open spec fn stmts_text(ss: Seq<StmtM>) -> Seq<Seq<char>>
    decreases ss,
{
    if ss.len() == 0 {
        Seq::empty()
    } else {
        stmts_text(ss.drop_last()).push(stmt_text(ss.last()))
    }
}

/// Each `elif` branch as it is printed after the `if` branch: a space, `elif`, a space and the
/// branch. The pieces are written one after another.
pub open spec fn elifs_text(bs: Seq<BranchM>) -> Seq<Seq<char>>
    decreases bs,
{
    if bs.len() == 0 {
        Seq::empty()
    } else {
        elifs_text(bs.drop_last()).push(" elif "@ + branch_text(bs.last()))
    }
}

pub open spec fn param_text(p: Param) -> Seq<char> {
    p.0.name@ + " : "@ + type_text(p.1)
}

pub open spec fn params_text(ps: Seq<Param>) -> Seq<Seq<char>>
    decreases ps.len(),
{
    if ps.len() == 0 {
        Seq::empty()
    } else {
        params_text(ps.drop_last()).push(param_text(ps.last()))
    }
}

pub open spec fn return_text(e: ExprM) -> Seq<char> {
    "return "@ + expr_text(e) + " ;"@
}

pub open spec fn func_text(f: FuncM) -> Seq<char> {
    "fn "@ + f.name.name@ + " ("@ + list_text(params_text(f.params), " , "@)
        + ") -> "@ + type_text(f.ret) + " {"@ + list_text(stmts_text(f.body), " "@) + return_text(
        f.ret_expr,
    ) + " }"@
}

/// A program as it is printed: its function definitions separated by spaces.
pub open spec fn program_text(fs: Seq<FuncM>) -> Seq<char> {
    join(funcs_text(fs), " "@)
}

pub open spec fn funcs_text(fs: Seq<FuncM>) -> Seq<Seq<char>>
    decreases fs.len(),
{
    if fs.len() == 0 {
        Seq::empty()
    } else {
        funcs_text(fs.drop_last()).push(func_text(fs.last()))
    }
}

/// The texts `strs` with `del` between each two.
pub fn join_strings(strs: &Vec<String>, del: &str) -> (s: String)
    ensures
        s@ == join(views(strs@), del@),
{
    let mut s = String::new();
    let n = strs.len();
    let mut i: usize = 0;
    while i < n
        invariant
            n == strs@.len(),
            i <= n,
            s@ == join(views(strs@.take(i as int)), del@),
        decreases n - i,
    {
        proof {
            assert(views(strs@.take(i + 1)).drop_last() =~= views(strs@.take(i as int)));
            assert(views(strs@.take(i + 1)).last() == strs@[i as int]@);
        }
        if i > 0 {
            s.append(del);
        } else {
            assert(views(strs@.take(0)) =~= Seq::<Seq<char>>::empty());
            assert(s@ =~= Seq::<char>::empty());
        }
        s.append(strs[i].as_str());
        proof {
            if i == 0 {
                assert(s@ =~= strs@[0]@);
            }
        }
        i = i + 1;
    }
    assert(strs@.take(n as int) =~= strs@);
    s
}

/// A list as it is printed between brackets: a single space when empty, otherwise the items
/// joined by `del` with a space on each side.
pub fn format_list_str(strs: Vec<String>, del: &str) -> (s: String)
    ensures
        s@ == list_text(views(strs@), del@),
{
    if strs.len() == 0 {
        String::from_str(" ")
    } else {
        let mut s = String::from_str(" ");
        let joined = join_strings(&strs, del);
        s.append(joined.as_str());
        s.append(" ");
        s
    }
}


impl CompOp {
    pub fn to_string(&self) -> (s: String)
        ensures
            s@ == comp_op_text(*self),
    {
        match self {
            CompOp::Grt => String::from_str(">"),
            CompOp::Equality => String::from_str("=="),
        }
    }
}

impl ArithOp {
    pub fn to_string(&self) -> (s: String)
        ensures
            s@ == arith_op_text(*self),
    {
        match self {
            ArithOp::Plus => String::from_str("+"),
            ArithOp::Minus => String::from_str("-"),
        }
    }
}

impl Type {
    pub fn to_string(&self) -> (s: String)
        ensures
            s@ == type_text(*self),
    {
        match self {
            Type::Int => String::from_str("int"),
        }
    }
}

impl Id {
    pub fn to_string(&self) -> (s: String)
        ensures
            s@ == self.name@,
    {
        self.name.clone()
    }
}

impl Num {
    pub fn to_string(&self) -> (s: String)
        ensures
            s@ == self.name@,
    {
        self.name.clone()
    }
}

impl CompExpr {
    /// The expression with one space between each two tokens.
    pub fn to_string(&self) -> (s: String)
        ensures
            s@ == expr_text(self.model()),
        decreases self,
    {
        let mut s = self.0.to_string();
        if let Some((op, expr)) = &self.1 {
            s.append(" ");
            let o = op.to_string();
            s.append(o.as_str());
            s.append(" ");
            let e = expr.to_string();
            s.append(e.as_str());
        }
        s
    }
}

impl ArithExpr {
    pub fn to_string(&self) -> (s: String)
        ensures
            s@ == arith_text(self.model()),
        decreases self,
    {
        let mut s = self.0.to_string();
        let n = self.1.len();
        let mut i: usize = 0;
        while i < n
            invariant
                n == self.1@.len(),
                i <= n,
                s@ == atom_text(self.0.model()) + arith_tail_text(arith_tail_model(self.1@.take(i as int))),
            decreases n - i,
        {
            let (op, expr) = &self.1[i];
            let ghost prev = s@;
            proof {
                assert(self.1@.take(i + 1).drop_last() =~= self.1@.take(i as int));
                assert(self.1@.take(i + 1).last() == self.1@[i as int]);
            }
            s.append(" ");
            let o = op.to_string();
            s.append(o.as_str());
            s.append(" ");
            let e = expr.to_string();
            s.append(e.as_str());
            proof {
                let t = arith_tail_model(self.1@.take(i + 1));
                assert(t.drop_last() == arith_tail_model(self.1@.take(i as int)));
                assert(t.last() == (*op, expr.model()));
                assert(s@ =~= prev + " "@ + arith_op_text(*op) + " "@ + atom_text(expr.model()));
            }
            i = i + 1;
        }
        assert(self.1@.take(n as int) =~= self.1@);
        s
    }
}

impl AtomExpr {
    #[verifier::loop_isolation(false)]
    pub fn to_string(&self) -> (s: String)
        ensures
            s@ == atom_text(self.model()),
        decreases self,
    {
        match self {
            AtomExpr::Id(id) => id.to_string(),
            AtomExpr::Num(num) => num.to_string(),
            AtomExpr::Group(expr) => {
                let mut s = String::from_str("( ");
                let e = expr.to_string();
                s.append(e.as_str());
                s.append(" )");
                s
            },
            AtomExpr::Call(name, exprs) => {
                let mut args: Vec<String> = Vec::new();
                let n = exprs.len();
                let mut i: usize = 0;
                while i < n
                    invariant
                        n == exprs@.len(),
                        i <= n,
                        views(args@) == exprs_text(exprs_model(exprs@.take(i as int))),
                    decreases n - i,
                {
                    proof {
                        assert(decreases_to!(*exprs => exprs@));
                        assert(decreases_to!(exprs@ => exprs@[i as int]));
                        assert(decreases_to!(*self => exprs@));
                        assert(decreases_to!(*self => exprs@[i as int]));
                    }
                    let e = exprs[i].to_string();
                    proof {
                        assert(exprs@.take(i + 1).last() == exprs@[i as int]);
                        assert(exprs@.take(i + 1).drop_last() =~= exprs@.take(i as int));
                        assert(exprs_model(exprs@.take(i + 1)).drop_last() == exprs_model(exprs@.take(i as int)));
                        assert(exprs_model(exprs@.take(i + 1)).last() == exprs@[i as int].model());
                        assert(views(args@.push(e)) =~= views(args@).push(e@));
                    }
                    args.push(e);
                    i = i + 1;
                }
                assert(exprs@.take(n as int) =~= exprs@);
                let mut s = name.to_string();
                s.append(" (");
                let a = format_list_str(args, " , ");
                s.append(a.as_str());
                s.append(")");
                s
            },
        }
    }
}


/// The printed forms of the statements `body`, one item each.
#[verifier::loop_isolation(false)]
fn stmts_to_strings(body: &Vec<Stmt>) -> (v: Vec<String>)
    ensures
        views(v@) == stmts_text(stmts_model(body@)),
    decreases body, 0int,
{
    let mut v: Vec<String> = Vec::new();
    let n = body.len();
    let mut i: usize = 0;
    while i < n
        invariant
            n == body@.len(),
            i <= n,
            views(v@) == stmts_text(stmts_model(body@.take(i as int))),
        decreases n - i,
    {
        proof {
            assert(decreases_to!(*body => body@));
            assert(decreases_to!(body@ => body@[i as int]));
        }
        let t = body[i].to_string();
        proof {
            assert(body@.take(i + 1).last() == body@[i as int]);
            assert(body@.take(i + 1).drop_last() =~= body@.take(i as int));
            assert(stmts_model(body@.take(i + 1)).drop_last() == stmts_model(body@.take(i as int)));
            assert(stmts_model(body@.take(i + 1)).last() == body@[i as int].model());
            assert(views(v@.push(t)) =~= views(v@).push(t@));
        }
        v.push(t);
        i = i + 1;
    }
    assert(body@.take(n as int) =~= body@);
    v
}

impl Stmt {
    /// The statement with one space between each two tokens.
    #[verifier::loop_isolation(false)]
    pub fn to_string(&self) -> (s: String)
        ensures
            s@ == stmt_text(self.model()),
        decreases self, 1int,
    {
        match self {
            Stmt::Assign(var, expr) => {
                let mut s = var.to_string();
                s.append(" := ");
                let e = expr.to_string();
                s.append(e.as_str());
                s.append(" ;");
                s
            },
            Stmt::Let(var, kind, expr) => {
                let mut s = String::from_str("let ");
                let v = var.to_string();
                s.append(v.as_str());
                s.append(" : ");
                let k = kind.to_string();
                s.append(k.as_str());
                s.append(" := ");
                let e = expr.to_string();
                s.append(e.as_str());
                s.append(" ;");
                s
            },
            Stmt::If(if_branch, elif_branch, else_branch) => {
                let mut else_ifs: Vec<String> = Vec::new();
                let n = elif_branch.len();
                let mut i: usize = 0;
                while i < n
                    invariant
                        n == elif_branch@.len(),
                        i <= n,
                        views(else_ifs@) == elifs_text(branches_model(elif_branch@.take(i as int))),
                    decreases n - i,
                {
                    proof {
                        assert(decreases_to!(*elif_branch => elif_branch@));
                        assert(decreases_to!(elif_branch@ => elif_branch@[i as int]));
                    }
                    let mut t = String::from_str(" elif ");
                    let b = elif_branch[i].to_string();
                    t.append(b.as_str());
                    proof {
                        assert(elif_branch@.take(i + 1).last() == elif_branch@[i as int]);
                        assert(elif_branch@.take(i + 1).drop_last() =~= elif_branch@.take(i as int));
                        assert(branches_model(elif_branch@.take(i + 1)).drop_last() == branches_model(elif_branch@.take(i as int)));
                        assert(branches_model(elif_branch@.take(i + 1)).last() == elif_branch@[i as int].model());
                        assert(views(else_ifs@.push(t)) =~= views(else_ifs@).push(t@));
                    }
                    else_ifs.push(t);
                    i = i + 1;
                }
                assert(elif_branch@.take(n as int) =~= elif_branch@);
                let mut s = String::from_str("if ");
                let b = if_branch.to_string();
                s.append(b.as_str());
                let j = join_strings(&else_ifs, "");
                s.append(j.as_str());
                if let Some(stmts) = else_branch {
                    proof {
                        assert(decreases_to!(*self => *stmts));
                    }
                    let strs = stmts_to_strings(stmts);
                    let stmts_str = format_list_str(strs, " ");
                    s.append(" else {");
                    s.append(stmts_str.as_str());
                    s.append("}");
                }
                s
            },
            Stmt::While(branch) => {
                let mut s = String::from_str("while ");
                let b = branch.to_string();
                s.append(b.as_str());
                s
            },
        }
    }
}

impl Branch {
    /// The condition in brackets, then the statements in braces.
    pub fn to_string(&self) -> (s: String)
        ensures
            s@ == branch_text(self.model()),
        decreases self, 1int,
    {
        let strs = stmts_to_strings(&self.1);
        let stmts_str = format_list_str(strs, " ");
        let mut s = String::from_str("( ");
        let e = self.0.to_string();
        s.append(e.as_str());
        s.append(" ) {");
        s.append(stmts_str.as_str());
        s.append("}");
        s
    }
}

impl ReturnStmt {
    pub fn to_string(&self) -> (s: String)
        ensures
            s@ == return_text(self.0.model()),
    {
        let mut s = String::from_str("return ");
        let e = self.0.to_string();
        s.append(e.as_str());
        s.append(" ;");
        s
    }
}

impl Param {
    pub fn to_string(&self) -> (s: String)
        ensures
            s@ == param_text(*self),
    {
        let mut s = self.0.to_string();
        s.append(" : ");
        let t = self.1.to_string();
        s.append(t.as_str());
        s
    }
}

impl FuncDef {
    /// The definition with one space between each two tokens.
    pub fn to_string(&self) -> (s: String)
        ensures
            s@ == func_text(self.model()),
    {
        let mut params: Vec<String> = Vec::new();
        let n = self.params.len();
        let mut i: usize = 0;
        while i < n
            invariant
                n == self.params@.len(),
                i <= n,
                views(params@) == params_text(self.params@.take(i as int)),
            decreases n - i,
        {
            let t = self.params[i].to_string();
            proof {
                assert(self.params@.take(i + 1).drop_last() =~= self.params@.take(i as int));
                assert(self.params@.take(i + 1).last() == self.params@[i as int]);
                assert(views(params@.push(t)) =~= views(params@).push(t@));
            }
            params.push(t);
            i = i + 1;
        }
        assert(self.params@.take(n as int) =~= self.params@);
        let stmts = stmts_to_strings(&self.body);
        let params_str = format_list_str(params, " , ");
        let stmts_str = format_list_str(stmts, " ");
        let mut s = String::from_str("fn ");
        let name = self.name.to_string();
        s.append(name.as_str());
        s.append(" (");
        s.append(params_str.as_str());
        s.append(") -> ");
        let ret = self.ret.to_string();
        s.append(ret.as_str());
        s.append(" {");
        s.append(stmts_str.as_str());
        let r = self.ret_stmt.to_string();
        s.append(r.as_str());
        s.append(" }");
        s
    }
}

impl Program {
    /// The program with one space between each two tokens.
    pub fn to_string(&self) -> (s: String)
        ensures
            s@ == program_text(self.model()),
    {
        let mut func_defs: Vec<String> = Vec::new();
        let n = self.0.len();
        let mut i: usize = 0;
        while i < n
            invariant
                n == self.0@.len(),
                i <= n,
                views(func_defs@) == funcs_text(funcs_model(self.0@.take(i as int))),
            decreases n - i,
        {
            let t = self.0[i].to_string();
            proof {
                assert(self.0@.take(i + 1).drop_last() =~= self.0@.take(i as int));
                assert(self.0@.take(i + 1).last() == self.0@[i as int]);
                assert(funcs_model(self.0@.take(i + 1)) == funcs_model(self.0@.take(i as int)).push(self.0@[i as int].model()));
                assert(funcs_model(self.0@.take(i + 1)).drop_last() =~= funcs_model(self.0@.take(i as int)));
                assert(views(func_defs@.push(t)) =~= views(func_defs@).push(t@));
            }
            func_defs.push(t);
            i = i + 1;
        }
        assert(self.0@.take(n as int) =~= self.0@);
        join_strings(&func_defs, " ")
    }
}


// ── Copies ───────────────────────────────────────────────────────────────────
impl Id {
    /// A copy of the identifier.
    pub fn copy(&self) -> (r: Id)
        ensures
            r == *self,
    {
        Id { st: self.st.copy(), name: self.name.clone() }
    }
}

impl Num {
    /// A copy of the number.
    pub fn copy(&self) -> (r: Num)
        ensures
            r == *self,
    {
        Num { st: self.st.copy(), name: self.name.clone() }
    }
}

impl Type {
    /// A copy of the type.
    pub fn copy(&self) -> (r: Type)
        ensures
            r == *self,
    {
        match self {
            Type::Int => Type::Int,
        }
    }
}

impl CompOp {
    /// A copy of the operator.
    pub fn copy(&self) -> (r: CompOp)
        ensures
            r == *self,
    {
        match self {
            CompOp::Grt => CompOp::Grt,
            CompOp::Equality => CompOp::Equality,
        }
    }
}

impl ArithOp {
    /// A copy of the operator.
    pub fn copy(&self) -> (r: ArithOp)
        ensures
            r == *self,
    {
        match self {
            ArithOp::Plus => ArithOp::Plus,
            ArithOp::Minus => ArithOp::Minus,
        }
    }
}

impl Param {
    /// A copy of the parameter.
    pub fn copy(&self) -> (r: Param)
        ensures
            r == *self,
    {
        Param(self.0.copy(), self.1.copy())
    }
}

impl CompExpr {
    /// A copy of the expression.
    pub fn copy(&self) -> (r: CompExpr)
        ensures
            r.model() == self.model(),
        decreases self,
    {
        let lhs = self.0.copy();
        let rhs = match &self.1 {
            Some(pair) => Some((pair.0.copy(), pair.1.copy())),
            None => None,
        };
        CompExpr(lhs, rhs)
    }
}

impl ArithExpr {
    /// A copy of the arithmetic expression.
    pub fn copy(&self) -> (r: ArithExpr)
        ensures
            r.model() == self.model(),
        decreases self,
    {
        let head = self.0.copy();
        let mut tail: Vec<(ArithOp, AtomExpr)> = Vec::new();
        let n = self.1.len();
        let mut i: usize = 0;
        while i < n
            invariant
                n == self.1@.len(),
                i <= n,
                arith_tail_model(tail@) == arith_tail_model(self.1@.take(i as int)),
            decreases n - i,
        {
            let pair = &self.1[i];
            let item = (pair.0.copy(), pair.1.copy());
            proof {
                assert(self.1@.take(i + 1).drop_last() =~= self.1@.take(i as int));
                assert(tail@.push(item).drop_last() =~= tail@);
            }
            tail.push(item);
            i = i + 1;
        }
        proof {
            assert(self.1@.take(n as int) =~= self.1@);
        }
        ArithExpr(head, tail)
    }
}

impl AtomExpr {
    /// A copy of the atom.
    pub fn copy(&self) -> (r: AtomExpr)
        ensures
            r.model() == self.model(),
        decreases self,
    {
        match self {
            AtomExpr::Id(id) => AtomExpr::Id(id.copy()),
            AtomExpr::Num(n) => AtomExpr::Num(n.copy()),
            AtomExpr::Group(e) => AtomExpr::Group(Box::new((**e).copy())),
            AtomExpr::Call(f, args) => AtomExpr::Call(f.copy(), copy_exprs(args)),
        }
    }
}

/// A copy of each expression.
pub fn copy_exprs(es: &Vec<CompExpr>) -> (r: Vec<CompExpr>)
    ensures
        exprs_model(r@) == exprs_model(es@),
    decreases es,
{
    let mut out: Vec<CompExpr> = Vec::new();
    let n = es.len();
    let mut i: usize = 0;
    while i < n
        invariant
            n == es@.len(),
            i <= n,
            exprs_model(out@) == exprs_model(es@.take(i as int)),
        decreases n - i,
    {
        let e = es[i].copy();
        proof {
            assert(es@.take(i + 1).drop_last() =~= es@.take(i as int));
            assert(out@.push(e).drop_last() =~= out@);
        }
        out.push(e);
        i = i + 1;
    }
    proof {
        assert(es@.take(n as int) =~= es@);
    }
    out
}

impl Branch {
    /// A copy of the branch.
    pub fn copy(&self) -> (r: Branch)
        ensures
            r.model() == self.model(),
        decreases self,
    {
        Branch(self.0.copy(), copy_stmts(&self.1))
    }
}

impl Stmt {
    /// A copy of the statement.
    pub fn copy(&self) -> (r: Stmt)
        ensures
            r.model() == self.model(),
        decreases self,
    {
        match self {
            Stmt::Assign(id, e) => Stmt::Assign(id.copy(), e.copy()),
            Stmt::Let(id, t, e) => Stmt::Let(id.copy(), t.copy(), e.copy()),
            Stmt::If(b, elifs, els) => {
                let els_copy = match els {
                    Some(ss) => Some(copy_stmts(ss)),
                    None => None,
                };
                Stmt::If(b.copy(), copy_branches(elifs), els_copy)
            },
            Stmt::While(b) => Stmt::While(b.copy()),
        }
    }
}

/// A copy of each statement.
pub fn copy_stmts(ss: &Vec<Stmt>) -> (r: Vec<Stmt>)
    ensures
        stmts_model(r@) == stmts_model(ss@),
    decreases ss,
{
    let mut out: Vec<Stmt> = Vec::new();
    let n = ss.len();
    let mut i: usize = 0;
    while i < n
        invariant
            n == ss@.len(),
            i <= n,
            stmts_model(out@) == stmts_model(ss@.take(i as int)),
        decreases n - i,
    {
        let st = ss[i].copy();
        proof {
            assert(ss@.take(i + 1).drop_last() =~= ss@.take(i as int));
            assert(out@.push(st).drop_last() =~= out@);
        }
        out.push(st);
        i = i + 1;
    }
    proof {
        assert(ss@.take(n as int) =~= ss@);
    }
    out
}

/// A copy of each branch.
pub fn copy_branches(bs: &Vec<Branch>) -> (r: Vec<Branch>)
    ensures
        branches_model(r@) == branches_model(bs@),
    decreases bs,
{
    let mut out: Vec<Branch> = Vec::new();
    let n = bs.len();
    let mut i: usize = 0;
    while i < n
        invariant
            n == bs@.len(),
            i <= n,
            branches_model(out@) == branches_model(bs@.take(i as int)),
        decreases n - i,
    {
        let b = bs[i].copy();
        proof {
            assert(bs@.take(i + 1).drop_last() =~= bs@.take(i as int));
            assert(out@.push(b).drop_last() =~= out@);
        }
        out.push(b);
        i = i + 1;
    }
    proof {
        assert(bs@.take(n as int) =~= bs@);
    }
    out
}

impl ReturnStmt {
    /// A copy of the return statement.
    pub fn copy(&self) -> (r: ReturnStmt)
        ensures
            r.0.model() == self.0.model(),
    {
        ReturnStmt(self.0.copy())
    }
}

impl FuncDef {
    /// A copy of the function definition.
    pub fn copy(&self) -> (r: FuncDef)
        ensures
            r.model() == self.model(),
    {
        let mut params: Vec<Param> = Vec::new();
        let n = self.params.len();
        let mut i: usize = 0;
        while i < n
            invariant
                n == self.params@.len(),
                i <= n,
                params@ == self.params@.take(i as int),
            decreases n - i,
        {
            let p = self.params[i].copy();
            params.push(p);
            proof {
                assert(params@ =~= self.params@.take(i + 1));
            }
            i = i + 1;
        }
        proof {
            assert(self.params@.take(n as int) =~= self.params@);
        }
        FuncDef {
            name: self.name.copy(),
            params,
            ret: self.ret.copy(),
            body: copy_stmts(&self.body),
            ret_stmt: self.ret_stmt.copy(),
        }
    }
}

impl Program {
    /// A copy of the program.
    pub fn copy(&self) -> (r: Program)
        ensures
            r.model() == self.model(),
    {
        let mut funcs: Vec<FuncDef> = Vec::new();
        let n = self.0.len();
        let mut i: usize = 0;
        while i < n
            invariant
                n == self.0@.len(),
                i <= n,
                funcs_model(funcs@) == funcs_model(self.0@.take(i as int)),
            decreases n - i,
        {
            let f = self.0[i].copy();
            proof {
                assert(self.0@.take(i + 1).drop_last() =~= self.0@.take(i as int));
                assert(funcs@.push(f).drop_last() =~= funcs@);
            }
            funcs.push(f);
            i = i + 1;
        }
        proof {
            assert(self.0@.take(n as int) =~= self.0@);
        }
        Program(funcs)
    }
}

impl Clone for Program {
    fn clone(&self) -> (r: Self)
        ensures
            r.model() == self.model(),
    {
        self.copy()
    }
}

impl Clone for FuncDef {
    fn clone(&self) -> (r: Self)
        ensures
            r.model() == self.model(),
    {
        self.copy()
    }
}

impl Clone for Stmt {
    fn clone(&self) -> (r: Self)
        ensures
            r.model() == self.model(),
    {
        self.copy()
    }
}

impl Clone for Branch {
    fn clone(&self) -> (r: Self)
        ensures
            r.model() == self.model(),
    {
        self.copy()
    }
}

impl Clone for ReturnStmt {
    fn clone(&self) -> (r: Self)
        ensures
            r.0.model() == self.0.model(),
    {
        self.copy()
    }
}

impl Clone for CompExpr {
    fn clone(&self) -> (r: Self)
        ensures
            r.model() == self.model(),
    {
        self.copy()
    }
}

impl Clone for ArithExpr {
    fn clone(&self) -> (r: Self)
        ensures
            r.model() == self.model(),
    {
        self.copy()
    }
}

impl Clone for AtomExpr {
    fn clone(&self) -> (r: Self)
        ensures
            r.model() == self.model(),
    {
        self.copy()
    }
}

impl Clone for Param {
    fn clone(&self) -> (r: Self)
        ensures
            r == *self,
    {
        self.copy()
    }
}

impl Clone for CompOp {
    fn clone(&self) -> (r: Self)
        ensures
            r == *self,
    {
        self.copy()
    }
}

impl Clone for ArithOp {
    fn clone(&self) -> (r: Self)
        ensures
            r == *self,
    {
        self.copy()
    }
}

impl Clone for Type {
    fn clone(&self) -> (r: Self)
        ensures
            r == *self,
    {
        self.copy()
    }
}

impl Clone for Id {
    fn clone(&self) -> (r: Self)
        ensures
            r == *self,
    {
        self.copy()
    }
}

impl Clone for Num {
    fn clone(&self) -> (r: Self)
        ensures
            r == *self,
    {
        self.copy()
    }
}

} // verus!
