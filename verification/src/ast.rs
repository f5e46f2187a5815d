use vstd::prelude::*;

use crate::render::{i64_chars, i64_string, join_comma, lemma_join_comma_push};
use crate::token::Identifier;
use vstd::string::StringExecFns;

verus! {

/// A statement of the language.
#[derive(Debug, PartialEq)]
pub enum Statement {
    Let { identifier: Identifier, expression: Expression },
    Return(Expression),
    Expression(Expression),
    Block(Block),
}

/// An expression of the language.
#[derive(Debug, PartialEq)]
pub enum Expression {
    Identifier(Identifier),
    Literal(Literal),
    Prefix(Prefix),
    Infix(Infix),
    If(If),
    Function(Function),
    Call(Call),
}

/// A literal expression.
#[derive(Debug, PartialEq)]
pub enum Literal {
    Int(i64),
    String(String),
    True,
    False,
    Nil,
}

/// A prefix operator.
#[derive(Debug, Clone, Copy, PartialEq, Eq, Structural)]
pub enum PrefixOperation {
    Bang,
    Minus,
}

/// An infix operator.
#[derive(Debug, Clone, Copy, PartialEq, Eq, Structural)]
pub enum InfixOperation {
    Add,
    Sub,
    Eq,
    NotEq,
    Lt,
    Lte,
    Gt,
    Gte,
    Mul,
    Div,
}

/// A prefix application, such as `-x` or `!x`.
#[derive(Debug, PartialEq)]
pub struct Prefix {
    pub expression: Box<Expression>,
    pub operation: PrefixOperation,
}

/// A function literal: parameter names and a body.
#[derive(Debug, PartialEq)]
pub struct Function {
    pub params: Vec<Identifier>,
    pub body: Block,
}

/// An ordered sequence of statements.
#[derive(Debug, PartialEq)]
pub struct Block(pub Vec<Statement>);

/// An infix application, such as `a + b`.
#[derive(Debug, PartialEq)]
pub struct Infix {
    pub left_expression: Box<Expression>,
    pub right_expression: Box<Expression>,
    pub operation: InfixOperation,
}

/// A conditional expression with an optional alternative.
#[derive(Debug, PartialEq)]
pub struct If {
    pub condition: Box<Expression>,
    pub alternative: Option<Block>,
    pub consequence: Block,
}

/// A call expression: a callee and its arguments.
#[derive(Debug, PartialEq)]
pub struct Call {
    pub function: Box<Expression>,
    pub arguments: Vec<Expression>,
}

/// The mathematical image of a statement.
pub enum StmtV {
    Let { name: Seq<char>, expr: ExprV },
    Return(ExprV),
    Expr(ExprV),
    Block(BlockV),
}

/// The mathematical image of an expression.
pub enum ExprV {
    Ident(Seq<char>),
    Lit(LitV),
    Prefix(PrefixOperation, Box<ExprV>),
    Infix(InfixOperation, Box<ExprV>, Box<ExprV>),
    If { cond: Box<ExprV>, consequence: BlockV, alternative: Option<BlockV> },
    Func { params: Seq<Seq<char>>, body: BlockV },
    Call { callee: Box<ExprV>, args: Seq<ExprV> },
}

/// The mathematical image of a literal.
pub enum LitV {
    Int(i64),
    Str(Seq<char>),
    True,
    False,
    Nil,
}

/// The mathematical image of a block.
pub struct BlockV(pub Seq<StmtV>);

/// Image of a statement.
pub open spec fn stmt_view(s: Statement) -> StmtV
    decreases s,
{
    match s {
        Statement::Let { identifier, expression } => StmtV::Let {
            name: identifier@,
            expr: expr_view(expression),
        },
        Statement::Return(e) => StmtV::Return(expr_view(e)),
        Statement::Expression(e) => StmtV::Expr(expr_view(e)),
        Statement::Block(b) => StmtV::Block(block_view(b)),
    }
}

/// Image of an expression.
pub open spec fn expr_view(e: Expression) -> ExprV
    decreases e,
{
    match e {
        Expression::Identifier(id) => ExprV::Ident(id@),
        Expression::Literal(l) => ExprV::Lit(lit_view(l)),
        Expression::Prefix(p) => ExprV::Prefix(p.operation, Box::new(expr_view(*p.expression))),
        Expression::Infix(ix) => ExprV::Infix(
            ix.operation,
            Box::new(expr_view(*ix.left_expression)),
            Box::new(expr_view(*ix.right_expression)),
        ),
        Expression::If(f) => ExprV::If {
            cond: Box::new(expr_view(*f.condition)),
            consequence: block_view(f.consequence),
            alternative: match f.alternative {
                Some(b) => Some(block_view(b)),
                None => None,
            },
        },
        Expression::Function(f) => ExprV::Func {
            params: idents_view(f.params@),
            body: block_view(f.body),
        },
        Expression::Call(c) => ExprV::Call {
            callee: Box::new(expr_view(*c.function)),
            args: exprs_view(c.arguments@),
        },
    }
}

/// Image of a literal.
pub open spec fn lit_view(l: Literal) -> LitV {
    match l {
        Literal::Int(n) => LitV::Int(n),
        Literal::String(s) => LitV::Str(s@),
        Literal::True => LitV::True,
        Literal::False => LitV::False,
        Literal::Nil => LitV::Nil,
    }
}

/// Image of a block.
pub open spec fn block_view(b: Block) -> BlockV
    decreases b,
{
    BlockV(stmts_view(b.0@))
}

/// Image of a statement sequence, elementwise.
pub open spec fn stmts_view(ss: Seq<Statement>) -> Seq<StmtV>
    decreases ss,
{
    if ss.len() == 0 {
        Seq::empty()
    } else {
        seq![stmt_view(ss[0])] + stmts_view(ss.drop_first())
    }
}

/// Image of an expression sequence, elementwise.
pub open spec fn exprs_view(es: Seq<Expression>) -> Seq<ExprV>
    decreases es,
{
    if es.len() == 0 {
        Seq::empty()
    } else {
        seq![expr_view(es[0])] + exprs_view(es.drop_first())
    }
}

/// Image of a parameter list: each identifier becomes its name.
pub open spec fn idents_view(ids: Seq<Identifier>) -> Seq<Seq<char>> {
    ids.map_values(|id: Identifier| id@)
}

/// Appending a statement appends its image.
pub proof fn lemma_stmts_view_push(ss: Seq<Statement>, x: Statement)
    ensures
        stmts_view(ss.push(x)) == stmts_view(ss).push(stmt_view(x)),
    decreases ss.len(),
{
    if ss.len() == 0 {
        assert(ss.push(x)[0] == x);
        assert(ss.push(x).drop_first() =~= Seq::<Statement>::empty());
        assert(stmts_view(Seq::<Statement>::empty()) =~= Seq::<StmtV>::empty());
        assert(stmts_view(ss.push(x)) =~= stmts_view(ss).push(stmt_view(x)));
    } else {
        lemma_stmts_view_push(ss.drop_first(), x);
        assert(ss.push(x).drop_first() =~= ss.drop_first().push(x));
        assert(ss.push(x)[0] == ss[0]);
        assert(stmts_view(ss.push(x)) =~= stmts_view(ss).push(stmt_view(x)));
    }
}

/// Appending an expression appends its image.
pub proof fn lemma_exprs_view_push(es: Seq<Expression>, x: Expression)
    ensures
        exprs_view(es.push(x)) == exprs_view(es).push(expr_view(x)),
    decreases es.len(),
{
    if es.len() == 0 {
        assert(es.push(x)[0] == x);
        assert(es.push(x).drop_first() =~= Seq::<Expression>::empty());
        assert(exprs_view(Seq::<Expression>::empty()) =~= Seq::<ExprV>::empty());
        assert(exprs_view(es.push(x)) =~= exprs_view(es).push(expr_view(x)));
    } else {
        lemma_exprs_view_push(es.drop_first(), x);
        assert(es.push(x).drop_first() =~= es.drop_first().push(x));
        assert(es.push(x)[0] == es[0]);
        assert(exprs_view(es.push(x)) =~= exprs_view(es).push(expr_view(x)));
    }
}

/// A statement sequence's image is elementwise and preserves length.
pub proof fn lemma_stmts_view(ss: Seq<Statement>)
    ensures
        stmts_view(ss).len() == ss.len(),
        forall|i: int| 0 <= i < ss.len() ==> stmts_view(ss)[i] == stmt_view(ss[i]),
    decreases ss.len(),
{
    if ss.len() > 0 {
        lemma_stmts_view(ss.drop_first());
        assert forall|i: int| 0 <= i < ss.len() implies stmts_view(ss)[i] == stmt_view(ss[i]) by {
            if i > 0 {
                assert(stmts_view(ss)[i] == stmts_view(ss.drop_first())[i - 1]);
                assert(ss.drop_first()[i - 1] == ss[i]);
            }
        }
    }
}

/// An expression sequence's image is elementwise and preserves length.
pub proof fn lemma_exprs_view(es: Seq<Expression>)
    ensures
        exprs_view(es).len() == es.len(),
        forall|i: int| 0 <= i < es.len() ==> exprs_view(es)[i] == expr_view(es[i]),
    decreases es.len(),
{
    if es.len() > 0 {
        lemma_exprs_view(es.drop_first());
        assert forall|i: int| 0 <= i < es.len() implies exprs_view(es)[i] == expr_view(es[i]) by {
            if i > 0 {
                assert(exprs_view(es)[i] == exprs_view(es.drop_first())[i - 1]);
                assert(es.drop_first()[i - 1] == es[i]);
            }
        }
    }
}

impl View for Statement {
    type V = StmtV;

    open spec fn view(&self) -> StmtV {
        stmt_view(*self)
    }
}

impl View for Expression {
    type V = ExprV;

    open spec fn view(&self) -> ExprV {
        expr_view(*self)
    }
}

impl View for Literal {
    type V = LitV;

    open spec fn view(&self) -> LitV {
        lit_view(*self)
    }
}

impl View for Block {
    type V = BlockV;

    open spec fn view(&self) -> BlockV {
        block_view(*self)
    }
}

impl Block {
    pub fn new(value: Vec<Statement>) -> (r: Self)
        ensures
            r@ == BlockV(stmts_view(value@)),
    {
        Self(value)
    }

    /// The number of statements in the block.
    pub fn len(&self) -> (r: usize)
        ensures
            r == self.0@.len(),
    {
        self.0.len()
    }
}

impl Expression {
    pub fn boxed(self) -> (r: Box<Self>)
        ensures
            (*r)@ == self@,
    {
        Box::new(self)
    }
}

impl Identifier {
    /// An owned copy with the same name.
    pub fn duplicate(&self) -> (r: Identifier)
        ensures
            r@ == self@,
    {
        Identifier(self.0.clone())
    }
}

impl Statement {
    /// An owned copy with the same image.
    pub fn duplicate(&self) -> (r: Statement)
        ensures
            r@ == self@,
        decreases self,
    {
        match self {
            Statement::Let { identifier, expression } => Statement::Let {
                identifier: identifier.duplicate(),
                expression: expression.duplicate(),
            },
            Statement::Return(e) => Statement::Return(e.duplicate()),
            Statement::Expression(e) => Statement::Expression(e.duplicate()),
            Statement::Block(b) => Statement::Block(b.duplicate()),
        }
    }
}

impl Expression {
    /// An owned copy with the same image.
    pub fn duplicate(&self) -> (r: Expression)
        ensures
            r@ == self@,
        decreases self,
    {
        match self {
            Expression::Identifier(id) => Expression::Identifier(id.duplicate()),
            Expression::Literal(l) => Expression::Literal(l.duplicate()),
            Expression::Prefix(p) => Expression::Prefix(Prefix {
                expression: Box::new(p.expression.duplicate()),
                operation: p.operation,
            }),
            Expression::Infix(ix) => Expression::Infix(Infix {
                left_expression: Box::new(ix.left_expression.duplicate()),
                right_expression: Box::new(ix.right_expression.duplicate()),
                operation: ix.operation,
            }),
            Expression::If(f) => Expression::If(If {
                condition: Box::new(f.condition.duplicate()),
                consequence: f.consequence.duplicate(),
                alternative: match &f.alternative {
                    Some(b) => Some(b.duplicate()),
                    None => None,
                },
            }),
            Expression::Function(f) => Expression::Function(Function {
                params: duplicate_idents(&f.params),
                body: f.body.duplicate(),
            }),
            Expression::Call(c) => Expression::Call(Call {
                function: Box::new(c.function.duplicate()),
                arguments: duplicate_exprs(c),
            }),
        }
    }
}

impl Literal {
    /// An owned copy with the same image.
    pub fn duplicate(&self) -> (r: Literal)
        ensures
            r@ == self@,
    {
        match self {
            Literal::Int(n) => Literal::Int(*n),
            Literal::String(s) => Literal::String(s.clone()),
            Literal::True => Literal::True,
            Literal::False => Literal::False,
            Literal::Nil => Literal::Nil,
        }
    }
}

impl Block {
    /// An owned copy with the same image.
    pub fn duplicate(&self) -> (r: Block)
        ensures
            r@ == self@,
        decreases self,
    {
        let mut out: Vec<Statement> = Vec::new();
        let n = self.0.len();
        let mut i: usize = 0;
        while i < n
            invariant
                n == self.0.len(),
                i <= n,
                out@.len() == i,
                forall|j: int| 0 <= j < i ==> stmt_view(out@[j]) == stmt_view(self.0@[j]),
            decreases n - i,
        {
            proof {
                assert(decreases_to!(self => self.0));
                assert(decreases_to!(self.0 => self.0@));
                assert(decreases_to!(self.0@ => self.0@[i as int]));
            }
            let s = self.0[i].duplicate();
            out.push(s);
            i = i + 1;
        }
        proof {
            lemma_stmts_view_congruence(out@, self.0@);
        }
        Block(out)
    }
}

/// Copies of a parameter list, name for name.
pub(crate) fn duplicate_idents(ids: &Vec<Identifier>) -> (r: Vec<Identifier>)
    ensures
        idents_view(r@) == idents_view(ids@),
{
    let mut out: Vec<Identifier> = Vec::new();
    let n = ids.len();
    let mut i: usize = 0;
    while i < n
        invariant
            n == ids.len(),
            i <= n,
            out@.len() == i,
            forall|j: int| 0 <= j < i ==> out@[j]@ == ids@[j]@,
        decreases n - i,
    {
        let id = ids[i].duplicate();
        out.push(id);
        i = i + 1;
    }
    proof {
        assert(idents_view(out@) =~= idents_view(ids@));
    }
    out
}

/// Copies of a call's argument list, image for image.
fn duplicate_exprs(c: &Call) -> (r: Vec<Expression>)
    ensures
        exprs_view(r@) == exprs_view(c.arguments@),
    decreases c,
{
    let mut out: Vec<Expression> = Vec::new();
    let n = c.arguments.len();
    let mut i: usize = 0;
    while i < n
        invariant
            n == c.arguments.len(),
            i <= n,
            out@.len() == i,
            forall|j: int| 0 <= j < i ==> expr_view(out@[j]) == expr_view(c.arguments@[j]),
        decreases n - i,
    {
        proof {
            assert(decreases_to!(c => c.arguments));
            assert(decreases_to!(c.arguments => c.arguments@));
            assert(decreases_to!(c.arguments@ => c.arguments@[i as int]));
        }
        let e = c.arguments[i].duplicate();
        out.push(e);
        i = i + 1;
    }
    proof {
        lemma_exprs_view_congruence(out@, c.arguments@);
    }
    out
}

/// Sequences whose statements agree in image agree in image as sequences.
proof fn lemma_stmts_view_congruence(a: Seq<Statement>, b: Seq<Statement>)
    requires
        a.len() == b.len(),
        forall|i: int| 0 <= i < a.len() ==> stmt_view(a[i]) == stmt_view(b[i]),
    ensures
        stmts_view(a) == stmts_view(b),
    decreases a.len(),
{
    if a.len() > 0 {
        lemma_stmts_view_congruence(a.drop_first(), b.drop_first());
        assert(stmts_view(a) =~= stmts_view(b));
    } else {
        assert(stmts_view(a) =~= stmts_view(b));
    }
}

/// Sequences whose expressions agree in image agree in image as sequences.
proof fn lemma_exprs_view_congruence(a: Seq<Expression>, b: Seq<Expression>)
    requires
        a.len() == b.len(),
        forall|i: int| 0 <= i < a.len() ==> expr_view(a[i]) == expr_view(b[i]),
    ensures
        exprs_view(a) == exprs_view(b),
    decreases a.len(),
{
    if a.len() > 0 {
        lemma_exprs_view_congruence(a.drop_first(), b.drop_first());
        assert(exprs_view(a) =~= exprs_view(b));
    } else {
        assert(exprs_view(a) =~= exprs_view(b));
    }
}

/// Rendering of a prefix operator.
pub open spec fn prefix_op_chars(op: PrefixOperation) -> Seq<char> {
    match op {
        PrefixOperation::Bang => "!"@,
        PrefixOperation::Minus => "-"@,
    }
}

/// Rendering of an infix operator.
pub open spec fn infix_op_chars(op: InfixOperation) -> Seq<char> {
    match op {
        InfixOperation::Add => "+"@,
        InfixOperation::Sub => "-"@,
        InfixOperation::Eq => "=="@,
        InfixOperation::NotEq => "!="@,
        InfixOperation::Lt => "<"@,
        InfixOperation::Lte => "<="@,
        InfixOperation::Gt => ">"@,
        InfixOperation::Gte => ">="@,
        InfixOperation::Mul => "*"@,
        InfixOperation::Div => "/"@,
    }
}

/// Rendering of a literal.
pub open spec fn lit_chars(l: LitV) -> Seq<char> {
    match l {
        LitV::Int(n) => i64_chars(n),
        LitV::Str(s) => s,
        LitV::True => "true"@,
        LitV::False => "false"@,
        LitV::Nil => "nil"@,
    }
}

/// Rendering of a statement: the parenthesised, fully explicit form.
pub open spec fn stmt_chars(s: StmtV) -> Seq<char>
    decreases s,
{
    match s {
        StmtV::Let { name, expr } => "let "@ + name + " = "@ + expr_chars(expr),
        StmtV::Return(e) => "return "@ + expr_chars(e),
        StmtV::Expr(e) => expr_chars(e),
        StmtV::Block(b) => block_chars(b),
    }
}

/// Rendering of an expression: infix forms as `(L op R)`, prefix forms
/// as `(op E)`, calls as `callee (args)`.
pub open spec fn expr_chars(e: ExprV) -> Seq<char>
    decreases e,
{
    match e {
        ExprV::Ident(n) => n,
        ExprV::Lit(l) => lit_chars(l),
        ExprV::Prefix(op, inner) => "("@ + prefix_op_chars(op) + expr_chars(*inner) + ")"@,
        ExprV::Infix(op, l, r) => "("@ + expr_chars(*l) + infix_op_chars(op) + expr_chars(*r)
            + ")"@,
        ExprV::If { cond, consequence, alternative } => {
            let head = "if "@ + expr_chars(*cond) + " "@ + block_chars(consequence);
            match alternative {
                Some(alt) => head + " else "@ + block_chars(alt),
                None => head,
            }
        },
        ExprV::Func { params, body } => {
            let head = "fn ("@ + join_comma(params) + ")"@;
            if body.0.len() > 0 {
                head + " "@ + block_chars(body)
            } else {
                head
            }
        },
        ExprV::Call { callee, args } => expr_chars(*callee) + " ("@ + args_chars(args) + ")"@,
    }
}

/// Rendering of a block: its statements, one after the other.
pub open spec fn block_chars(b: BlockV) -> Seq<char>
    decreases b,
{
    stmts_chars(b.0)
}

/// Rendering of a statement sequence, concatenated.
pub open spec fn stmts_chars(ss: Seq<StmtV>) -> Seq<char>
    decreases ss,
{
    if ss.len() == 0 {
        Seq::empty()
    } else {
        stmt_chars(ss[0]) + stmts_chars(ss.drop_first())
    }
}

/// Rendering of call arguments, joined by a comma and a space.
pub open spec fn args_chars(args: Seq<ExprV>) -> Seq<char>
    decreases args,
{
    if args.len() == 0 {
        Seq::empty()
    } else if args.len() == 1 {
        expr_chars(args[0])
    } else {
        expr_chars(args[0]) + ", "@ + args_chars(args.drop_first())
    }
}

/// Appending a statement appends its rendering.
pub proof fn lemma_stmts_chars_push(ss: Seq<StmtV>, x: StmtV)
    ensures
        stmts_chars(ss.push(x)) == stmts_chars(ss) + stmt_chars(x),
    decreases ss.len(),
{
    if ss.len() == 0 {
        assert(ss.push(x)[0] == x);
        assert(ss.push(x).drop_first() =~= Seq::<StmtV>::empty());
        assert(stmts_chars(Seq::<StmtV>::empty()) == Seq::<char>::empty());
        assert(stmts_chars(ss.push(x)) == stmt_chars(x) + Seq::<char>::empty());
        assert(stmts_chars(ss.push(x)) =~= stmts_chars(ss) + stmt_chars(x));
    } else {
        lemma_stmts_chars_push(ss.drop_first(), x);
        assert(ss.push(x).drop_first() =~= ss.drop_first().push(x));
        assert(ss.push(x)[0] == ss[0]);
        assert(stmt_chars(ss[0]) + (stmts_chars(ss.drop_first()) + stmt_chars(x)) =~= (stmt_chars(
            ss[0],
        ) + stmts_chars(ss.drop_first())) + stmt_chars(x));
    }
}

/// Appending an argument appends a separator exactly when arguments
/// were already present.
pub proof fn lemma_args_chars_push(args: Seq<ExprV>, x: ExprV)
    ensures
        args_chars(args.push(x)) == if args.len() == 0 {
            expr_chars(x)
        } else {
            args_chars(args) + ", "@ + expr_chars(x)
        },
    decreases args.len(),
{
    if args.len() == 0 {
        assert(args.push(x)[0] == x);
    } else if args.len() == 1 {
        assert(args.push(x).drop_first() =~= seq![x]);
        assert(args_chars(seq![x]) == expr_chars(seq![x][0]));
        assert(args.push(x)[0] == args[0]);
    } else {
        lemma_args_chars_push(args.drop_first(), x);
        assert(args.push(x).drop_first() =~= args.drop_first().push(x));
        assert(args.push(x)[0] == args[0]);
        assert(expr_chars(args[0]) + ", "@ + (args_chars(args.drop_first()) + ", "@ + expr_chars(
            x,
        )) =~= (expr_chars(args[0]) + ", "@ + args_chars(args.drop_first())) + ", "@ + expr_chars(
            x,
        ));
    }
}

impl PrefixOperation {
    /// The operator as text.
    pub fn render(&self) -> (r: &'static str)
        ensures
            r@ == prefix_op_chars(*self),
    {
        match self {
            PrefixOperation::Bang => "!",
            PrefixOperation::Minus => "-",
        }
    }
}

impl InfixOperation {
    /// The operator as text.
    pub fn render(&self) -> (r: &'static str)
        ensures
            r@ == infix_op_chars(*self),
    {
        match self {
            InfixOperation::Add => "+",
            InfixOperation::Sub => "-",
            InfixOperation::Eq => "==",
            InfixOperation::NotEq => "!=",
            InfixOperation::Lt => "<",
            InfixOperation::Lte => "<=",
            InfixOperation::Gt => ">",
            InfixOperation::Gte => ">=",
            InfixOperation::Mul => "*",
            InfixOperation::Div => "/",
        }
    }
}

impl Literal {
    /// The literal as text.
    pub fn render(&self) -> (r: String)
        ensures
            r@ == lit_chars(self@),
    {
        match self {
            Literal::Int(n) => i64_string(*n),
            Literal::String(s) => s.clone(),
            Literal::True => "true".to_owned(),
            Literal::False => "false".to_owned(),
            Literal::Nil => "nil".to_owned(),
        }
    }
}

impl Statement {
    /// The statement as text.
    pub fn render(&self) -> (r: String)
        ensures
            r@ == stmt_chars(self@),
        decreases self,
    {
        match self {
            Statement::Let { identifier, expression } => {
                let mut s = "let ".to_owned();
                s.append(identifier.0.as_str());
                s.append(" = ");
                let e = expression.render();
                s.append(e.as_str());
                proof {
                    assert(s@ =~= stmt_chars(self@));
                }
                s
            },
            Statement::Return(expression) => {
                let mut s = "return ".to_owned();
                let e = expression.render();
                s.append(e.as_str());
                proof {
                    assert(s@ =~= stmt_chars(self@));
                }
                s
            },
            Statement::Expression(expression) => expression.render(),
            Statement::Block(block) => block.render(),
        }
    }
}

impl Block {
    /// The block as text: its statements, one after the other.
    pub fn render(&self) -> (r: String)
        ensures
            r@ == block_chars(self@),
        decreases self,
    {
        let mut s = String::new();
        let n = self.0.len();
        let mut i: usize = 0;
        proof {
            lemma_stmts_view(self.0@);
        }
        while i < n
            invariant
                n == self.0.len(),
                i <= n,
                stmts_view(self.0@).len() == n,
                forall|j: int|
                    0 <= j < n ==> stmts_view(self.0@)[j] == stmt_view(self.0@[j]),
                s@ == stmts_chars(stmts_view(self.0@).take(i as int)),
            decreases n - i,
        {
            proof {
                assert(decreases_to!(self => self.0));
                assert(decreases_to!(self.0 => self.0@));
                assert(decreases_to!(self.0@ => self.0@[i as int]));
            }
            let part = self.0[i].render();
            s.append(part.as_str());
            proof {
                let vs = stmts_view(self.0@);
                lemma_stmts_chars_push(vs.take(i as int), vs[i as int]);
                assert(vs.take(i + 1) =~= vs.take(i as int).push(vs[i as int]));
            }
            i = i + 1;
        }
        proof {
            assert(stmts_view(self.0@).take(n as int) =~= stmts_view(self.0@));
        }
        s
    }
}

impl Expression {
    /// The expression as text.
    pub fn render(&self) -> (r: String)
        ensures
            r@ == expr_chars(self@),
        decreases self,
    {
        match self {
            Expression::Identifier(id) => id.0.clone(),
            Expression::Literal(l) => l.render(),
            Expression::Prefix(p) => {
                let mut s = "(".to_owned();
                s.append(p.operation.render());
                let e = p.expression.render();
                s.append(e.as_str());
                s.append(")");
                proof {
                    assert(s@ =~= expr_chars(self@));
                }
                s
            },
            Expression::Infix(ix) => {
                let mut s = "(".to_owned();
                let l = ix.left_expression.render();
                s.append(l.as_str());
                s.append(ix.operation.render());
                let r = ix.right_expression.render();
                s.append(r.as_str());
                s.append(")");
                proof {
                    assert(s@ =~= expr_chars(self@));
                }
                s
            },
            Expression::If(f) => {
                let mut s = "if ".to_owned();
                let c = f.condition.render();
                s.append(c.as_str());
                s.append(" ");
                let cons = f.consequence.render();
                s.append(cons.as_str());
                match &f.alternative {
                    Some(alt) => {
                        s.append(" else ");
                        let a = alt.render();
                        s.append(a.as_str());
                    },
                    None => {},
                }
                proof {
                    assert(s@ =~= expr_chars(self@));
                }
                s
            },
            Expression::Function(f) => {
                let mut s = "fn (".to_owned();
                let params = render_params(&f.params);
                s.append(params.as_str());
                s.append(")");
                proof {
                    lemma_stmts_view(f.body.0@);
                    assert(s@ =~= "fn ("@ + join_comma(idents_view(f.params@)) + ")"@);
                }
                if f.body.len() > 0 {
                    s.append(" ");
                    let b = f.body.render();
                    s.append(b.as_str());
                    proof {
                        assert(block_view(f.body).0.len() > 0);
                        assert(s@ =~= ("fn ("@ + join_comma(idents_view(f.params@)) + ")"@) + " "@
                            + block_chars(block_view(f.body)));
                        assert(s@ =~= expr_chars(self@));
                    }
                } else {
                    proof {
                        assert(block_view(f.body).0.len() == 0);
                        assert(s@ =~= expr_chars(self@));
                    }
                }
                proof {
                    assert(s@ =~= expr_chars(self@));
                }
                s
            },
            Expression::Call(c) => {
                let mut s = c.function.render();
                s.append(" (");
                let args = render_args(c);
                s.append(args.as_str());
                s.append(")");
                proof {
                    assert(s@ =~= expr_chars(self@));
                }
                s
            },
        }
    }
}

/// A parameter list as text, joined by a comma and a space.
fn render_params(ids: &Vec<Identifier>) -> (r: String)
    ensures
        r@ == join_comma(idents_view(ids@)),
{
    let mut s = String::new();
    let n = ids.len();
    let mut i: usize = 0;
    while i < n
        invariant
            n == ids.len(),
            i <= n,
            s@ == join_comma(idents_view(ids@).take(i as int)),
        decreases n - i,
    {
        if i > 0 {
            s.append(", ");
        }
        s.append(ids[i].0.as_str());
        proof {
            let vs = idents_view(ids@);
            lemma_join_comma_push(vs.take(i as int), vs[i as int]);
            assert(vs.take(i + 1) =~= vs.take(i as int).push(vs[i as int]));
        }
        i = i + 1;
    }
    proof {
        assert(idents_view(ids@).take(n as int) =~= idents_view(ids@));
    }
    s
}

/// A call's arguments as text, joined by a comma and a space.
fn render_args(c: &Call) -> (r: String)
    ensures
        r@ == args_chars(exprs_view(c.arguments@)),
    decreases c,
{
    let mut s = String::new();
    let n = c.arguments.len();
    let mut i: usize = 0;
    proof {
        lemma_exprs_view(c.arguments@);
    }
    while i < n
        invariant
            n == c.arguments.len(),
            i <= n,
            exprs_view(c.arguments@).len() == n,
            forall|j: int|
                0 <= j < n ==> exprs_view(c.arguments@)[j] == expr_view(c.arguments@[j]),
            s@ == args_chars(exprs_view(c.arguments@).take(i as int)),
        decreases n - i,
    {
        proof {
            assert(decreases_to!(c => c.arguments));
            assert(decreases_to!(c.arguments => c.arguments@));
            assert(decreases_to!(c.arguments@ => c.arguments@[i as int]));
        }
        if i > 0 {
            s.append(", ");
        }
        let part = c.arguments[i].render();
        s.append(part.as_str());
        proof {
            let vs = exprs_view(c.arguments@);
            lemma_args_chars_push(vs.take(i as int), vs[i as int]);
            assert(vs.take(i + 1) =~= vs.take(i as int).push(vs[i as int]));
        }
        i = i + 1;
    }
    proof {
        assert(exprs_view(c.arguments@).take(n as int) =~= exprs_view(c.arguments@));
    }
    s
}

} // verus!
