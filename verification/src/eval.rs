use vstd::prelude::*;

use crate::ast::{
    block_view, duplicate_idents, expr_view, exprs_view, idents_view, lemma_exprs_view,
    lemma_stmts_view, stmt_view, stmts_view, Block, BlockV, Call, Expression, ExprV, Function, If,
    InfixOperation, LitV, Literal, PrefixOperation, StmtV, Statement,
};
use crate::environment::{
    bindings_view, binding_view, env_lookup, env_set, env_wf, frame_lookup,
    lemma_env_lookup_wf, lemma_env_push_wf, lemma_env_set_wf, Binding, Environment, FrameV,
};
use crate::object::{
    add_s, bang_s, div_s, eq_s, err_chars, gt_s, gte_s, lemma_obj_wf_grow, lt_s, lte_s, minus_s,
    mul_s, not_eq_s, obj_view, obj_wf, result_view, sub_s, ErrV, EvalError, Object, ValueV,
};
use crate::parser::{parse_err_chars, parse_next_statement_s, ParseError, ParseErrV, Parser};
use crate::token::TokenV;

verus! {

/// How many nested function applications the evaluator will enter
/// before it reports that its recursion budget is exhausted.
pub const CALL_DEPTH_LIMIT: u64 = 1024;

/// An evaluation outcome: the arena afterwards, and the produced value
/// or the error.
#[verifier::ext_equal]
pub struct EvalOut {
    pub st: Seq<FrameV>,
    pub res: Result<ValueV, ErrV>,
}

/// The value of a literal: string literals are accepted by the parser
/// but carry no runtime value of their own yet.
pub open spec fn lit_value_s(l: LitV) -> ValueV {
    match l {
        LitV::Int(n) => ValueV::Int(n),
        LitV::True => ValueV::Bool(true),
        LitV::False => ValueV::Bool(false),
        LitV::Nil => ValueV::Nil,
        LitV::Str(_) => ValueV::Bool(false),
    }
}

/// Truthiness: `nil` and `false` are falsy; every other value is
/// truthy.
pub open spec fn truthy_s(v: ValueV) -> bool {
    match v {
        ValueV::Nil => false,
        ValueV::Bool(b) => b,
        _ => true,
    }
}

/// The result of one infix operator on two evaluated operands.
pub open spec fn infix_apply_s(op: InfixOperation, l: ValueV, r: ValueV) -> Result<ValueV, ErrV> {
    match op {
        InfixOperation::Add => add_s(l, r),
        InfixOperation::Sub => sub_s(l, r),
        InfixOperation::Mul => mul_s(l, r),
        InfixOperation::Div => div_s(l, r),
        InfixOperation::Eq => eq_s(l, r),
        InfixOperation::NotEq => not_eq_s(l, r),
        InfixOperation::Gt => gt_s(l, r),
        InfixOperation::Gte => gte_s(l, r),
        InfixOperation::Lt => lt_s(l, r),
        InfixOperation::Lte => lte_s(l, r),
    }
}

/// The result of one prefix operator on its evaluated operand.
pub open spec fn prefix_apply_s(op: PrefixOperation, v: ValueV) -> Result<ValueV, ErrV> {
    match op {
        PrefixOperation::Bang => Ok(bang_s(v)),
        PrefixOperation::Minus => minus_s(v),
    }
}

/// Parameter names bound positionally to argument values; a missing
/// argument leaves its parameter unbound, an extra argument is
/// dropped.
pub open spec fn zip_params(params: Seq<Seq<char>>, vals: Seq<ValueV>) -> Seq<(Seq<char>, ValueV)> {
    Seq::new(
        if params.len() <= vals.len() {
            params.len()
        } else {
            vals.len()
        },
        |i: int| (params[i], vals[i]),
    )
}

/// Evaluation of one statement in scope `at`.
///
/// `let` evaluates its expression and binds the result in the current
/// scope, yielding `nil`; `return` wraps its expression's value;
/// expression statements yield their value; block statements follow
/// block semantics.
pub open spec fn eval_stmt_s(s: StmtV, st: Seq<FrameV>, at: int, fuel: nat) -> EvalOut
    decreases fuel, s,
{
    match s {
        StmtV::Let { name, expr } => {
            let o = eval_expr_s(expr, st, at, fuel);
            match o.res {
                Ok(v) => EvalOut { st: env_set(o.st, at, name, v), res: Ok(ValueV::Nil) },
                Err(e) => o,
            }
        },
        StmtV::Return(e) => {
            let o = eval_expr_s(e, st, at, fuel);
            match o.res {
                Ok(v) => EvalOut { st: o.st, res: Ok(ValueV::Return(Box::new(v))) },
                Err(e) => o,
            }
        },
        StmtV::Expr(e) => eval_expr_s(e, st, at, fuel),
        StmtV::Block(b) => eval_block_s(b, st, at, fuel),
    }
}

/// Block semantics: statements run in order in the block's own scope;
/// the block yields the last statement's value, `nil` when empty, and
/// stops at the first `Return`-wrapped value, passing it upward
/// without unwrapping it.
pub open spec fn eval_block_s(b: BlockV, st: Seq<FrameV>, at: int, fuel: nat) -> EvalOut
    decreases fuel, b,
{
    eval_stmts_s(b.0, st, at, fuel)
}

/// The statements of a block, in order.
pub open spec fn eval_stmts_s(ss: Seq<StmtV>, st: Seq<FrameV>, at: int, fuel: nat) -> EvalOut
    decreases fuel, ss,
{
    if ss.len() == 0 {
        EvalOut { st: st, res: Ok(ValueV::Nil) }
    } else {
        let o = eval_stmt_s(ss[0], st, at, fuel);
        match o.res {
            Err(_) => o,
            Ok(v) => if (v matches ValueV::Return(_)) || ss.len() == 1 {
                o
            } else {
                eval_stmts_s(ss.drop_first(), o.st, at, fuel)
            },
        }
    }
}

/// Evaluation of one expression in scope `at`.
pub open spec fn eval_expr_s(e: ExprV, st: Seq<FrameV>, at: int, fuel: nat) -> EvalOut
    decreases fuel, e,
{
    match e {
        ExprV::Ident(n) => EvalOut {
            st: st,
            res: match env_lookup(st, at, n) {
                Some(v) => Ok(v),
                None => Err(ErrV::IdentifierNotFound { name: n }),
            },
        },
        ExprV::Lit(l) => EvalOut { st: st, res: Ok(lit_value_s(l)) },
        ExprV::Prefix(op, inner) => {
            let o = eval_expr_s(*inner, st, at, fuel);
            match o.res {
                Ok(v) => EvalOut { st: o.st, res: prefix_apply_s(op, v) },
                Err(_) => o,
            }
        },
        ExprV::Infix(op, l, r) => {
            let lo = eval_expr_s(*l, st, at, fuel);
            match lo.res {
                Err(_) => lo,
                Ok(lv) => {
                    let ro = eval_expr_s(*r, lo.st, at, fuel);
                    match ro.res {
                        Err(_) => ro,
                        Ok(rv) => EvalOut { st: ro.st, res: infix_apply_s(op, lv, rv) },
                    }
                },
            }
        },
        ExprV::If { cond, consequence, alternative } => {
            let co = eval_expr_s(*cond, st, at, fuel);
            match co.res {
                Err(_) => co,
                Ok(cv) => if truthy_s(cv) {
                    eval_block_s(consequence, co.st, at, fuel)
                } else {
                    match alternative {
                        Some(alt) => eval_block_s(alt, co.st, at, fuel),
                        None => EvalOut { st: co.st, res: Ok(ValueV::Nil) },
                    }
                },
            }
        },
        ExprV::Func { params, body } => EvalOut {
            st: st,
            res: Ok(ValueV::Function { params, body, env: at }),
        },
        ExprV::Call { callee, args } => {
            let fo = eval_expr_s(*callee, st, at, fuel);
            match fo.res {
                Err(_) => fo,
                Ok(fv) => match fv {
                    ValueV::Function { params, body, env } => {
                        let (st1, ares) = eval_exprs_s(args, fo.st, at, fuel);
                        match ares {
                            Err(e) => EvalOut { st: st1, res: Err(e) },
                            Ok(vals) => if fuel == 0 {
                                EvalOut { st: st1, res: Err(ErrV::RecursionLimit) }
                            } else {
                                let frame = FrameV {
                                    entries: zip_params(params, vals),
                                    outer: Some(env),
                                };
                                let o = eval_block_s(
                                    body,
                                    st1.push(frame),
                                    st1.len() as int,
                                    (fuel - 1) as nat,
                                );
                                match o.res {
                                    Ok(ValueV::Return(v)) => EvalOut { st: o.st, res: Ok(*v) },
                                    _ => o,
                                }
                            },
                        }
                    },
                    _ => EvalOut { st: fo.st, res: Err(ErrV::CallOfNonFunction) },
                },
            }
        },
    }
}

/// Call arguments, evaluated left to right in the caller's scope; the
/// first error stops the rest.
pub open spec fn eval_exprs_s(es: Seq<ExprV>, st: Seq<FrameV>, at: int, fuel: nat) -> (
    Seq<FrameV>,
    Result<Seq<ValueV>, ErrV>,
)
    decreases fuel, es,
{
    if es.len() == 0 {
        (st, Ok(Seq::empty()))
    } else {
        let o = eval_expr_s(es[0], st, at, fuel);
        match o.res {
            Err(e) => (o.st, Err(e)),
            Ok(v) => {
                let (st2, rest) = eval_exprs_s(es.drop_first(), o.st, at, fuel);
                match rest {
                    Err(e) => (st2, Err(e)),
                    Ok(vs) => (st2, Ok(seq![v] + vs)),
                }
            },
        }
    }
}

/// Program semantics: statements run in order; the program yields the
/// last statement's value, and a `Return`-wrapped value stops the run
/// and is unwrapped once. `last` carries the value of the statements
/// run so far, `nil` at the start.
pub open spec fn eval_program_s(
    ss: Seq<StmtV>,
    st: Seq<FrameV>,
    at: int,
    fuel: nat,
    last: ValueV,
) -> EvalOut
    decreases fuel, ss,
{
    if ss.len() == 0 {
        EvalOut { st: st, res: Ok(last) }
    } else {
        let o = eval_stmt_s(ss[0], st, at, fuel);
        match o.res {
            Err(_) => o,
            Ok(v) => match v {
                ValueV::Return(inner) => EvalOut { st: o.st, res: Ok(*inner) },
                _ => eval_program_s(ss.drop_first(), o.st, at, fuel, v),
            },
        }
    }
}

/// An error from the pipeline: either the parser's or the evaluator's.
#[derive(Debug, PartialEq)]
pub enum Error {
    Parse(ParseError),
    Eval(EvalError),
}

/// The mathematical image of a pipeline error.
pub enum ErrorV {
    Parse(ParseErrV),
    Eval(ErrV),
}

impl View for Error {
    type V = ErrorV;

    open spec fn view(&self) -> ErrorV {
        match self {
            Error::Parse(e) => ErrorV::Parse(e@),
            Error::Eval(e) => ErrorV::Eval(e@),
        }
    }
}

/// The message text of a pipeline error.
pub open spec fn error_chars(e: ErrorV) -> Seq<char> {
    match e {
        ErrorV::Parse(pe) => parse_err_chars(pe),
        ErrorV::Eval(ee) => err_chars(ee),
    }
}

impl Error {
    /// The error rendered as its message text.
    pub fn message(&self) -> (r: String)
        ensures
            r@ == error_chars(self@),
    {
        match self {
            Error::Parse(e) => e.message(),
            Error::Eval(e) => e.message(),
        }
    }
}

/// Image of a pipeline result.
pub open spec fn run_result_view(r: Result<Object, Error>) -> Result<ValueV, ErrorV> {
    match r {
        Ok(o) => Ok(o@),
        Err(e) => Err(e@),
    }
}

/// Image of a value list.
pub open spec fn objs_view(os: Seq<Object>) -> Seq<ValueV> {
    os.map_values(|o: Object| obj_view(o))
}

/// The run of a whole program: statements are parsed and evaluated in
/// turn, in scope `at`; the first parse or evaluation error stops the
/// run, a `Return`-wrapped statement value stops it and is unwrapped
/// once, and otherwise the last statement's value is the program's.
pub open spec fn run_s(
    ts: Seq<TokenV>,
    pos: int,
    st: Seq<FrameV>,
    at: int,
    fuel: nat,
    last: ValueV,
) -> (Seq<FrameV>, Result<ValueV, ErrorV>)
    decreases ts.len() - pos,
    when 0 <= pos <= ts.len()
{
    match parse_next_statement_s(ts, pos) {
        Err(e) => (st, Err(ErrorV::Parse(e))),
        Ok(None) => (st, Ok(last)),
        Ok(Some((s, p))) => {
            let o = eval_stmt_s(s, st, at, fuel);
            match o.res {
                Err(e) => (o.st, Err(ErrorV::Eval(e))),
                Ok(v) => match v {
                    ValueV::Return(inner) => (o.st, Ok(*inner)),
                    // a parsed statement consumes at least one token,
                    // so the recursion always advances
                    _ => if pos < p <= ts.len() {
                        run_s(ts, p, o.st, at, fuel, v)
                    } else {
                        (o.st, Err(ErrorV::Parse(ParseErrV::UnexpectedToken { token: None })))
                    },
                },
            }
        },
    }
}

impl Literal {
    /// The literal's runtime value; never fails.
    pub fn eval(&self) -> (r: Result<Object, EvalError>)
        ensures
            r matches Ok(v) && v@ == lit_value_s(self@),
    {
        match self {
            Literal::Int(n) => Ok(Object::Int(*n)),
            Literal::True => Ok(Object::Bool(true)),
            Literal::False => Ok(Object::Bool(false)),
            Literal::Nil => Ok(Object::Nil),
            Literal::String(_) => Ok(Object::Bool(false)),
        }
    }
}

impl Function {
    /// A function literal evaluates to a closure capturing the current
    /// scope's handle; never fails and leaves the arena unchanged.
    pub fn eval(&self, env: &Environment, at: usize) -> (r: Result<Object, EvalError>)
        requires
            at < env@.len(),
        ensures
            eval_expr_s(expr_view(Expression::Function(*self)), env@, at as int, 0) == (EvalOut {
                st: env@,
                res: result_view(r),
            }),
            r matches Ok(o) && obj_wf(o@, env@.len() as int),
    {
        Ok(
            Object::Function(
                crate::object::Function {
                    parameters: duplicate_idents(&self.params),
                    body: self.body.duplicate(),
                    env: at,
                },
            ),
        )
    }
}

impl Statement {
    /// Evaluates the statement in scope `at` with the given recursion
    /// budget.
    pub fn eval(&self, env: &mut Environment, at: usize, fuel: u64) -> (r: Result<
        Object,
        EvalError,
    >)
        requires
            at < old(env)@.len(),
            env_wf(old(env)@),
        ensures
            env_wf(final(env)@),
            old(env)@.len() <= final(env)@.len(),
            eval_stmt_s(stmt_view(*self), old(env)@, at as int, fuel as nat) == (EvalOut {
                st: final(env)@,
                res: result_view(r),
            }),
            r matches Ok(o) ==> obj_wf(o@, final(env)@.len() as int),
        decreases fuel, self,
    {
        match self {
            Statement::Return(expression) => {
                let result = match expression.eval(env, at, fuel) {
                    Ok(o) => o,
                    Err(e) => {
                        return Err(e);
                    },
                };
                Ok(Object::Return(Box::new(result)))
            },
            Statement::Expression(expression) => expression.eval(env, at, fuel),
            Statement::Block(block) => block.eval(env, at, fuel),
            Statement::Let { identifier, expression } => {
                let stack = match expression.eval(env, at, fuel) {
                    Ok(o) => o,
                    Err(e) => {
                        return Err(e);
                    },
                };
                proof {
                    lemma_env_set_wf(env@, at as int, identifier@, stack@);
                }
                env.set(at, identifier.get_name(), &stack);
                Ok(Object::Nil)
            },
        }
    }
}

impl Block {
    /// Evaluates the block's statements in order in scope `at`: the
    /// last value is kept, and a `Return`-wrapped value stops the
    /// block and is passed on unchanged.
    pub fn eval(&self, env: &mut Environment, at: usize, fuel: u64) -> (r: Result<
        Object,
        EvalError,
    >)
        requires
            at < old(env)@.len(),
            env_wf(old(env)@),
        ensures
            env_wf(final(env)@),
            old(env)@.len() <= final(env)@.len(),
            eval_block_s(block_view(*self), old(env)@, at as int, fuel as nat) == (EvalOut {
                st: final(env)@,
                res: result_view(r),
            }),
            r matches Ok(o) ==> obj_wf(o@, final(env)@.len() as int),
        decreases fuel, self,
    {
        let ghost goal = eval_block_s(block_view(*self), old(env)@, at as int, fuel as nat);
        let ghost views = stmts_view(self.0@);
        proof {
            lemma_stmts_view(self.0@);
        }
        let mut result = Object::Nil;
        let n = self.0.len();
        let mut i: usize = 0;
        proof {
            assert(views.skip(0) =~= views);
        }
        while i < n
            invariant
                at < env@.len(),
                env_wf(env@),
                old(env)@.len() <= env@.len(),
                n == self.0.len(),
                i <= n,
                views == stmts_view(self.0@),
                views.len() == n,
                forall|j: int| 0 <= j < n ==> views[j] == stmt_view(self.0@[j]),
                goal == eval_block_s(block_view(*self), old(env)@, at as int, fuel as nat),
                i < n ==> goal == eval_stmts_s(views.skip(i as int), env@, at as int, fuel as nat),
                i == n ==> goal == (EvalOut { st: env@, res: Ok(result@) }),
                obj_wf(result@, env@.len() as int),
                !(result@ matches ValueV::Return(_)),
            decreases n - i,
        {
            proof {
                assert(decreases_to!(self => self.0));
                assert(decreases_to!(self.0 => self.0@));
                assert(decreases_to!(self.0@ => self.0@[i as int]));
            }
            let ghost pre_st = env@;
            let o = match self.0[i].eval(env, at, fuel) {
                Ok(o) => o,
                Err(e) => {
                    proof {
                        assert(views.skip(i as int)[0] == views[i as int]);
                    }
                    return Err(e);
                },
            };
            proof {
                assert(views.skip(i as int)[0] == views[i as int]);
                assert(views.skip(i as int).drop_first() =~= views.skip(i + 1));
            }
            let is_ret = match &o {
                Object::Return(_) => true,
                _ => false,
            };
            if is_ret {
                return Ok(o);
            }
            result = o;
            i = i + 1;
            proof {
                if i < n {
                    assert(goal == eval_stmts_s(
                        views.skip(i as int),
                        env@,
                        at as int,
                        fuel as nat,
                    ));
                }
            }
        }
        Ok(result)
    }
}

impl If {
    /// Evaluates the condition, then the consequence when it is
    /// truthy, the alternative (or `nil`) when it is falsy.
    pub fn eval(&self, env: &mut Environment, at: usize, fuel: u64) -> (r: Result<
        Object,
        EvalError,
    >)
        requires
            at < old(env)@.len(),
            env_wf(old(env)@),
        ensures
            env_wf(final(env)@),
            old(env)@.len() <= final(env)@.len(),
            eval_expr_s(expr_view(Expression::If(*self)), old(env)@, at as int, fuel as nat) == (
            EvalOut { st: final(env)@, res: result_view(r) }),
            r matches Ok(o) ==> obj_wf(o@, final(env)@.len() as int),
        decreases fuel, self,
    {
        let result = match self.condition.eval(env, at, fuel) {
            Ok(o) => o,
            Err(e) => {
                return Err(e);
            },
        };
        let truthy = match &result {
            Object::Nil => false,
            Object::Bool(b) => *b,
            _ => true,
        };
        if truthy {
            self.consequence.eval(env, at, fuel)
        } else {
            match &self.alternative {
                Some(block) => block.eval(env, at, fuel),
                None => Ok(Object::Nil),
            }
        }
    }
}

impl Call {
    /// Evaluates the callee, then the arguments left to right in the
    /// caller's scope, binds parameters positionally in a fresh scope
    /// enclosed in the closure's captured one, and runs the body
    /// there; a `Return`-wrapped body value is unwrapped at this
    /// boundary.
    pub fn eval(&self, env: &mut Environment, at: usize, fuel: u64) -> (r: Result<
        Object,
        EvalError,
    >)
        requires
            at < old(env)@.len(),
            env_wf(old(env)@),
        ensures
            env_wf(final(env)@),
            old(env)@.len() <= final(env)@.len(),
            eval_expr_s(expr_view(Expression::Call(*self)), old(env)@, at as int, fuel as nat) == (
            EvalOut { st: final(env)@, res: result_view(r) }),
            r matches Ok(o) ==> obj_wf(o@, final(env)@.len() as int),
        decreases fuel, self,
    {
        let function = match self.function.eval(env, at, fuel) {
            Ok(o) => o,
            Err(e) => {
                return Err(e);
            },
        };
        match function {
            Object::Function(f) => {
                proof {
                    assert(decreases_to!(self => self.arguments));
                }
                let vals = match eval_args(&self.arguments, env, at, fuel) {
                    Ok(vs) => vs,
                    Err(e) => {
                        return Err(e);
                    },
                };
                if fuel == 0 {
                    return Err(EvalError::RecursionLimit);
                }
                let bindings = bind_params(&f.parameters, &vals);
                let ghost frame = FrameV {
                    entries: bindings_view(bindings@),
                    outer: Some(f.env as int),
                };
                proof {
                    assert forall|k: int| 0 <= k < frame.entries.len() implies obj_wf(
                        #[trigger] frame.entries[k].1,
                        env@.len() as int + 1,
                    ) by {
                        assert(frame.entries[k].1 == objs_view(vals@)[k]);
                        assert(objs_view(vals@)[k] == vals@[k]@);
                        lemma_obj_wf_grow(
                            vals@[k]@,
                            env@.len() as int,
                            env@.len() as int + 1,
                        );
                    }
                    lemma_env_push_wf(env@, frame);
                }
                let new_at = env.new_enclosed(f.env, bindings);
                let o = match f.body.eval(env, new_at, fuel - 1) {
                    Ok(o) => o,
                    Err(e) => {
                        return Err(e);
                    },
                };
                match o {
                    Object::Return(inner) => Ok(*inner),
                    other => Ok(other),
                }
            },
            _ => Err(EvalError::CallOfNonFunction),
        }
    }
}

impl Expression {
    /// Evaluates the expression in scope `at` with the given recursion
    /// budget.
    pub fn eval(&self, env: &mut Environment, at: usize, fuel: u64) -> (r: Result<
        Object,
        EvalError,
    >)
        requires
            at < old(env)@.len(),
            env_wf(old(env)@),
        ensures
            env_wf(final(env)@),
            old(env)@.len() <= final(env)@.len(),
            eval_expr_s(expr_view(*self), old(env)@, at as int, fuel as nat) == (EvalOut {
                st: final(env)@,
                res: result_view(r),
            }),
            r matches Ok(o) ==> obj_wf(o@, final(env)@.len() as int),
        decreases fuel, self,
    {
        match self {
            Expression::Literal(literal) => literal.eval(),
            Expression::Prefix(prefix) => {
                let right = match prefix.expression.eval(env, at, fuel) {
                    Ok(o) => o,
                    Err(e) => {
                        return Err(e);
                    },
                };
                match prefix.operation {
                    PrefixOperation::Bang => right.bang(),
                    PrefixOperation::Minus => right.minus(),
                }
            },
            Expression::If(if_expression) => if_expression.eval(env, at, fuel),
            Expression::Identifier(id) => {
                let result = env.get(at, id.0.as_str());
                match result {
                    Some(value) => {
                        proof {
                            lemma_env_lookup_wf(env@, at as int, id@);
                        }
                        Ok(value)
                    },
                    None => Err(EvalError::IdentifierNotFound { name: id.0.clone() }),
                }
            },
            Expression::Call(call) => call.eval(env, at, fuel),
            Expression::Infix(infix) => {
                let left = match infix.left_expression.eval(env, at, fuel) {
                    Ok(o) => o,
                    Err(e) => {
                        return Err(e);
                    },
                };
                let right = match infix.right_expression.eval(env, at, fuel) {
                    Ok(o) => o,
                    Err(e) => {
                        return Err(e);
                    },
                };
                match infix.operation {
                    InfixOperation::Add => left.add(right),
                    InfixOperation::Sub => left.sub(right),
                    InfixOperation::Mul => left.mul(right),
                    InfixOperation::Div => left.div(right),
                    InfixOperation::Eq => left.eq(right),
                    InfixOperation::NotEq => left.not_eq(right),
                    InfixOperation::Gt => left.gt(right),
                    InfixOperation::Gte => left.gte(right),
                    InfixOperation::Lt => left.lt(right),
                    InfixOperation::Lte => left.lte(right),
                }
            },
            Expression::Function(f) => f.eval(env, at),
        }
    }
}

/// Call arguments, evaluated left to right in the caller's scope.
fn eval_args(args: &Vec<Expression>, env: &mut Environment, at: usize, fuel: u64) -> (r: Result<
    Vec<Object>,
    EvalError,
>)
    requires
        at < old(env)@.len(),
        env_wf(old(env)@),
    ensures
        env_wf(final(env)@),
        old(env)@.len() <= final(env)@.len(),
        ({
            let (st, res) = eval_exprs_s(exprs_view(args@), old(env)@, at as int, fuel as nat);
            st == final(env)@ && match res {
                Ok(vs) => r matches Ok(os) && objs_view(os@) == vs,
                Err(e) => r matches Err(err) && err@ == e,
            }
        }),
        r matches Ok(os) ==> forall|k: int|
            0 <= k < os@.len() ==> obj_wf(#[trigger] os@[k]@, final(env)@.len() as int),
    decreases fuel, args,
{
    let ghost goal = eval_exprs_s(exprs_view(args@), old(env)@, at as int, fuel as nat);
    let ghost views = exprs_view(args@);
    proof {
        lemma_exprs_view(args@);
    }
    let mut out: Vec<Object> = Vec::new();
    let n = args.len();
    let mut i: usize = 0;
    proof {
        assert(views.skip(0) =~= views);
        assert(objs_view(out@) =~= Seq::<ValueV>::empty());
        let (st2, rest) = eval_exprs_s(views, old(env)@, at as int, fuel as nat);
        match rest {
            Ok(vs) => {
                assert(objs_view(out@) + vs =~= vs);
            },
            Err(_) => {},
        }
    }
    while i < n
        invariant
            at < env@.len(),
            env_wf(env@),
            old(env)@.len() <= env@.len(),
            n == args.len(),
            i <= n,
            out@.len() == i,
            views == exprs_view(args@),
            views.len() == n,
            forall|j: int| 0 <= j < n ==> views[j] == expr_view(args@[j]),
            goal == eval_exprs_s(views, old(env)@, at as int, fuel as nat),
            ({
                let (st2, rest) = eval_exprs_s(views.skip(i as int), env@, at as int, fuel as nat);
                goal == ((
                    st2,
                    match rest {
                        Ok(vs) => Ok::<Seq<ValueV>, ErrV>(objs_view(out@) + vs),
                        Err(e) => Err::<Seq<ValueV>, ErrV>(e),
                    },
                ))
            }),
            forall|k: int| 0 <= k < out@.len() ==> obj_wf(#[trigger] out@[k]@, env@.len() as int),
        decreases n - i,
    {
        proof {
            assert(decreases_to!(args => args@));
            assert(decreases_to!(args@ => args@[i as int]));
        }
        let ghost pre_st = env@;
        let ghost pre_len = env@.len();
        let v = match args[i].eval(env, at, fuel) {
            Ok(o) => o,
            Err(e) => {
                proof {
                    assert(views.skip(i as int)[0] == views[i as int]);
                }
                return Err(e);
            },
        };
        proof {
            assert(views.skip(i as int)[0] == views[i as int]);
            assert(views.skip(i as int).drop_first() =~= views.skip(i + 1));
        }
        let ghost pre_out = out@;
        out.push(v);
        i = i + 1;
        proof {
            assert(out@.drop_last() =~= pre_out);
            assert forall|k: int| 0 <= k < out@.len() implies obj_wf(
                #[trigger] out@[k]@,
                env@.len() as int,
            ) by {
                if k < out@.len() - 1 {
                    assert(out@[k] == pre_out[k]);
                    assert(obj_wf(out@[k]@, pre_len as int));
                    lemma_obj_wf_grow(out@[k]@, pre_len as int, env@.len() as int);
                }
            }
            let (st2, rest) = eval_exprs_s(views.skip(i as int), env@, at as int, fuel as nat);
            match rest {
                Ok(vs) => {
                    assert(objs_view(out@) =~= objs_view(pre_out).push(out@.last()@));
                    assert(objs_view(out@) + vs =~= objs_view(pre_out) + (seq![out@.last()@] + vs));
                },
                Err(_) => {},
            }
        }
    }
    proof {
        assert(views.skip(n as int) =~= Seq::<ExprV>::empty());
        assert(objs_view(out@) + Seq::<ValueV>::empty() =~= objs_view(out@));
    }
    Ok(out)
}

/// Parameter names bound positionally to argument values.
fn bind_params(params: &Vec<crate::token::Identifier>, vals: &Vec<Object>) -> (r: Vec<Binding>)
    ensures
        bindings_view(r@) == zip_params(idents_view(params@), objs_view(vals@)),
{
    let mut out: Vec<Binding> = Vec::new();
    let n = if params.len() <= vals.len() {
        params.len()
    } else {
        vals.len()
    };
    let mut i: usize = 0;
    while i < n
        invariant
            n <= params.len(),
            n <= vals.len(),
            i <= n,
            out@.len() == i,
            forall|j: int|
                0 <= j < i ==> bindings_view(out@)[j] == (params@[j]@, vals@[j]@),
        decreases n - i,
    {
        let b = Binding { name: params[i].get_name(), value: vals[i].duplicate() };
        let ghost pre_out = out@;
        out.push(b);
        i = i + 1;
        proof {
            assert forall|j: int| 0 <= j < i implies bindings_view(out@)[j] == (
                params@[j]@,
                vals@[j]@,
            ) by {
                assert(bindings_view(out@)[j] == binding_view(out@[j]));
                if j < i - 1 {
                    assert(out@[j] == pre_out[j]);
                    assert(bindings_view(pre_out)[j] == binding_view(
                        pre_out[j],
                    ));
                } else {
                    assert(out@[j] == out@.last());
                }
            }
        }
    }
    proof {
        assert(bindings_view(out@) =~= zip_params(idents_view(params@), objs_view(vals@)));
    }
    out
}

/// The program driver.
pub struct Program {}

impl Default for Program {
    /// A driver; it carries no state of its own.
    fn default() -> (r: Program) {
        Program {  }
    }
}

impl Program {
    /// Runs the pipeline: statements are parsed from `parser` and
    /// evaluated in order against the root scope of `env`, whose
    /// bindings persist across calls. The first parse or evaluation
    /// error stops the run; a `Return`-wrapped statement value stops
    /// it and is unwrapped once, so that no `Return` wrapper is ever
    /// observable in the result; otherwise the last statement's value
    /// is returned, `nil` for an empty program.
    #[verifier::rlimit(100)]
    pub fn eval(&mut self, parser: &mut Parser, env: &mut Environment) -> (r: Result<Object, Error>)
        requires
            old(parser).wf(),
            env_wf(old(env)@),
            old(env)@.len() >= 1,
        ensures
            final(parser).toks() == old(parser).toks(),
            final(parser).wf(),
            env_wf(final(env)@),
            old(env)@.len() <= final(env)@.len(),
            run_s(
                old(parser).toks(),
                old(parser).at(),
                old(env)@,
                0,
                CALL_DEPTH_LIMIT as nat,
                ValueV::Nil,
            ) == ((final(env)@, run_result_view(r))),
    {
        let ghost goal = run_s(
            old(parser).toks(),
            old(parser).at(),
            old(env)@,
            0,
            CALL_DEPTH_LIMIT as nat,
            ValueV::Nil,
        );
        let mut result = Object::Nil;
        loop
            invariant
                parser.wf(),
                parser.toks() == old(parser).toks(),
                old(parser).at() <= parser.at(),
                env_wf(env@),
                env@.len() >= 1,
                old(env)@.len() <= env@.len(),
                goal == run_s(
                    old(parser).toks(),
                    old(parser).at(),
                    old(env)@,
                    0,
                    CALL_DEPTH_LIMIT as nat,
                    ValueV::Nil,
                ),
                goal == run_s(
                    parser.toks(),
                    parser.at(),
                    env@,
                    0,
                    CALL_DEPTH_LIMIT as nat,
                    result@,
                ),
                !(result@ matches ValueV::Return(_)),
            decreases parser.toks().len() - parser.at(),
        {
            let ghost pre_at = parser.at();
            let statement = match parser.parse_next_statement() {
                Ok(Some(s)) => s,
                Ok(None) => {
                    return Ok(result);
                },
                Err(e) => {
                    return Err(Error::Parse(e));
                },
            };
            let value = match statement.eval(env, 0, CALL_DEPTH_LIMIT) {
                Ok(o) => o,
                Err(e) => {
                    return Err(Error::Eval(e));
                },
            };
            match value {
                Object::Return(expression) => {
                    return Ok(*expression);
                },
                other => {
                    result = other;
                },
            }
        }
    }
}

/// An early return cuts a block short: when a statement yields a
/// `Return`-wrapped value, the block's outcome is exactly that
/// statement's outcome, whatever statements follow — they are never
/// run, and the arena stays as the returning statement left it.
pub proof fn lemma_block_return_short_circuits(
    s: StmtV,
    rest: Seq<StmtV>,
    st: Seq<FrameV>,
    at: int,
    fuel: nat,
)
    requires
        eval_stmt_s(s, st, at, fuel).res matches Ok(v) && v matches ValueV::Return(_),
    ensures
        eval_stmts_s(seq![s] + rest, st, at, fuel) == eval_stmt_s(s, st, at, fuel),
{
    let ss = seq![s] + rest;
    assert(ss[0] == s);
    assert(ss.len() >= 1);
}

/// A statement with no binding or return effect available to it:
/// `let` and `return` are absent everywhere outside function literal
/// bodies, whose statements only run inside a scope of their own.
pub open spec fn pure_stmt(s: StmtV) -> bool
    decreases s,
{
    match s {
        StmtV::Let { .. } => false,
        StmtV::Return(_) => false,
        StmtV::Expr(e) => pure_expr(e),
        StmtV::Block(b) => pure_block(b),
    }
}

/// A block all of whose statements are effect-free.
pub open spec fn pure_block(b: BlockV) -> bool
    decreases b,
{
    pure_stmts(b.0)
}

/// A statement sequence all of whose statements are effect-free.
pub open spec fn pure_stmts(ss: Seq<StmtV>) -> bool
    decreases ss,
{
    if ss.len() == 0 {
        true
    } else {
        pure_stmt(ss[0]) && pure_stmts(ss.drop_first())
    }
}

/// An expression with no `let` or `return` outside function literals.
pub open spec fn pure_expr(e: ExprV) -> bool
    decreases e,
{
    match e {
        ExprV::Ident(_) => true,
        ExprV::Lit(_) => true,
        ExprV::Prefix(_, inner) => pure_expr(*inner),
        ExprV::Infix(_, l, r) => pure_expr(*l) && pure_expr(*r),
        ExprV::If { cond, consequence, alternative } => pure_expr(*cond) && pure_block(consequence)
            && match alternative {
            Some(alt) => pure_block(alt),
            None => true,
        },
        ExprV::Func { .. } => true,
        ExprV::Call { callee, args } => pure_expr(*callee) && pure_exprs(args),
    }
}

/// An expression sequence all of whose expressions are effect-free.
pub open spec fn pure_exprs(es: Seq<ExprV>) -> bool
    decreases es,
{
    if es.len() == 0 {
        true
    } else {
        pure_expr(es[0]) && pure_exprs(es.drop_first())
    }
}

/// Evaluating a statement writes only the scope it runs in and scopes
/// created during the run: every other pre-existing frame is
/// unchanged, and the arena only grows.
pub proof fn lemma_eval_stmt_locality(s: StmtV, st: Seq<FrameV>, at: int, fuel: nat)
    requires
        0 <= at < st.len(),
    ensures
        ({
            let o = eval_stmt_s(s, st, at, fuel);
            st.len() <= o.st.len() && forall|i: int|
                0 <= i < st.len() && i != at ==> o.st[i] == st[i]
        }),
    decreases fuel, s,
{
    match s {
        StmtV::Let { name, expr } => {
            lemma_eval_expr_locality(expr, st, at, fuel);
        },
        StmtV::Return(e) => {
            lemma_eval_expr_locality(e, st, at, fuel);
        },
        StmtV::Expr(e) => {
            lemma_eval_expr_locality(e, st, at, fuel);
        },
        StmtV::Block(b) => {
            lemma_eval_block_locality(b, st, at, fuel);
        },
    }
}

/// Evaluating a block writes only the scope it runs in and scopes
/// created during the run.
pub proof fn lemma_eval_block_locality(b: BlockV, st: Seq<FrameV>, at: int, fuel: nat)
    requires
        0 <= at < st.len(),
    ensures
        ({
            let o = eval_block_s(b, st, at, fuel);
            st.len() <= o.st.len() && forall|i: int|
                0 <= i < st.len() && i != at ==> o.st[i] == st[i]
        }),
    decreases fuel, b,
{
    lemma_eval_stmts_locality(b.0, st, at, fuel);
}

/// Evaluating a statement sequence writes only the scope it runs in
/// and scopes created during the run.
pub proof fn lemma_eval_stmts_locality(ss: Seq<StmtV>, st: Seq<FrameV>, at: int, fuel: nat)
    requires
        0 <= at < st.len(),
    ensures
        ({
            let o = eval_stmts_s(ss, st, at, fuel);
            st.len() <= o.st.len() && forall|i: int|
                0 <= i < st.len() && i != at ==> o.st[i] == st[i]
        }),
    decreases fuel, ss,
{
    if ss.len() > 0 {
        lemma_eval_stmt_locality(ss[0], st, at, fuel);
        let o = eval_stmt_s(ss[0], st, at, fuel);
        match o.res {
            Err(_) => {},
            Ok(v) => {
                if !((v matches ValueV::Return(_)) || ss.len() == 1) {
                    lemma_eval_stmts_locality(ss.drop_first(), o.st, at, fuel);
                }
            },
        }
    }
}

/// Evaluating an expression writes only the scope it runs in and
/// scopes created during the run: a call's body runs in a fresh scope
/// and so never touches a pre-existing frame other than through its
/// own chain of calls.
pub proof fn lemma_eval_expr_locality(e: ExprV, st: Seq<FrameV>, at: int, fuel: nat)
    requires
        0 <= at < st.len(),
    ensures
        ({
            let o = eval_expr_s(e, st, at, fuel);
            st.len() <= o.st.len() && forall|i: int|
                0 <= i < st.len() && i != at ==> o.st[i] == st[i]
        }),
    decreases fuel, e,
{
    match e {
        ExprV::Ident(_) => {},
        ExprV::Lit(_) => {},
        ExprV::Prefix(_, inner) => {
            lemma_eval_expr_locality(*inner, st, at, fuel);
        },
        ExprV::Infix(_, l, r) => {
            lemma_eval_expr_locality(*l, st, at, fuel);
            let lo = eval_expr_s(*l, st, at, fuel);
            if lo.res is Ok {
                lemma_eval_expr_locality(*r, lo.st, at, fuel);
            }
        },
        ExprV::If { cond, consequence, alternative } => {
            lemma_eval_expr_locality(*cond, st, at, fuel);
            let co = eval_expr_s(*cond, st, at, fuel);
            match co.res {
                Err(_) => {},
                Ok(cv) => {
                    if truthy_s(cv) {
                        lemma_eval_block_locality(consequence, co.st, at, fuel);
                    } else {
                        match alternative {
                            Some(alt) => {
                                lemma_eval_block_locality(alt, co.st, at, fuel);
                            },
                            None => {},
                        }
                    }
                },
            }
        },
        ExprV::Func { .. } => {},
        ExprV::Call { callee, args } => {
            lemma_eval_expr_locality(*callee, st, at, fuel);
            let fo = eval_expr_s(*callee, st, at, fuel);
            match fo.res {
                Err(_) => {},
                Ok(fv) => match fv {
                    ValueV::Function { params, body, env } => {
                        lemma_eval_exprs_locality(args, fo.st, at, fuel);
                        let (st1, ares) = eval_exprs_s(args, fo.st, at, fuel);
                        match ares {
                            Err(_) => {},
                            Ok(vals) => {
                                if fuel > 0 {
                                    let frame = FrameV {
                                        entries: zip_params(params, vals),
                                        outer: Some(env),
                                    };
                                    let st2 = st1.push(frame);
                                    lemma_eval_block_locality(
                                        body,
                                        st2,
                                        st1.len() as int,
                                        (fuel - 1) as nat,
                                    );
                                    let o = eval_block_s(
                                        body,
                                        st2,
                                        st1.len() as int,
                                        (fuel - 1) as nat,
                                    );
                                    assert forall|i: int|
                                        0 <= i < st.len() && i != at implies o.st[i] == st[i] by {
                                        assert(st2[i] == st1[i]);
                                        assert(o.st[i] == st2[i]);
                                    }
                                }
                            },
                        }
                    },
                    _ => {},
                },
            }
        },
    }
}

/// Evaluating an expression sequence writes only the scope it runs in
/// and scopes created during the run.
pub proof fn lemma_eval_exprs_locality(es: Seq<ExprV>, st: Seq<FrameV>, at: int, fuel: nat)
    requires
        0 <= at < st.len(),
    ensures
        ({
            let (st2, _) = eval_exprs_s(es, st, at, fuel);
            st.len() <= st2.len() && forall|i: int|
                0 <= i < st.len() && i != at ==> st2[i] == st[i]
        }),
    decreases fuel, es,
{
    if es.len() > 0 {
        lemma_eval_expr_locality(es[0], st, at, fuel);
        let o = eval_expr_s(es[0], st, at, fuel);
        if o.res is Ok {
            lemma_eval_exprs_locality(es.drop_first(), o.st, at, fuel);
        }
    }
}

/// An expression free of `let` and `return` outside function literals
/// has no effect a later evaluation could observe: every scope that
/// existed before is left exactly as it was — the arena at most grows
/// by frames the expression's calls created. Its value is therefore a
/// function of the expression, the arena and the scope alone: the
/// evaluator is a function of these, so two runs on equal inputs
/// agree.
pub proof fn lemma_pure_expr_preserves_scopes(e: ExprV, st: Seq<FrameV>, at: int, fuel: nat)
    requires
        0 <= at < st.len(),
        pure_expr(e),
    ensures
        ({
            let o = eval_expr_s(e, st, at, fuel);
            st.len() <= o.st.len() && forall|i: int| 0 <= i < st.len() ==> o.st[i] == st[i]
        }),
    decreases fuel, e,
{
    match e {
        ExprV::Ident(_) => {},
        ExprV::Lit(_) => {},
        ExprV::Prefix(_, inner) => {
            lemma_pure_expr_preserves_scopes(*inner, st, at, fuel);
        },
        ExprV::Infix(_, l, r) => {
            lemma_pure_expr_preserves_scopes(*l, st, at, fuel);
            let lo = eval_expr_s(*l, st, at, fuel);
            if lo.res is Ok {
                lemma_pure_expr_preserves_scopes(*r, lo.st, at, fuel);
            }
        },
        ExprV::If { cond, consequence, alternative } => {
            lemma_pure_expr_preserves_scopes(*cond, st, at, fuel);
            let co = eval_expr_s(*cond, st, at, fuel);
            match co.res {
                Err(_) => {},
                Ok(cv) => {
                    if truthy_s(cv) {
                        lemma_pure_block_preserves_scopes(consequence, co.st, at, fuel);
                    } else {
                        match alternative {
                            Some(alt) => {
                                lemma_pure_block_preserves_scopes(alt, co.st, at, fuel);
                            },
                            None => {},
                        }
                    }
                },
            }
        },
        ExprV::Func { .. } => {},
        ExprV::Call { callee, args } => {
            lemma_pure_expr_preserves_scopes(*callee, st, at, fuel);
            let fo = eval_expr_s(*callee, st, at, fuel);
            match fo.res {
                Err(_) => {},
                Ok(fv) => match fv {
                    ValueV::Function { params, body, env } => {
                        lemma_pure_exprs_preserve_scopes(args, fo.st, at, fuel);
                        let (st1, ares) = eval_exprs_s(args, fo.st, at, fuel);
                        match ares {
                            Err(_) => {},
                            Ok(vals) => {
                                if fuel > 0 {
                                    let frame = FrameV {
                                        entries: zip_params(params, vals),
                                        outer: Some(env),
                                    };
                                    let st2 = st1.push(frame);
                                    // the body may bind names, but only in its own
                                    // fresh scope or scopes created after it
                                    lemma_eval_block_locality(
                                        body,
                                        st2,
                                        st1.len() as int,
                                        (fuel - 1) as nat,
                                    );
                                    let o = eval_block_s(
                                        body,
                                        st2,
                                        st1.len() as int,
                                        (fuel - 1) as nat,
                                    );
                                    assert forall|i: int| 0 <= i < st.len() implies o.st[i]
                                        == st[i] by {
                                        assert(st2[i] == st1[i]);
                                        assert(o.st[i] == st2[i]);
                                    }
                                }
                            },
                        }
                    },
                    _ => {},
                },
            }
        },
    }
}

/// A block of effect-free statements preserves every pre-existing
/// scope.
pub proof fn lemma_pure_block_preserves_scopes(b: BlockV, st: Seq<FrameV>, at: int, fuel: nat)
    requires
        0 <= at < st.len(),
        pure_block(b),
    ensures
        ({
            let o = eval_block_s(b, st, at, fuel);
            st.len() <= o.st.len() && forall|i: int| 0 <= i < st.len() ==> o.st[i] == st[i]
        }),
    decreases fuel, b,
{
    lemma_pure_stmts_preserve_scopes(b.0, st, at, fuel);
}

/// A sequence of effect-free statements preserves every pre-existing
/// scope.
pub proof fn lemma_pure_stmts_preserve_scopes(ss: Seq<StmtV>, st: Seq<FrameV>, at: int, fuel: nat)
    requires
        0 <= at < st.len(),
        pure_stmts(ss),
    ensures
        ({
            let o = eval_stmts_s(ss, st, at, fuel);
            st.len() <= o.st.len() && forall|i: int| 0 <= i < st.len() ==> o.st[i] == st[i]
        }),
    decreases fuel, ss,
{
    if ss.len() > 0 {
        lemma_pure_stmt_preserves_scopes(ss[0], st, at, fuel);
        let o = eval_stmt_s(ss[0], st, at, fuel);
        match o.res {
            Err(_) => {},
            Ok(v) => {
                if !((v matches ValueV::Return(_)) || ss.len() == 1) {
                    lemma_pure_stmts_preserve_scopes(ss.drop_first(), o.st, at, fuel);
                }
            },
        }
    }
}

/// An effect-free statement preserves every pre-existing scope.
pub proof fn lemma_pure_stmt_preserves_scopes(s: StmtV, st: Seq<FrameV>, at: int, fuel: nat)
    requires
        0 <= at < st.len(),
        pure_stmt(s),
    ensures
        ({
            let o = eval_stmt_s(s, st, at, fuel);
            st.len() <= o.st.len() && forall|i: int| 0 <= i < st.len() ==> o.st[i] == st[i]
        }),
    decreases fuel, s,
{
    match s {
        StmtV::Expr(e) => {
            lemma_pure_expr_preserves_scopes(e, st, at, fuel);
        },
        StmtV::Block(b) => {
            lemma_pure_block_preserves_scopes(b, st, at, fuel);
        },
        _ => {},
    }
}

/// A sequence of effect-free expressions preserves every pre-existing
/// scope.
pub proof fn lemma_pure_exprs_preserve_scopes(es: Seq<ExprV>, st: Seq<FrameV>, at: int, fuel: nat)
    requires
        0 <= at < st.len(),
        pure_exprs(es),
    ensures
        ({
            let (st2, _) = eval_exprs_s(es, st, at, fuel);
            st.len() <= st2.len() && forall|i: int| 0 <= i < st.len() ==> st2[i] == st[i]
        }),
    decreases fuel, es,
{
    if es.len() > 0 {
        lemma_pure_expr_preserves_scopes(es[0], st, at, fuel);
        let o = eval_expr_s(es[0], st, at, fuel);
        if o.res is Ok {
            lemma_pure_exprs_preserve_scopes(es.drop_first(), o.st, at, fuel);
        }
    }
}

/// A value with no `Return` wrapper at its top, carrying only
/// function bodies that themselves keep returns confined.
pub open spec fn confined_val(v: ValueV) -> bool
    decreases v,
{
    match v {
        ValueV::Return(_) => false,
        ValueV::Function { body, .. } => guarded_block(body),
        _ => true,
    }
}

/// A value that is confined, or one `Return` wrapper around a
/// confined value — what a statement of a function body may yield.
pub open spec fn semiconfined_val(v: ValueV) -> bool {
    confined_val(v) || (v matches ValueV::Return(w) && confined_val(*w))
}

/// A frame holding only confined values.
pub open spec fn confined_frame(f: FrameV) -> bool {
    forall|k: int| 0 <= k < f.entries.len() ==> confined_val(#[trigger] f.entries[k].1)
}

/// An arena holding only confined values.
pub open spec fn confined_st(st: Seq<FrameV>) -> bool {
    forall|i: int| 0 <= i < st.len() ==> confined_frame(#[trigger] st[i])
}

/// A statement as a function body or the program may hold it: a
/// `return` or a binding of a confined-valued expression, or an
/// expression statement that yields at most one `Return` layer.
pub open spec fn guarded_stmt(s: StmtV) -> bool
    decreases s,
{
    match s {
        StmtV::Let { expr, .. } => confined_expr(expr),
        StmtV::Return(e) => confined_expr(e),
        StmtV::Expr(e) => guarded_expr(e),
        StmtV::Block(b) => guarded_block(b),
    }
}

/// A block whose statements yield at most one `Return` layer.
pub open spec fn guarded_block(b: BlockV) -> bool
    decreases b,
{
    guarded_stmts(b.0)
}

/// A statement sequence, each statement guarded.
pub open spec fn guarded_stmts(ss: Seq<StmtV>) -> bool
    decreases ss,
{
    if ss.len() == 0 {
        true
    } else {
        guarded_stmt(ss[0]) && guarded_stmts(ss.drop_first())
    }
}

/// An expression that always evaluates to a confined value: its
/// conditionals carry no reachable `return`, its bindings bind
/// confined values, and returns appear only inside function bodies.
pub open spec fn confined_expr(e: ExprV) -> bool
    decreases e,
{
    match e {
        ExprV::Ident(_) => true,
        ExprV::Lit(_) => true,
        ExprV::Prefix(_, inner) => guarded_expr(*inner),
        ExprV::Infix(_, l, r) => guarded_expr(*l) && guarded_expr(*r),
        ExprV::If { cond, consequence, alternative } => guarded_expr(*cond) && confined_block(
            consequence,
        ) && match alternative {
            Some(alt) => confined_block(alt),
            None => true,
        },
        ExprV::Func { body, .. } => guarded_block(body),
        ExprV::Call { callee, args } => guarded_expr(*callee) && confined_exprs(args),
    }
}

/// An expression that evaluates to a confined value or to one
/// `Return` layer around one: its conditionals' blocks may hold
/// reachable `return` statements.
pub open spec fn guarded_expr(e: ExprV) -> bool
    decreases e,
{
    match e {
        ExprV::Ident(_) => true,
        ExprV::Lit(_) => true,
        ExprV::Prefix(_, inner) => guarded_expr(*inner),
        ExprV::Infix(_, l, r) => guarded_expr(*l) && guarded_expr(*r),
        ExprV::If { cond, consequence, alternative } => guarded_expr(*cond) && guarded_block(
            consequence,
        ) && match alternative {
            Some(alt) => guarded_block(alt),
            None => true,
        },
        ExprV::Func { body, .. } => guarded_block(body),
        ExprV::Call { callee, args } => guarded_expr(*callee) && confined_exprs(args),
    }
}

/// A block whose statements never yield a `Return` layer at all.
pub open spec fn confined_block(b: BlockV) -> bool
    decreases b,
{
    confined_stmts(b.0)
}

/// A statement sequence, each statement confined.
pub open spec fn confined_stmts(ss: Seq<StmtV>) -> bool
    decreases ss,
{
    if ss.len() == 0 {
        true
    } else {
        confined_stmt(ss[0]) && confined_stmts(ss.drop_first())
    }
}

/// A statement that never yields a `Return` layer: no `return`
/// statement, and sub-blocks confined.
pub open spec fn confined_stmt(s: StmtV) -> bool
    decreases s,
{
    match s {
        StmtV::Let { expr, .. } => confined_expr(expr),
        StmtV::Return(_) => false,
        StmtV::Expr(e) => confined_expr(e),
        StmtV::Block(b) => confined_block(b),
    }
}

/// An expression sequence, each expression confined-valued.
pub open spec fn confined_exprs(es: Seq<ExprV>) -> bool
    decreases es,
{
    if es.len() == 0 {
        true
    } else {
        confined_expr(es[0]) && confined_exprs(es.drop_first())
    }
}

/// A confined expression is in particular guarded.
pub proof fn lemma_confined_expr_guarded(e: ExprV)
    requires
        confined_expr(e),
    ensures
        guarded_expr(e),
    decreases e,
{
    match e {
        ExprV::If { cond, consequence, alternative } => {
            lemma_confined_block_guarded(consequence);
            match alternative {
                Some(alt) => {
                    lemma_confined_block_guarded(alt);
                },
                None => {},
            }
        },
        _ => {},
    }
}

/// A confined block is in particular guarded.
pub proof fn lemma_confined_block_guarded(b: BlockV)
    requires
        confined_block(b),
    ensures
        guarded_block(b),
    decreases b,
{
    lemma_confined_stmts_guarded(b.0);
}

/// A confined statement sequence is in particular guarded.
pub proof fn lemma_confined_stmts_guarded(ss: Seq<StmtV>)
    requires
        confined_stmts(ss),
    ensures
        guarded_stmts(ss),
    decreases ss,
{
    if ss.len() > 0 {
        lemma_confined_stmt_guarded(ss[0]);
        lemma_confined_stmts_guarded(ss.drop_first());
    }
}

/// A confined statement is in particular guarded.
pub proof fn lemma_confined_stmt_guarded(s: StmtV)
    requires
        confined_stmt(s),
    ensures
        guarded_stmt(s),
    decreases s,
{
    match s {
        StmtV::Expr(e) => {
            lemma_confined_expr_guarded(e);
        },
        StmtV::Block(b) => {
            lemma_confined_block_guarded(b);
        },
        _ => {},
    }
}

/// A name resolved in a confined arena is bound to a confined value.
pub proof fn lemma_confined_lookup(st: Seq<FrameV>, env: int, name: Seq<char>)
    requires
        confined_st(st),
        env_lookup(st, env, name) is Some,
    ensures
        confined_val(env_lookup(st, env, name).unwrap()),
    decreases env,
{
    if 0 <= env < st.len() {
        match frame_lookup(st[env].entries, name) {
            Some(_) => {
                lemma_confined_frame_lookup(st[env].entries, name);
            },
            None => match st[env].outer {
                Some(o) => {
                    if 0 <= o < env {
                        lemma_confined_lookup(st, o, name);
                    }
                },
                None => {},
            },
        }
    }
}

/// A value found among confined entries is confined.
proof fn lemma_confined_frame_lookup(entries: Seq<(Seq<char>, ValueV)>, name: Seq<char>)
    requires
        forall|k: int| 0 <= k < entries.len() ==> confined_val(#[trigger] entries[k].1),
        frame_lookup(entries, name) is Some,
    ensures
        confined_val(frame_lookup(entries, name).unwrap()),
    decreases entries.len(),
{
    if entries.len() > 0 && entries.last().0 != name {
        lemma_confined_frame_lookup(entries.drop_last(), name);
    }
}

/// Binding a confined value keeps the arena confined.
pub proof fn lemma_confined_set(st: Seq<FrameV>, env: int, name: Seq<char>, v: ValueV)
    requires
        confined_st(st),
        confined_val(v),
        0 <= env < st.len(),
    ensures
        confined_st(env_set(st, env, name, v)),
{
    let st2 = env_set(st, env, name, v);
    assert forall|i: int| 0 <= i < st2.len() implies confined_frame(#[trigger] st2[i]) by {
        assert(confined_frame(st[i]));
        if i == env {
            let es = st2[i].entries;
            assert forall|k: int| 0 <= k < es.len() implies confined_val(
                #[trigger] es[k].1,
            ) by {
                if k < es.len() - 1 {
                    assert(es[k] == st[i].entries[k]);
                }
            }
        }
    }
}

/// Appending a frame of confined values keeps the arena confined.
pub proof fn lemma_confined_push(st: Seq<FrameV>, f: FrameV)
    requires
        confined_st(st),
        confined_frame(f),
    ensures
        confined_st(st.push(f)),
{
    let st2 = st.push(f);
    assert forall|i: int| 0 <= i < st2.len() implies confined_frame(#[trigger] st2[i]) by {
        if i < st.len() {
            assert(st2[i] == st[i]);
        } else {
            assert(st2[i] == f);
        }
    }
}

/// Evaluating a guarded expression in a confined arena keeps the
/// arena confined and yields at most one `Return` layer; a confined
/// expression yields none.
pub proof fn lemma_confinement_expr(e: ExprV, st: Seq<FrameV>, at: int, fuel: nat)
    requires
        confined_st(st),
        guarded_expr(e),
        0 <= at < st.len(),
    ensures
        ({
            let o = eval_expr_s(e, st, at, fuel);
            confined_st(o.st) && (o.res matches Ok(v) ==> semiconfined_val(v)) && (confined_expr(e)
                ==> (o.res matches Ok(v) ==> confined_val(v)))
        }),
    decreases fuel, e,
{
    lemma_eval_expr_locality(e, st, at, fuel);
    match e {
        ExprV::Ident(n) => {
            if env_lookup(st, at, n) is Some {
                lemma_confined_lookup(st, at, n);
            }
        },
        ExprV::Lit(_) => {},
        ExprV::Prefix(_, inner) => {
            lemma_confinement_expr(*inner, st, at, fuel);
        },
        ExprV::Infix(_, l, r) => {
            lemma_confinement_expr(*l, st, at, fuel);
            lemma_eval_expr_locality(*l, st, at, fuel);
            let lo = eval_expr_s(*l, st, at, fuel);
            if lo.res is Ok {
                lemma_confinement_expr(*r, lo.st, at, fuel);
            }
        },
        ExprV::If { cond, consequence, alternative } => {
            lemma_confinement_expr(*cond, st, at, fuel);
            lemma_eval_expr_locality(*cond, st, at, fuel);
            let co = eval_expr_s(*cond, st, at, fuel);
            match co.res {
                Err(_) => {},
                Ok(cv) => {
                    if truthy_s(cv) {
                        lemma_confinement_block(consequence, co.st, at, fuel);
                    } else {
                        match alternative {
                            Some(alt) => {
                                lemma_confinement_block(alt, co.st, at, fuel);
                            },
                            None => {},
                        }
                    }
                },
            }
        },
        ExprV::Func { .. } => {},
        ExprV::Call { callee, args } => {
            lemma_confinement_expr(*callee, st, at, fuel);
            lemma_eval_expr_locality(*callee, st, at, fuel);
            let fo = eval_expr_s(*callee, st, at, fuel);
            match fo.res {
                Err(_) => {},
                Ok(fv) => match fv {
                    ValueV::Function { params, body, env } => {
                        lemma_confinement_exprs(args, fo.st, at, fuel);
                        lemma_eval_exprs_locality(args, fo.st, at, fuel);
                        let (st1, ares) = eval_exprs_s(args, fo.st, at, fuel);
                        match ares {
                            Err(_) => {},
                            Ok(vals) => {
                                if fuel > 0 {
                                    let frame = FrameV {
                                        entries: zip_params(params, vals),
                                        outer: Some(env),
                                    };
                                    assert forall|k: int|
                                        0 <= k < frame.entries.len() implies confined_val(
                                        #[trigger] frame.entries[k].1,
                                    ) by {
                                        assert(frame.entries[k].1 == vals[k]);
                                    }
                                    lemma_confined_push(st1, frame);
                                    let st2 = st1.push(frame);
                                    lemma_confinement_block(
                                        body,
                                        st2,
                                        st1.len() as int,
                                        (fuel - 1) as nat,
                                    );
                                }
                            },
                        }
                    },
                    _ => {},
                },
            }
        },
    }
}

/// Evaluating a guarded block in a confined arena keeps the arena
/// confined and yields at most one `Return` layer; a confined block
/// yields none.
pub proof fn lemma_confinement_block(b: BlockV, st: Seq<FrameV>, at: int, fuel: nat)
    requires
        confined_st(st),
        guarded_block(b),
        0 <= at < st.len(),
    ensures
        ({
            let o = eval_block_s(b, st, at, fuel);
            confined_st(o.st) && (o.res matches Ok(v) ==> semiconfined_val(v)) && (confined_block(
                b,
            ) ==> (o.res matches Ok(v) ==> confined_val(v)))
        }),
    decreases fuel, b,
{
    lemma_confinement_stmts(b.0, st, at, fuel);
}

/// Evaluating guarded statements in a confined arena keeps the arena
/// confined and yields at most one `Return` layer; confined
/// statements yield none.
pub proof fn lemma_confinement_stmts(ss: Seq<StmtV>, st: Seq<FrameV>, at: int, fuel: nat)
    requires
        confined_st(st),
        guarded_stmts(ss),
        0 <= at < st.len(),
    ensures
        ({
            let o = eval_stmts_s(ss, st, at, fuel);
            confined_st(o.st) && (o.res matches Ok(v) ==> semiconfined_val(v)) && (confined_stmts(
                ss,
            ) ==> (o.res matches Ok(v) ==> confined_val(v)))
        }),
    decreases fuel, ss,
{
    if ss.len() > 0 {
        lemma_confinement_stmt(ss[0], st, at, fuel);
        lemma_eval_stmt_locality(ss[0], st, at, fuel);
        let o = eval_stmt_s(ss[0], st, at, fuel);
        match o.res {
            Err(_) => {},
            Ok(v) => {
                if !((v matches ValueV::Return(_)) || ss.len() == 1) {
                    lemma_confinement_stmts(ss.drop_first(), o.st, at, fuel);
                }
            },
        }
    }
}

/// Evaluating a guarded statement in a confined arena keeps the arena
/// confined and yields at most one `Return` layer; a confined
/// statement yields none.
pub proof fn lemma_confinement_stmt(s: StmtV, st: Seq<FrameV>, at: int, fuel: nat)
    requires
        confined_st(st),
        guarded_stmt(s),
        0 <= at < st.len(),
    ensures
        ({
            let o = eval_stmt_s(s, st, at, fuel);
            confined_st(o.st) && (o.res matches Ok(v) ==> semiconfined_val(v)) && (confined_stmt(s)
                ==> (o.res matches Ok(v) ==> confined_val(v)))
        }),
    decreases fuel, s,
{
    match s {
        StmtV::Let { name, expr } => {
            lemma_confined_expr_guarded(expr);
            lemma_confinement_expr(expr, st, at, fuel);
            lemma_eval_expr_locality(expr, st, at, fuel);
            let o = eval_expr_s(expr, st, at, fuel);
            match o.res {
                Ok(v) => {
                    lemma_confined_set(o.st, at, name, v);
                },
                Err(_) => {},
            }
        },
        StmtV::Return(e) => {
            lemma_confined_expr_guarded(e);
            lemma_confinement_expr(e, st, at, fuel);
        },
        StmtV::Expr(e) => {
            lemma_confinement_expr(e, st, at, fuel);
        },
        StmtV::Block(b) => {
            lemma_confinement_block(b, st, at, fuel);
        },
    }
}

/// Evaluating confined expressions in a confined arena keeps the
/// arena confined and yields confined values.
pub proof fn lemma_confinement_exprs(es: Seq<ExprV>, st: Seq<FrameV>, at: int, fuel: nat)
    requires
        confined_st(st),
        confined_exprs(es),
        0 <= at < st.len(),
    ensures
        ({
            let (st2, res) = eval_exprs_s(es, st, at, fuel);
            confined_st(st2) && (res matches Ok(vs) ==> forall|k: int|
                0 <= k < vs.len() ==> confined_val(#[trigger] vs[k]))
        }),
    decreases fuel, es,
{
    if es.len() > 0 {
        lemma_confined_expr_guarded(es[0]);
        lemma_confinement_expr(es[0], st, at, fuel);
        lemma_eval_expr_locality(es[0], st, at, fuel);
        let o = eval_expr_s(es[0], st, at, fuel);
        match o.res {
            Err(_) => {},
            Ok(v) => {
                lemma_confinement_exprs(es.drop_first(), o.st, at, fuel);
                let (st2, rest) = eval_exprs_s(es.drop_first(), o.st, at, fuel);
                match rest {
                    Err(_) => {},
                    Ok(vs) => {
                        assert forall|k: int| 0 <= k < (seq![v] + vs).len() implies confined_val(
                            #[trigger] (seq![v] + vs)[k],
                        ) by {
                            if k > 0 {
                                assert((seq![v] + vs)[k] == vs[k - 1]);
                            }
                        }
                    },
                }
            },
        }
    }
}

/// Return confinement: no `Return`-wrapped value escapes a whole
/// program whose statements are guarded — every `return` and every
/// `let` bind an expression without a reachable `return` of its own.
/// The one unwrap at the program boundary then leaves a plain value.
pub proof fn lemma_return_confinement(
    ss: Seq<StmtV>,
    st: Seq<FrameV>,
    at: int,
    fuel: nat,
    last: ValueV,
)
    requires
        confined_st(st),
        guarded_stmts(ss),
        confined_val(last),
        0 <= at < st.len(),
    ensures
        eval_program_s(ss, st, at, fuel, last).res matches Ok(v) ==> !(v
            matches ValueV::Return(_)),
    decreases fuel, ss,
{
    if ss.len() > 0 {
        lemma_confinement_stmt(ss[0], st, at, fuel);
        lemma_eval_stmt_locality(ss[0], st, at, fuel);
        let o = eval_stmt_s(ss[0], st, at, fuel);
        match o.res {
            Err(_) => {},
            Ok(v) => match v {
                ValueV::Return(_) => {},
                _ => {
                    lemma_return_confinement(ss.drop_first(), o.st, at, fuel, v);
                },
            },
        }
    }
}

} // verus!
