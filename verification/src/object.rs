use vstd::prelude::*;

use crate::ast::{duplicate_idents, idents_view, Block, BlockV};
use crate::render::{i64_string, join_comma};
use crate::token::Identifier;
use vstd::string::StringExecFns;

verus! {

/// A runtime value.
///
/// `Return` is an internal wrapper that carries an early return upward
/// through blocks; it is unwrapped at function-call and program level.
#[derive(Debug, PartialEq)]
pub enum Object {
    Nil,
    Int(i64),
    Bool(bool),
    Return(Box<Object>),
    Function(Function),
}

/// A function value: parameter names, a body, and the handle of the
/// environment captured when the literal was evaluated.
#[derive(Debug, PartialEq)]
pub struct Function {
    pub parameters: Vec<Identifier>,
    pub body: Block,
    pub env: usize,
}

/// The mathematical image of a runtime value.
pub enum ValueV {
    Nil,
    Int(i64),
    Bool(bool),
    Return(Box<ValueV>),
    Function { params: Seq<Seq<char>>, body: BlockV, env: int },
}

/// Image of a value.
pub open spec fn obj_view(o: Object) -> ValueV
    decreases o,
{
    match o {
        Object::Nil => ValueV::Nil,
        Object::Int(n) => ValueV::Int(n),
        Object::Bool(b) => ValueV::Bool(b),
        Object::Return(inner) => ValueV::Return(Box::new(obj_view(*inner))),
        Object::Function(f) => ValueV::Function {
            params: idents_view(f.parameters@),
            body: f.body@,
            env: f.env as int,
        },
    }
}

impl View for Object {
    type V = ValueV;

    open spec fn view(&self) -> ValueV {
        obj_view(*self)
    }
}

/// A value is well formed against an arena of `n` environments when
/// every environment handle it carries points into the arena.
pub open spec fn obj_wf(v: ValueV, n: int) -> bool
    decreases v,
{
    match v {
        ValueV::Return(inner) => obj_wf(*inner, n),
        ValueV::Function { env, .. } => 0 <= env < n,
        _ => true,
    }
}

/// Well-formedness is preserved when the arena grows.
pub proof fn lemma_obj_wf_grow(v: ValueV, n: int, m: int)
    requires
        obj_wf(v, n),
        n <= m,
    ensures
        obj_wf(v, m),
    decreases v,
{
    match v {
        ValueV::Return(inner) => lemma_obj_wf_grow(*inner, n, m),
        _ => {},
    }
}

/// An evaluation error.
#[derive(Debug, PartialEq)]
pub enum EvalError {
    /// A binary operator was applied to operands of incompatible types.
    TypeMismatch { left: String, op: String, right: String },
    /// A prefix operator was applied to an operand it does not accept.
    UnknownOperator { op: String, operand: String },
    /// A name was not bound in the environment chain.
    IdentifierNotFound { name: String },
    /// Integer division by zero.
    DivisionByZero,
    /// A call whose callee is not a function value.
    CallOfNonFunction,
    /// The evaluator's recursion budget was exhausted.
    RecursionLimit,
}

/// The mathematical image of an evaluation error.
pub enum ErrV {
    TypeMismatch { left: Seq<char>, op: Seq<char>, right: Seq<char> },
    UnknownOperator { op: Seq<char>, operand: Seq<char> },
    IdentifierNotFound { name: Seq<char> },
    DivisionByZero,
    CallOfNonFunction,
    RecursionLimit,
}

impl View for EvalError {
    type V = ErrV;

    open spec fn view(&self) -> ErrV {
        match self {
            EvalError::TypeMismatch { left, op, right } => ErrV::TypeMismatch {
                left: left@,
                op: op@,
                right: right@,
            },
            EvalError::UnknownOperator { op, operand } => ErrV::UnknownOperator {
                op: op@,
                operand: operand@,
            },
            EvalError::IdentifierNotFound { name } => ErrV::IdentifierNotFound { name: name@ },
            EvalError::DivisionByZero => ErrV::DivisionByZero,
            EvalError::CallOfNonFunction => ErrV::CallOfNonFunction,
            EvalError::RecursionLimit => ErrV::RecursionLimit,
        }
    }
}

/// The message text of an error.
pub open spec fn err_chars(e: ErrV) -> Seq<char> {
    match e {
        ErrV::TypeMismatch { left, op, right } => "type mismatch: "@ + left + " "@ + op + " "@
            + right,
        ErrV::UnknownOperator { op, operand } => "unknown operator "@ + op + operand,
        ErrV::IdentifierNotFound { name } => "identifier not found: "@ + name,
        ErrV::DivisionByZero => "division by zero"@,
        ErrV::CallOfNonFunction => "call of non-function"@,
        ErrV::RecursionLimit => "recursion limit exceeded"@,
    }
}

impl EvalError {
    /// The error rendered as its message text.
    pub fn message(&self) -> (r: String)
        ensures
            r@ == err_chars(self@),
    {
        match self {
            EvalError::TypeMismatch { left, op, right } => {
                let mut s = "type mismatch: ".to_owned();
                s.append(left.as_str());
                s.append(" ");
                s.append(op.as_str());
                s.append(" ");
                s.append(right.as_str());
                proof {
                    assert(s@ =~= err_chars(self@));
                }
                s
            },
            EvalError::UnknownOperator { op, operand } => {
                let mut s = "unknown operator ".to_owned();
                s.append(op.as_str());
                s.append(operand.as_str());
                proof {
                    assert(s@ =~= err_chars(self@));
                }
                s
            },
            EvalError::IdentifierNotFound { name } => {
                let mut s = "identifier not found: ".to_owned();
                s.append(name.as_str());
                proof {
                    assert(s@ =~= err_chars(self@));
                }
                s
            },
            EvalError::DivisionByZero => "division by zero".to_owned(),
            EvalError::CallOfNonFunction => "call of non-function".to_owned(),
            EvalError::RecursionLimit => "recursion limit exceeded".to_owned(),
        }
    }
}

/// Rendering of a value: `nil`, base-10 integers, `true`/`false`, the
/// `return` wrapper spelled out, and functions by their parameter list.
pub open spec fn value_chars(v: ValueV) -> Seq<char>
    decreases v,
{
    match v {
        ValueV::Nil => "nil"@,
        ValueV::Int(n) => crate::render::i64_chars(n),
        ValueV::Bool(b) => if b {
            "true"@
        } else {
            "false"@
        },
        ValueV::Return(inner) => "return "@ + value_chars(*inner),
        ValueV::Function { params, .. } => "fn("@ + join_comma(params) + ") { ... }"@,
    }
}

impl Object {
    /// The value rendered as display text.
    pub fn render(&self) -> (r: String)
        ensures
            r@ == value_chars(self@),
        decreases self,
    {
        match self {
            Object::Nil => "nil".to_owned(),
            Object::Int(n) => i64_string(*n),
            Object::Bool(b) => if *b {
                "true".to_owned()
            } else {
                "false".to_owned()
            },
            Object::Return(inner) => {
                let mut s = "return ".to_owned();
                let e = inner.render();
                s.append(e.as_str());
                proof {
                    assert(s@ =~= value_chars(self@));
                }
                s
            },
            Object::Function(f) => {
                let mut s = "fn(".to_owned();
                let params = render_names(&f.parameters);
                s.append(params.as_str());
                s.append(") { ... }");
                proof {
                    assert(s@ =~= value_chars(self@));
                }
                s
            },
        }
    }

    /// An owned copy with the same image.
    pub fn duplicate(&self) -> (r: Object)
        ensures
            r@ == self@,
        decreases self,
    {
        match self {
            Object::Nil => Object::Nil,
            Object::Int(n) => Object::Int(*n),
            Object::Bool(b) => Object::Bool(*b),
            Object::Return(inner) => Object::Return(Box::new(inner.duplicate())),
            Object::Function(f) => Object::Function(Function {
                parameters: duplicate_idents(&f.parameters),
                body: f.body.duplicate(),
                env: f.env,
            }),
        }
    }

    /// The name of the value's type, as used in diagnostics.
    pub fn name(&self) -> (r: &'static str)
        ensures
            r@ == name_chars(self@),
    {
        match self {
            Object::Nil => "nil",
            Object::Int(_) => "int",
            Object::Bool(_) => "bool",
            Object::Return(_) => "return",
            Object::Function(_) => "fn",
        }
    }
}

/// The name of a value's type.
pub open spec fn name_chars(v: ValueV) -> Seq<char> {
    match v {
        ValueV::Nil => "nil"@,
        ValueV::Int(_) => "int"@,
        ValueV::Bool(_) => "bool"@,
        ValueV::Return(_) => "return"@,
        ValueV::Function { .. } => "fn"@,
    }
}

/// A name list as text, joined by a comma and a space.
fn render_names(ids: &Vec<Identifier>) -> (r: String)
    ensures
        r@ == join_comma(idents_view(ids@)),
{
    let mut s = String::new();
    let n = ids.len();
    let mut i: usize = 0;
    while i < n
        invariant
            n == ids.len(),
            i <= n,
            s@ == join_comma(idents_view(ids@).take(i as int)),
        decreases n - i,
    {
        if i > 0 {
            s.append(", ");
        }
        s.append(ids[i].0.as_str());
        proof {
            let vs = idents_view(ids@);
            crate::render::lemma_join_comma_push(vs.take(i as int), vs[i as int]);
            assert(vs.take(i + 1) =~= vs.take(i as int).push(vs[i as int]));
        }
        i = i + 1;
    }
    proof {
        assert(idents_view(ids@).take(n as int) =~= idents_view(ids@));
    }
    s
}

/// A type-mismatch error for `l op r`.
pub open spec fn type_mismatch_s(l: ValueV, op: Seq<char>, r: ValueV) -> ErrV {
    ErrV::TypeMismatch { left: value_chars(l), op: op, right: value_chars(r) }
}

/// Logical negation: `nil` negates to `true`, booleans negate, and
/// every other value negates to `false`.
pub open spec fn bang_s(v: ValueV) -> ValueV {
    match v {
        ValueV::Nil => ValueV::Bool(true),
        ValueV::Bool(b) => ValueV::Bool(!b),
        _ => ValueV::Bool(false),
    }
}

/// Arithmetic negation: defined on integers only, wrapping at the
/// 64-bit boundary.
pub open spec fn minus_s(v: ValueV) -> Result<ValueV, ErrV> {
    match v {
        ValueV::Int(n) => Ok(ValueV::Int((0 as i64).wrapping_sub(n))),
        _ => Err(ErrV::UnknownOperator { op: "-"@, operand: value_chars(v) }),
    }
}

/// Addition on integers, wrapping at the 64-bit boundary.
pub open spec fn add_s(l: ValueV, r: ValueV) -> Result<ValueV, ErrV> {
    match (l, r) {
        (ValueV::Int(a), ValueV::Int(b)) => Ok(ValueV::Int(a.wrapping_add(b))),
        _ => Err(type_mismatch_s(l, "+"@, r)),
    }
}

/// Subtraction on integers, wrapping at the 64-bit boundary.
pub open spec fn sub_s(l: ValueV, r: ValueV) -> Result<ValueV, ErrV> {
    match (l, r) {
        (ValueV::Int(a), ValueV::Int(b)) => Ok(ValueV::Int(a.wrapping_sub(b))),
        _ => Err(type_mismatch_s(l, "-"@, r)),
    }
}

/// Multiplication on integers, wrapping at the 64-bit boundary.
pub open spec fn mul_s(l: ValueV, r: ValueV) -> Result<ValueV, ErrV> {
    match (l, r) {
        (ValueV::Int(a), ValueV::Int(b)) => Ok(ValueV::Int(a.wrapping_mul(b))),
        _ => Err(type_mismatch_s(l, "*"@, r)),
    }
}

/// Division on integers, truncating toward zero; division by zero is
/// an error, and the one overflowing quotient wraps.
pub open spec fn div_s(l: ValueV, r: ValueV) -> Result<ValueV, ErrV> {
    match (l, r) {
        (ValueV::Int(a), ValueV::Int(b)) => if b == 0 {
            Err(ErrV::DivisionByZero)
        } else {
            match a.checked_div(b) {
                Some(q) => Ok(ValueV::Int(q)),
                None => Ok(ValueV::Int(i64::MIN)),
            }
        },
        _ => Err(type_mismatch_s(l, "/"@, r)),
    }
}

/// Equality, defined between two integers or two booleans.
pub open spec fn eq_s(l: ValueV, r: ValueV) -> Result<ValueV, ErrV> {
    match (l, r) {
        (ValueV::Int(a), ValueV::Int(b)) => Ok(ValueV::Bool(a == b)),
        (ValueV::Bool(a), ValueV::Bool(b)) => Ok(ValueV::Bool(a == b)),
        _ => Err(type_mismatch_s(l, "=="@, r)),
    }
}

/// Inequality: the negation of equality where equality is defined.
pub open spec fn not_eq_s(l: ValueV, r: ValueV) -> Result<ValueV, ErrV> {
    match (l, r) {
        (ValueV::Int(a), ValueV::Int(b)) => Ok(ValueV::Bool(a != b)),
        (ValueV::Bool(a), ValueV::Bool(b)) => Ok(ValueV::Bool(a != b)),
        _ => Err(type_mismatch_s(l, "!="@, r)),
    }
}

/// Strict greater-than on integers.
pub open spec fn gt_s(l: ValueV, r: ValueV) -> Result<ValueV, ErrV> {
    match (l, r) {
        (ValueV::Int(a), ValueV::Int(b)) => Ok(ValueV::Bool(a > b)),
        _ => Err(type_mismatch_s(l, ">"@, r)),
    }
}

/// Strict less-than on integers.
pub open spec fn lt_s(l: ValueV, r: ValueV) -> Result<ValueV, ErrV> {
    match (l, r) {
        (ValueV::Int(a), ValueV::Int(b)) => Ok(ValueV::Bool(a < b)),
        _ => Err(type_mismatch_s(l, "<"@, r)),
    }
}

/// Less-than-or-equal on integers.
pub open spec fn lte_s(l: ValueV, r: ValueV) -> Result<ValueV, ErrV> {
    match (l, r) {
        (ValueV::Int(a), ValueV::Int(b)) => Ok(ValueV::Bool(a <= b)),
        _ => Err(type_mismatch_s(l, "<="@, r)),
    }
}

/// Greater-than-or-equal on integers.
pub open spec fn gte_s(l: ValueV, r: ValueV) -> Result<ValueV, ErrV> {
    match (l, r) {
        (ValueV::Int(a), ValueV::Int(b)) => Ok(ValueV::Bool(a >= b)),
        _ => Err(type_mismatch_s(l, ">="@, r)),
    }
}

impl Object {
    /// Logical negation of this value; never fails.
    pub fn bang(&self) -> (r: Result<Object, EvalError>)
        ensures
            r matches Ok(v) && v@ == bang_s(self@),
    {
        match self {
            Object::Nil => Ok(Object::Bool(true)),
            Object::Bool(value) => if *value {
                Ok(Object::Bool(false))
            } else {
                Ok(Object::Bool(true))
            },
            Object::Int(_) => Ok(Object::Bool(false)),
            Object::Return(_) => Ok(Object::Bool(false)),
            Object::Function(_) => Ok(Object::Bool(false)),
        }
    }

    /// Arithmetic negation; fails on every non-integer operand.
    pub fn minus(&self) -> (r: Result<Object, EvalError>)
        ensures
            result_view(r) == minus_s(self@),
    {
        match self {
            Object::Int(value) => Ok(Object::Int((0 as i64).wrapping_sub(*value))),
            _ => Err(EvalError::UnknownOperator { op: "-".to_owned(), operand: self.render() }),
        }
    }

    /// Addition; defined on two integers, wrapping.
    pub fn add(&self, right: Object) -> (r: Result<Object, EvalError>)
        ensures
            result_view(r) == add_s(self@, right@),
    {
        match (self, &right) {
            (Object::Int(left), Object::Int(rv)) => Ok(Object::Int(left.wrapping_add(*rv))),
            _ => Err(self.mismatch("+", &right)),
        }
    }

    /// Subtraction; defined on two integers, wrapping.
    pub fn sub(&self, right: Object) -> (r: Result<Object, EvalError>)
        ensures
            result_view(r) == sub_s(self@, right@),
    {
        match (self, &right) {
            (Object::Int(left), Object::Int(rv)) => Ok(Object::Int(left.wrapping_sub(*rv))),
            _ => Err(self.mismatch("-", &right)),
        }
    }

    /// Multiplication; defined on two integers, wrapping.
    pub fn mul(&self, right: Object) -> (r: Result<Object, EvalError>)
        ensures
            result_view(r) == mul_s(self@, right@),
    {
        match (self, &right) {
            (Object::Int(left), Object::Int(rv)) => Ok(Object::Int(left.wrapping_mul(*rv))),
            _ => Err(self.mismatch("*", &right)),
        }
    }

    /// Division truncating toward zero; zero divisors are an error.
    pub fn div(&self, right: Object) -> (r: Result<Object, EvalError>)
        ensures
            result_view(r) == div_s(self@, right@),
    {
        match (self, &right) {
            (Object::Int(left), Object::Int(rv)) => if *rv == 0 {
                Err(EvalError::DivisionByZero)
            } else {
                match left.checked_div(*rv) {
                    Some(q) => Ok(Object::Int(q)),
                    None => Ok(Object::Int(i64::MIN)),
                }
            },
            _ => Err(self.mismatch("/", &right)),
        }
    }

    /// Equality; defined on two integers or two booleans.
    pub fn eq(&self, right: Object) -> (r: Result<Object, EvalError>)
        ensures
            result_view(r) == eq_s(self@, right@),
    {
        match (self, &right) {
            (Object::Int(left), Object::Int(rv)) => Ok(Object::Bool(*left == *rv)),
            (Object::Bool(left), Object::Bool(rv)) => Ok(Object::Bool(*left == *rv)),
            _ => Err(self.mismatch("==", &right)),
        }
    }

    /// Inequality; defined on two integers or two booleans.
    pub fn not_eq(&self, right: Object) -> (r: Result<Object, EvalError>)
        ensures
            result_view(r) == not_eq_s(self@, right@),
    {
        match (self, &right) {
            (Object::Int(left), Object::Int(rv)) => Ok(Object::Bool(*left != *rv)),
            (Object::Bool(left), Object::Bool(rv)) => Ok(Object::Bool(*left != *rv)),
            _ => Err(self.mismatch("!=", &right)),
        }
    }

    /// Strict greater-than; defined on two integers.
    pub fn gt(&self, right: Object) -> (r: Result<Object, EvalError>)
        ensures
            result_view(r) == gt_s(self@, right@),
    {
        match (self, &right) {
            (Object::Int(left), Object::Int(rv)) => Ok(Object::Bool(*left > *rv)),
            _ => Err(self.mismatch(">", &right)),
        }
    }

    /// Strict less-than; defined on two integers.
    pub fn lt(&self, right: Object) -> (r: Result<Object, EvalError>)
        ensures
            result_view(r) == lt_s(self@, right@),
    {
        match (self, &right) {
            (Object::Int(left), Object::Int(rv)) => Ok(Object::Bool(*left < *rv)),
            _ => Err(self.mismatch("<", &right)),
        }
    }

    /// Less-than-or-equal; defined on two integers.
    pub fn lte(&self, right: Object) -> (r: Result<Object, EvalError>)
        ensures
            result_view(r) == lte_s(self@, right@),
    {
        match (self, &right) {
            (Object::Int(left), Object::Int(rv)) => Ok(Object::Bool(*left <= *rv)),
            _ => Err(self.mismatch("<=", &right)),
        }
    }

    /// Greater-than-or-equal; defined on two integers.
    pub fn gte(&self, right: Object) -> (r: Result<Object, EvalError>)
        ensures
            result_view(r) == gte_s(self@, right@),
    {
        match (self, &right) {
            (Object::Int(left), Object::Int(rv)) => Ok(Object::Bool(*left >= *rv)),
            _ => Err(self.mismatch(">=", &right)),
        }
    }

    /// A type-mismatch error naming both operands and the operator.
    fn mismatch(&self, op: &str, right: &Object) -> (r: EvalError)
        ensures
            r@ == type_mismatch_s(self@, op@, right@),
    {
        EvalError::TypeMismatch { left: self.render(), op: op.to_owned(), right: right.render() }
    }
}

/// Image of an evaluation result.
pub open spec fn result_view(r: Result<Object, EvalError>) -> Result<ValueV, ErrV> {
    match r {
        Ok(o) => Ok(obj_view(o)),
        Err(e) => Err(e@),
    }
}

} // verus!
