//! The template expression language: a pure, side-effect-free evaluator
//! over a restricted grammar.
//!
//! Expressions compute entry and transaction fields from the bound
//! parameter environment.  Evaluation is deterministic, total (every call
//! returns a value or a typed failure) and fully specified: the meaning of
//! every expression is the spec-level function [`spec_eval`] over the
//! abstracted environment.

use crate::decimal::{add_overflows, aligned_mantissa, joint_scale, mul_overflows, spec_neg, Dec};
use crate::params::{spec_lookup_bound, BoundParam, ParamValue, Params};
use crate::types::DateVal;
use vstd::prelude::*;

verus! {

/// A unary operator.
#[derive(Clone, Copy, Debug, PartialEq, Eq, Structural)]
pub enum UnOp {
    /// Numeric negation.
    OpNeg,
    /// Boolean negation.
    OpNot,
}

/// A binary operator.
#[derive(Clone, Copy, Debug, PartialEq, Eq, Structural)]
pub enum BinOp {
    OpAdd,
    OpSub,
    OpMul,
    OpEq,
    OpNe,
    OpLt,
    OpLe,
    OpGt,
    OpGe,
    OpAnd,
    OpOr,
}

/// An expression of the template language.
pub enum Expr {
    /// A string literal.
    LitStr(String),
    /// A decimal literal.
    LitDec(Dec),
    /// A boolean literal.
    LitBool(bool),
    /// A reference to a bound parameter.
    Var(String),
    /// A unary application.
    Unary(UnOp, Box<Expr>),
    /// A binary application.  Conjunction and disjunction short-circuit.
    Binary(BinOp, Box<Expr>, Box<Expr>),
    /// A conditional: only the selected branch is evaluated.
    Cond(Box<Expr>, Box<Expr>, Box<Expr>),
}

/// Why an evaluation failed.
#[derive(Debug)]
pub enum EvalFailure {
    /// The expression refers to a name the environment does not bind.
    UnknownVar { name: String },
    /// An operator was applied to values of the wrong type.
    WrongType,
    /// An arithmetic result left the representable decimal range.
    Overflow,
}

impl Expr {
    /// Structural validity: every decimal literal is well-formed.
    pub open spec fn wf(self) -> bool
        decreases self,
    {
        match self {
            Expr::LitDec(d) => d.wf(),
            Expr::Unary(_, e1) => e1.wf(),
            Expr::Binary(_, e1, e2) => e1.wf() && e2.wf(),
            Expr::Cond(c, t, f) => c.wf() && t.wf() && f.wf(),
            _ => true,
        }
    }
}

/// The abstract form of a runtime value: strings by their character
/// sequences, everything else by its plain content.
pub ghost enum SpecVal {
    SvStr(Seq<char>),
    SvInt(i64),
    SvDec(Dec),
    SvBool(bool),
    SvUuid(Seq<char>),
    SvDate(DateVal),
    SvTs { secs: i64, nanos: u32 },
    SvJson(Seq<char>),
}

/// The abstract form of an evaluation failure.
pub ghost enum SpecFailure {
    FUnknownVar(Seq<char>),
    FWrongType,
    FOverflow,
}

/// The abstraction of a runtime value.
pub open spec fn view_of(v: ParamValue) -> SpecVal {
    match v {
        ParamValue::VStr(s) => SpecVal::SvStr(s@),
        ParamValue::VInt(i) => SpecVal::SvInt(i),
        ParamValue::VDec(d) => SpecVal::SvDec(d),
        ParamValue::VBool(b) => SpecVal::SvBool(b),
        ParamValue::VUuid(u) => SpecVal::SvUuid(u@),
        ParamValue::VDate(d) => SpecVal::SvDate(d),
        ParamValue::VTs { secs, nanos } => SpecVal::SvTs { secs, nanos },
        ParamValue::VJson(s) => SpecVal::SvJson(s@),
    }
}

/// The abstraction of a failure.
pub open spec fn failure_view(f: EvalFailure) -> SpecFailure {
    match f {
        EvalFailure::UnknownVar { name } => SpecFailure::FUnknownVar(name@),
        EvalFailure::WrongType => SpecFailure::FWrongType,
        EvalFailure::Overflow => SpecFailure::FOverflow,
    }
}

/// The abstraction of an environment: names and abstract values, in order.
pub open spec fn env_view(env: Seq<BoundParam>) -> Seq<(Seq<char>, SpecVal)> {
    env.map_values(|b: BoundParam| (b.name@, view_of(b.value)))
}

/// The first abstract binding named `name`, if any.
pub open spec fn spec_lookup_sv(env: Seq<(Seq<char>, SpecVal)>, name: Seq<char>) -> Option<SpecVal>
    decreases env.len(),
{
    if env.len() == 0 {
        None
    } else if env[0].0 == name {
        Some(env[0].1)
    } else {
        spec_lookup_sv(env.drop_first(), name)
    }
}

/// Looking a name up in an abstracted environment agrees with looking it up
/// in the runtime environment.
pub proof fn lemma_lookup_view(env: Seq<BoundParam>, name: Seq<char>)
    ensures
        spec_lookup_sv(env_view(env), name) == (match spec_lookup_bound(env, name) {
            Some(v) => Some(view_of(v)),
            None => None::<SpecVal>,
        }),
    decreases env.len(),
{
    if env.len() != 0 {
        assert(env_view(env)[0] == (env[0].name@, view_of(env[0].value)));
        assert(env_view(env).drop_first() =~= env_view(env.drop_first()));
        lemma_lookup_view(env.drop_first(), name);
    }
}

/// A numeric value, coerced to a decimal: integers become scale-zero
/// decimals.
pub open spec fn spec_as_dec(v: SpecVal) -> Option<Dec> {
    match v {
        SpecVal::SvDec(d) => Some(d),
        SpecVal::SvInt(i) => Some(Dec { mantissa: i as i128, scale: 0 }),
        _ => None,
    }
}

/// The decimal sum at the joint scale.
pub open spec fn spec_add_dec(a: Dec, b: Dec) -> Dec {
    Dec {
        mantissa: (aligned_mantissa(a, joint_scale(a, b)) + aligned_mantissa(
            b,
            joint_scale(a, b),
        )) as i128,
        scale: joint_scale(a, b),
    }
}

/// The decimal product at the summed scale.
pub open spec fn spec_mul_dec(a: Dec, b: Dec) -> Dec {
    Dec { mantissa: (a.mantissa * b.mantissa) as i128, scale: (a.scale + b.scale) as u32 }
}

/// Value equality under `==`: numbers compare by value across scales,
/// strings and identifiers by content, dates, timestamps and booleans by
/// their parts; any other pairing is a type error.
pub open spec fn spec_value_eq(v1: SpecVal, v2: SpecVal) -> Result<bool, SpecFailure> {
    match (spec_as_dec(v1), spec_as_dec(v2)) {
        (Some(d1), Some(d2)) => Ok(d1.val() == d2.val()),
        _ => match (v1, v2) {
            (SpecVal::SvStr(a), SpecVal::SvStr(b)) => Ok(a == b),
            (SpecVal::SvUuid(a), SpecVal::SvUuid(b)) => Ok(a == b),
            (SpecVal::SvBool(a), SpecVal::SvBool(b)) => Ok(a == b),
            (SpecVal::SvDate(a), SpecVal::SvDate(b)) => Ok(a == b),
            (SpecVal::SvTs { secs: s1, nanos: n1 }, SpecVal::SvTs { secs: s2, nanos: n2 }) => Ok(
                s1 == s2 && n1 == n2,
            ),
            _ => Err(SpecFailure::FWrongType),
        },
    }
}

/// Strict order under `<`: numbers by value (overflow of the difference is
/// reported), dates chronologically, timestamps by (seconds, nanoseconds);
/// any other pairing is a type error.
pub open spec fn spec_value_lt(v1: SpecVal, v2: SpecVal) -> Result<bool, SpecFailure> {
    match (spec_as_dec(v1), spec_as_dec(v2)) {
        (Some(d1), Some(d2)) => if add_overflows(d1, spec_neg(d2)) {
            Err(SpecFailure::FOverflow)
        } else {
            Ok(d1.val() < d2.val())
        },
        _ => match (v1, v2) {
            (SpecVal::SvDate(a), SpecVal::SvDate(b)) => Ok(a.spec_le(b) && a != b),
            (SpecVal::SvTs { secs: s1, nanos: n1 }, SpecVal::SvTs { secs: s2, nanos: n2 }) => Ok(
                s1 < s2 || (s1 == s2 && n1 < n2),
            ),
            _ => Err(SpecFailure::FWrongType),
        },
    }
}

/// The meaning of a non-short-circuiting binary application.
pub open spec fn spec_apply_bin(op: BinOp, v1: SpecVal, v2: SpecVal) -> Result<
    SpecVal,
    SpecFailure,
> {
    match op {
        BinOp::OpAdd => match (spec_as_dec(v1), spec_as_dec(v2)) {
            (Some(d1), Some(d2)) => if add_overflows(d1, d2) {
                Err(SpecFailure::FOverflow)
            } else {
                Ok(SpecVal::SvDec(spec_add_dec(d1, d2)))
            },
            _ => match (v1, v2) {
                (SpecVal::SvStr(a), SpecVal::SvStr(b)) => Ok(SpecVal::SvStr(a + b)),
                _ => Err(SpecFailure::FWrongType),
            },
        },
        BinOp::OpSub => match (spec_as_dec(v1), spec_as_dec(v2)) {
            (Some(d1), Some(d2)) => if add_overflows(d1, spec_neg(d2)) {
                Err(SpecFailure::FOverflow)
            } else {
                Ok(SpecVal::SvDec(spec_add_dec(d1, spec_neg(d2))))
            },
            _ => Err(SpecFailure::FWrongType),
        },
        BinOp::OpMul => match (spec_as_dec(v1), spec_as_dec(v2)) {
            (Some(d1), Some(d2)) => if mul_overflows(d1, d2) {
                Err(SpecFailure::FOverflow)
            } else {
                Ok(SpecVal::SvDec(spec_mul_dec(d1, d2)))
            },
            _ => Err(SpecFailure::FWrongType),
        },
        BinOp::OpEq => match spec_value_eq(v1, v2) {
            Ok(b) => Ok(SpecVal::SvBool(b)),
            Err(f) => Err(f),
        },
        BinOp::OpNe => match spec_value_eq(v1, v2) {
            Ok(b) => Ok(SpecVal::SvBool(!b)),
            Err(f) => Err(f),
        },
        BinOp::OpLt => match spec_value_lt(v1, v2) {
            Ok(b) => Ok(SpecVal::SvBool(b)),
            Err(f) => Err(f),
        },
        BinOp::OpGt => match spec_value_lt(v2, v1) {
            Ok(b) => Ok(SpecVal::SvBool(b)),
            Err(f) => Err(f),
        },
        BinOp::OpLe => match spec_value_lt(v2, v1) {
            Ok(b) => Ok(SpecVal::SvBool(!b)),
            Err(f) => Err(f),
        },
        BinOp::OpGe => match spec_value_lt(v1, v2) {
            Ok(b) => Ok(SpecVal::SvBool(!b)),
            Err(f) => Err(f),
        },
        // Short-circuiting operators are handled by the evaluator itself.
        BinOp::OpAnd => Err(SpecFailure::FWrongType),
        BinOp::OpOr => Err(SpecFailure::FWrongType),
    }
}

/// The meaning of an expression: the abstract value it denotes under the
/// abstracted environment, or the failure it stops with.
pub open spec fn spec_eval(e: Expr, env: Seq<(Seq<char>, SpecVal)>) -> Result<SpecVal, SpecFailure>
    decreases e,
{
    match e {
        Expr::LitStr(s) => Ok(SpecVal::SvStr(s@)),
        Expr::LitDec(d) => Ok(SpecVal::SvDec(d)),
        Expr::LitBool(b) => Ok(SpecVal::SvBool(b)),
        Expr::Var(n) => match spec_lookup_sv(env, n@) {
            Some(v) => Ok(v),
            None => Err(SpecFailure::FUnknownVar(n@)),
        },
        Expr::Unary(op, e1) => match spec_eval(*e1, env) {
            Ok(v) => match op {
                UnOp::OpNeg => match spec_as_dec(v) {
                    Some(d) => Ok(SpecVal::SvDec(spec_neg(d))),
                    None => Err(SpecFailure::FWrongType),
                },
                UnOp::OpNot => match v {
                    SpecVal::SvBool(b) => Ok(SpecVal::SvBool(!b)),
                    _ => Err(SpecFailure::FWrongType),
                },
            },
            Err(f) => Err(f),
        },
        Expr::Binary(op, e1, e2) => match spec_eval(*e1, env) {
            Ok(v1) => match op {
                BinOp::OpAnd => match v1 {
                    SpecVal::SvBool(false) => Ok(SpecVal::SvBool(false)),
                    SpecVal::SvBool(true) => match spec_eval(*e2, env) {
                        Ok(SpecVal::SvBool(b2)) => Ok(SpecVal::SvBool(b2)),
                        Ok(_) => Err(SpecFailure::FWrongType),
                        Err(f) => Err(f),
                    },
                    _ => Err(SpecFailure::FWrongType),
                },
                BinOp::OpOr => match v1 {
                    SpecVal::SvBool(true) => Ok(SpecVal::SvBool(true)),
                    SpecVal::SvBool(false) => match spec_eval(*e2, env) {
                        Ok(SpecVal::SvBool(b2)) => Ok(SpecVal::SvBool(b2)),
                        Ok(_) => Err(SpecFailure::FWrongType),
                        Err(f) => Err(f),
                    },
                    _ => Err(SpecFailure::FWrongType),
                },
                _ => match spec_eval(*e2, env) {
                    Ok(v2) => spec_apply_bin(op, v1, v2),
                    Err(f) => Err(f),
                },
            },
            Err(f) => Err(f),
        },
        Expr::Cond(c, t, f) => match spec_eval(*c, env) {
            Ok(SpecVal::SvBool(true)) => spec_eval(*t, env),
            Ok(SpecVal::SvBool(false)) => spec_eval(*f, env),
            Ok(_) => Err(SpecFailure::FWrongType),
            Err(fl) => Err(fl),
        },
    }
}

/// Coerce a runtime value to a decimal.
pub(crate) fn as_dec(v: &ParamValue) -> (r: Option<Dec>)
    ensures
        r == spec_as_dec(view_of(*v)),
        v.wf() && r is Some ==> r.unwrap().wf(),
{
    match v {
        ParamValue::VDec(d) => Some(*d),
        ParamValue::VInt(i) => Some(Dec { mantissa: *i as i128, scale: 0 }),
        _ => None,
    }
}

/// Evaluate an expression against a bound parameter environment.
///
/// Pure and deterministic: the result is exactly what [`spec_eval`] assigns
/// to the expression under the abstracted environment, and every produced
/// value is structurally valid.
pub fn eval(e: &Expr, env: &Params) -> (r: Result<ParamValue, EvalFailure>)
    requires
        e.wf(),
        env.wf(),
    ensures
        match r {
            Ok(v) => spec_eval(*e, env_view(env.bound@)) == Ok::<SpecVal, SpecFailure>(view_of(v))
                && v.wf(),
            Err(f) => spec_eval(*e, env_view(env.bound@)) == Err::<SpecVal, SpecFailure>(
                failure_view(f),
            ),
        },
    decreases *e,
{
    match e {
        Expr::LitStr(s) => Ok(ParamValue::VStr(s.clone())),
        Expr::LitDec(d) => Ok(ParamValue::VDec(*d)),
        Expr::LitBool(b) => Ok(ParamValue::VBool(*b)),
        Expr::Var(n) => {
            proof {
                lemma_lookup_view(env.bound@, n@);
            }
            match env.lookup(n) {
                Some(k) => {
                    let v = &env.bound[k].value;
                    Ok(dup_value(v))
                },
                None => Err(EvalFailure::UnknownVar { name: n.clone() }),
            }
        },
        Expr::Unary(op, e1) => {
            let v1 = match eval(e1, env) {
                Ok(v) => v,
                Err(f) => {
                    return Err(f);
                },
            };
            match op {
                UnOp::OpNeg => match as_dec(&v1) {
                    Some(d) => Ok(ParamValue::VDec(d.neg())),
                    None => Err(EvalFailure::WrongType),
                },
                UnOp::OpNot => match v1 {
                    ParamValue::VBool(b) => Ok(ParamValue::VBool(!b)),
                    _ => Err(EvalFailure::WrongType),
                },
            }
        },
        Expr::Binary(op, e1, e2) => {
            let v1 = match eval(e1, env) {
                Ok(v) => v,
                Err(f) => {
                    return Err(f);
                },
            };
            match op {
                BinOp::OpAnd => match v1 {
                    ParamValue::VBool(false) => Ok(ParamValue::VBool(false)),
                    ParamValue::VBool(true) => match eval(e2, env) {
                        Ok(ParamValue::VBool(b2)) => Ok(ParamValue::VBool(b2)),
                        Ok(_) => Err(EvalFailure::WrongType),
                        Err(f) => Err(f),
                    },
                    _ => Err(EvalFailure::WrongType),
                },
                BinOp::OpOr => match v1 {
                    ParamValue::VBool(true) => Ok(ParamValue::VBool(true)),
                    ParamValue::VBool(false) => match eval(e2, env) {
                        Ok(ParamValue::VBool(b2)) => Ok(ParamValue::VBool(b2)),
                        Ok(_) => Err(EvalFailure::WrongType),
                        Err(f) => Err(f),
                    },
                    _ => Err(EvalFailure::WrongType),
                },
                _ => {
                    let v2 = match eval(e2, env) {
                        Ok(v) => v,
                        Err(f) => {
                            return Err(f);
                        },
                    };
                    apply_bin(*op, v1, v2)
                },
            }
        },
        Expr::Cond(c, t, f) => {
            let vc = match eval(c, env) {
                Ok(v) => v,
                Err(fl) => {
                    return Err(fl);
                },
            };
            match vc {
                ParamValue::VBool(true) => eval(t, env),
                ParamValue::VBool(false) => eval(f, env),
                _ => Err(EvalFailure::WrongType),
            }
        },
    }
}

/// Copy a runtime value.
fn dup_value(v: &ParamValue) -> (r: ParamValue)
    ensures
        view_of(r) == view_of(*v),
        v.wf() ==> r.wf(),
{
    match v {
        ParamValue::VStr(s) => ParamValue::VStr(s.clone()),
        ParamValue::VInt(i) => ParamValue::VInt(*i),
        ParamValue::VDec(d) => ParamValue::VDec(*d),
        ParamValue::VBool(b) => ParamValue::VBool(*b),
        ParamValue::VUuid(u) => ParamValue::VUuid(u.clone()),
        ParamValue::VDate(d) => ParamValue::VDate(*d),
        ParamValue::VTs { secs, nanos } => ParamValue::VTs { secs: *secs, nanos: *nanos },
        ParamValue::VJson(s) => ParamValue::VJson(s.clone()),
    }
}

/// Apply a non-short-circuiting binary operator.
fn apply_bin(op: BinOp, v1: ParamValue, v2: ParamValue) -> (r: Result<ParamValue, EvalFailure>)
    requires
        v1.wf(),
        v2.wf(),
        !(op is OpAnd),
        !(op is OpOr),
    ensures
        match r {
            Ok(v) => spec_apply_bin(op, view_of(v1), view_of(v2)) == Ok::<SpecVal, SpecFailure>(
                view_of(v),
            ) && v.wf(),
            Err(f) => spec_apply_bin(op, view_of(v1), view_of(v2)) == Err::<SpecVal, SpecFailure>(
                failure_view(f),
            ),
        },
{
    match op {
        BinOp::OpAdd => match (as_dec(&v1), as_dec(&v2)) {
            (Some(d1), Some(d2)) => match d1.add(d2) {
                Some(c) => Ok(ParamValue::VDec(c)),
                None => Err(EvalFailure::Overflow),
            },
            _ => match (v1, v2) {
                (ParamValue::VStr(a), ParamValue::VStr(b)) => Ok(
                    ParamValue::VStr(a.concat(b.as_str())),
                ),
                _ => Err(EvalFailure::WrongType),
            },
        },
        BinOp::OpSub => match (as_dec(&v1), as_dec(&v2)) {
            (Some(d1), Some(d2)) => match d1.add(d2.neg()) {
                Some(c) => Ok(ParamValue::VDec(c)),
                None => Err(EvalFailure::Overflow),
            },
            _ => Err(EvalFailure::WrongType),
        },
        BinOp::OpMul => match (as_dec(&v1), as_dec(&v2)) {
            (Some(d1), Some(d2)) => match d1.mul(d2) {
                Some(c) => Ok(ParamValue::VDec(c)),
                None => Err(EvalFailure::Overflow),
            },
            _ => Err(EvalFailure::WrongType),
        },
        BinOp::OpEq => match value_eq(&v1, &v2) {
            Ok(b) => Ok(ParamValue::VBool(b)),
            Err(f) => Err(f),
        },
        BinOp::OpNe => match value_eq(&v1, &v2) {
            Ok(b) => Ok(ParamValue::VBool(!b)),
            Err(f) => Err(f),
        },
        BinOp::OpLt => match value_lt(&v1, &v2) {
            Ok(b) => Ok(ParamValue::VBool(b)),
            Err(f) => Err(f),
        },
        BinOp::OpGt => match value_lt(&v2, &v1) {
            Ok(b) => Ok(ParamValue::VBool(b)),
            Err(f) => Err(f),
        },
        BinOp::OpLe => match value_lt(&v2, &v1) {
            Ok(b) => Ok(ParamValue::VBool(!b)),
            Err(f) => Err(f),
        },
        BinOp::OpGe => match value_lt(&v1, &v2) {
            Ok(b) => Ok(ParamValue::VBool(!b)),
            Err(f) => Err(f),
        },
        BinOp::OpAnd => Err(EvalFailure::WrongType),
        BinOp::OpOr => Err(EvalFailure::WrongType),
    }
}

/// Value equality under `==`.
fn value_eq(v1: &ParamValue, v2: &ParamValue) -> (r: Result<bool, EvalFailure>)
    requires
        v1.wf(),
        v2.wf(),
    ensures
        match r {
            Ok(b) => spec_value_eq(view_of(*v1), view_of(*v2)) == Ok::<bool, SpecFailure>(b),
            Err(f) => spec_value_eq(view_of(*v1), view_of(*v2)) == Err::<bool, SpecFailure>(
                failure_view(f),
            ),
        },
{
    match (as_dec(v1), as_dec(v2)) {
        (Some(d1), Some(d2)) => Ok(d1.eq_val(d2)),
        _ => match (v1, v2) {
            (ParamValue::VStr(a), ParamValue::VStr(b)) => Ok(*a == *b),
            (ParamValue::VUuid(a), ParamValue::VUuid(b)) => Ok(*a == *b),
            (ParamValue::VBool(a), ParamValue::VBool(b)) => Ok(*a == *b),
            (ParamValue::VDate(a), ParamValue::VDate(b)) => Ok(*a == *b),
            (
                ParamValue::VTs { secs: s1, nanos: n1 },
                ParamValue::VTs { secs: s2, nanos: n2 },
            ) => Ok(*s1 == *s2 && *n1 == *n2),
            _ => Err(EvalFailure::WrongType),
        },
    }
}

/// Strict order under `<`.
fn value_lt(v1: &ParamValue, v2: &ParamValue) -> (r: Result<bool, EvalFailure>)
    requires
        v1.wf(),
        v2.wf(),
    ensures
        match r {
            Ok(b) => spec_value_lt(view_of(*v1), view_of(*v2)) == Ok::<bool, SpecFailure>(b),
            Err(f) => spec_value_lt(view_of(*v1), view_of(*v2)) == Err::<bool, SpecFailure>(
                failure_view(f),
            ),
        },
{
    match (as_dec(v1), as_dec(v2)) {
        (Some(d1), Some(d2)) => match d1.lt_val(d2) {
            Some(b) => Ok(b),
            None => Err(EvalFailure::Overflow),
        },
        _ => match (v1, v2) {
            (ParamValue::VDate(a), ParamValue::VDate(b)) => Ok(a.le(*b) && !(*a == *b)),
            (
                ParamValue::VTs { secs: s1, nanos: n1 },
                ParamValue::VTs { secs: s2, nanos: n2 },
            ) => Ok(*s1 < *s2 || (*s1 == *s2 && *n1 < *n2)),
            _ => Err(EvalFailure::WrongType),
        },
    }
}

/// Does the environment of names `declared` cover every variable of `e`?
pub open spec fn spec_vars_declared(e: Expr, declared: Seq<Seq<char>>) -> bool
    decreases e,
{
    match e {
        Expr::Var(n) => declared.contains(n@),
        Expr::Unary(_, e1) => spec_vars_declared(*e1, declared),
        Expr::Binary(_, e1, e2) => spec_vars_declared(*e1, declared) && spec_vars_declared(
            *e2,
            declared,
        ),
        Expr::Cond(c, t, f) => spec_vars_declared(*c, declared) && spec_vars_declared(*t, declared)
            && spec_vars_declared(*f, declared),
        _ => true,
    }
}

} // verus!
