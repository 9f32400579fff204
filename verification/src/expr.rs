//! Condition and count expressions, and their evaluation.
//!
//! An expression is evaluated against two scopes: the fields of the current
//! record that were decoded before the field that owns the expression, and
//! the shared context of the root record. Before anything is computed the
//! whole expression is checked: every field that it names must have a value
//! in its scope, and every operator must meet operands of its kind. An
//! expression that fails the check never yields a value, also when the
//! operands around the fault would settle the result without it.

use crate::primitive::Scalar;
use vstd::prelude::*;

verus! {

#[derive(Clone, Copy, Debug, PartialEq, Eq, Structural)]
pub enum UnaryOp {
    /// Logical negation, `!`.
    Not,
    /// Arithmetic negation, `-`.
    Neg,
}

#[derive(Clone, Copy, Debug, PartialEq, Eq, Structural)]
pub enum BinaryOp {
    Mul,
    /// Division that rounds towards zero.
    Div,
    /// The remainder of that division; it has the sign of the dividend.
    Rem,
    Add,
    Sub,
    /// Shift to the left, `<<`.
    Shl,
    /// Shift to the right, `>>`, which keeps the sign.
    Shr,
    /// `&`, bit by bit on integers.
    BitAnd,
    /// `^`, bit by bit on integers.
    BitXor,
    /// `|`, bit by bit on integers.
    BitOr,
    Lt,
    Le,
    Gt,
    Ge,
    Eq,
    Ne,
    And,
    Or,
}

/// The integer types that a value can be cast to. The two sizes of the
/// machine word count as 64 bits wide.
#[derive(Clone, Copy, Debug, PartialEq, Eq, Structural)]
pub enum IntType {
    U8,
    U16,
    U32,
    U64,
    Usize,
    I8,
    I16,
    I32,
    I64,
    Isize,
}

/// An expression over already decoded fields.
#[derive(Debug, PartialEq, Eq)]
pub enum Expr {
    /// An unsigned literal, decimal or hexadecimal.
    Number(u64),
    /// `true` or `false`.
    Truth(bool),
    /// A field of the record being decoded, by its id.
    Local(String),
    /// A field of the shared context, written `_root.id`.
    Root(String),
    Unary(UnaryOp, Box<Expr>),
    Binary(BinaryOp, Box<Expr>, Box<Expr>),
    /// A cast to an integer type, written `as` and the type.
    Cast(IntType, Box<Expr>),
}

/// The mathematical model of an [`Expr`].
pub enum ExprView {
    Number(u64),
    Truth(bool),
    Local(Seq<char>),
    Root(Seq<char>),
    Unary(UnaryOp, Box<ExprView>),
    Binary(BinaryOp, Box<ExprView>, Box<ExprView>),
    Cast(IntType, Box<ExprView>),
}

pub open spec fn expr_view(e: Expr) -> ExprView
    decreases e,
{
    match e {
        Expr::Number(n) => ExprView::Number(n),
        Expr::Truth(b) => ExprView::Truth(b),
        Expr::Local(name) => ExprView::Local(name@),
        Expr::Root(name) => ExprView::Root(name@),
        Expr::Unary(op, inner) => ExprView::Unary(op, Box::new(expr_view(*inner))),
        Expr::Binary(op, left, right) => ExprView::Binary(
            op,
            Box::new(expr_view(*left)),
            Box::new(expr_view(*right)),
        ),
        Expr::Cast(target, inner) => ExprView::Cast(target, Box::new(expr_view(*inner))),
    }
}

impl View for Expr {
    type V = ExprView;

    open spec fn view(&self) -> ExprView {
        expr_view(*self)
    }
}

/// What an expression evaluates to.
#[derive(Clone, Copy, Debug, PartialEq, Eq, Structural)]
pub enum Operand {
    Int(i128),
    Bool(bool),
}

/// One visible field: its id and what it contributes to an expression.
/// A field that holds no integer and no boolean contributes nothing, and an
/// expression that names it fails.
#[derive(Debug)]
pub struct Binding {
    pub name: String,
    pub operand: Option<Operand>,
}

/// The mathematical model of a [`Binding`].
pub struct BindingView {
    pub name: Seq<char>,
    pub operand: Option<Operand>,
}

impl View for Binding {
    type V = BindingView;

    open spec fn view(&self) -> BindingView {
        BindingView { name: self.name@, operand: self.operand }
    }
}

/// The model of a scope: the models of its bindings, oldest first.
pub open spec fn scope_view(scope: Seq<Binding>) -> Seq<BindingView> {
    Seq::new(scope.len(), |i: int| scope[i]@)
}

/// Appending a binding appends its model.
pub proof fn lemma_scope_view_push(scope: Seq<Binding>, binding: Binding)
    ensures
        scope_view(scope.push(binding)) == scope_view(scope).push(binding@),
{
    assert(scope_view(scope.push(binding)) =~= scope_view(scope).push(binding@));
}

/// What a scalar contributes to an expression: integers their value,
/// booleans their truth value, floating-point numbers nothing.
pub open spec fn scalar_operand(value: Scalar) -> Option<Operand> {
    match value {
        Scalar::U8(v) => Some(Operand::Int(v as i128)),
        Scalar::U16(v) => Some(Operand::Int(v as i128)),
        Scalar::U32(v) => Some(Operand::Int(v as i128)),
        Scalar::U64(v) => Some(Operand::Int(v as i128)),
        Scalar::I8(v) => Some(Operand::Int(v as i128)),
        Scalar::I16(v) => Some(Operand::Int(v as i128)),
        Scalar::I32(v) => Some(Operand::Int(v as i128)),
        Scalar::I64(v) => Some(Operand::Int(v as i128)),
        Scalar::F32(_) => None,
        Scalar::F64(_) => None,
        Scalar::Bool(v) => Some(Operand::Bool(v)),
    }
}

/// The most recent binding of `name` in `scope`, if there is one.
pub open spec fn lookup(scope: Seq<BindingView>, name: Seq<char>) -> Option<Operand>
    decreases scope.len(),
{
    if scope.len() == 0 {
        None
    } else if scope.last().name == name {
        scope.last().operand
    } else {
        lookup(scope.drop_last(), name)
    }
}

/// Whether `name` is bound in `scope`.
pub open spec fn names(scope: Seq<BindingView>, name: Seq<char>) -> bool {
    exists|i: int| 0 <= i < scope.len() && (#[trigger] scope[i]).name == name
}

/// An integer result, or nothing when it leaves the 128-bit range.
pub open spec fn checked_int(v: int) -> Option<Operand> {
    if i128::MIN <= v <= i128::MAX {
        Some(Operand::Int(v as i128))
    } else {
        None
    }
}

pub open spec fn apply_unary(op: UnaryOp, a: Operand) -> Option<Operand> {
    match (op, a) {
        (UnaryOp::Not, Operand::Bool(x)) => Some(Operand::Bool(!x)),
        (UnaryOp::Neg, Operand::Int(x)) => checked_int(-x),
        _ => None,
    }
}

/// The distance of an integer from zero.
pub open spec fn magnitude(x: int) -> nat {
    if x >= 0 {
        x as nat
    } else {
        (-x) as nat
    }
}

/// `x` divided by `y`, rounded towards zero.
pub open spec fn quotient(x: int, y: int) -> int {
    if (x >= 0) == (y >= 0) {
        (magnitude(x) / magnitude(y)) as int
    } else {
        -((magnitude(x) / magnitude(y)) as int)
    }
}

/// What that division leaves over: `x - quotient(x, y) * y`, which has the
/// sign of `x`.
pub open spec fn remainder(x: int, y: int) -> int {
    if x >= 0 {
        (magnitude(x) % magnitude(y)) as int
    } else {
        -((magnitude(x) % magnitude(y)) as int)
    }
}

/// What a binary operator makes of two operands. Division by zero has no
/// result, nor has a shift by a negative amount or by 128 and more. A shift
/// works on the 128 bits of the integer in two's complement: bits that are
/// shifted out are lost.
pub open spec fn apply_binary(op: BinaryOp, a: Operand, b: Operand) -> Option<Operand> {
    match (a, b) {
        (Operand::Int(x), Operand::Int(y)) => match op {
            BinaryOp::Mul => checked_int(x * y),
            BinaryOp::Div => if y == 0 {
                None
            } else {
                checked_int(quotient(x as int, y as int))
            },
            BinaryOp::Rem => if y == 0 {
                None
            } else {
                checked_int(remainder(x as int, y as int))
            },
            BinaryOp::Add => checked_int(x + y),
            BinaryOp::Sub => checked_int(x - y),
            BinaryOp::Shl => if 0 <= y < 128 {
                Some(Operand::Int(x << (y as u32)))
            } else {
                None
            },
            BinaryOp::Shr => if 0 <= y < 128 {
                Some(Operand::Int(x >> (y as u32)))
            } else {
                None
            },
            BinaryOp::BitAnd => Some(Operand::Int(x & y)),
            BinaryOp::BitXor => Some(Operand::Int(x ^ y)),
            BinaryOp::BitOr => Some(Operand::Int(x | y)),
            BinaryOp::Lt => Some(Operand::Bool(x < y)),
            BinaryOp::Le => Some(Operand::Bool(x <= y)),
            BinaryOp::Gt => Some(Operand::Bool(x > y)),
            BinaryOp::Ge => Some(Operand::Bool(x >= y)),
            BinaryOp::Eq => Some(Operand::Bool(x == y)),
            BinaryOp::Ne => Some(Operand::Bool(x != y)),
            BinaryOp::And => None,
            BinaryOp::Or => None,
        },
        (Operand::Bool(x), Operand::Bool(y)) => match op {
            BinaryOp::Eq => Some(Operand::Bool(x == y)),
            BinaryOp::Ne => Some(Operand::Bool(x != y)),
            BinaryOp::And => Some(Operand::Bool(x && y)),
            BinaryOp::Or => Some(Operand::Bool(x || y)),
            BinaryOp::BitAnd => Some(Operand::Bool(x && y)),
            BinaryOp::BitXor => Some(Operand::Bool(x != y)),
            BinaryOp::BitOr => Some(Operand::Bool(x || y)),
            _ => None,
        },
        _ => None,
    }
}

/// Whether the left operand alone settles a logical operator.
pub open spec fn short_circuits(op: BinaryOp, a: Operand) -> bool {
    ||| op == BinaryOp::And && a == Operand::Bool(false)
    ||| op == BinaryOp::Or && a == Operand::Bool(true)
}

/// The two kinds of value that an expression can have.
#[derive(Clone, Copy, Debug, PartialEq, Eq, Structural)]
pub enum Kind {
    Int,
    Bool,
}

pub open spec fn operand_kind(a: Operand) -> Kind {
    match a {
        Operand::Int(_) => Kind::Int,
        Operand::Bool(_) => Kind::Bool,
    }
}

/// The kind that a unary operator gives on an operand of kind `a`.
pub open spec fn unary_kind(op: UnaryOp, a: Kind) -> Option<Kind> {
    match (op, a) {
        (UnaryOp::Not, Kind::Bool) => Some(Kind::Bool),
        (UnaryOp::Neg, Kind::Int) => Some(Kind::Int),
        _ => None,
    }
}

/// The kind that a binary operator gives on operands of kinds `a` and `b`:
/// arithmetic and shifts take integers to an integer, the order comparisons
/// take integers to a truth value, `==`, `!=`, `&`, `^` and `|` take two
/// operands of one kind, the first two to a truth value and the others to
/// that kind, and `&&` and `||` take truth values to a truth value.
pub open spec fn binary_kind(op: BinaryOp, a: Kind, b: Kind) -> Option<Kind> {
    match (a, b) {
        (Kind::Int, Kind::Int) => match op {
            BinaryOp::And | BinaryOp::Or => None,
            BinaryOp::Lt | BinaryOp::Le | BinaryOp::Gt | BinaryOp::Ge | BinaryOp::Eq | BinaryOp::Ne => Some(
                Kind::Bool,
            ),
            _ => Some(Kind::Int),
        },
        (Kind::Bool, Kind::Bool) => match op {
            BinaryOp::Eq | BinaryOp::Ne | BinaryOp::And | BinaryOp::Or | BinaryOp::BitAnd | BinaryOp::BitXor
            | BinaryOp::BitOr => Some(Kind::Bool),
            _ => None,
        },
        _ => None,
    }
}

/// The kind of `e`, if `e` is well formed in its scopes: every field that
/// it names has a value, a local name in `local` and a name of the shared
/// context in `root`, and every operator meets operands of its kind.
pub open spec fn kind_of(e: ExprView, local: Seq<BindingView>, root: Seq<BindingView>) -> Option<Kind>
    decreases e,
{
    match e {
        ExprView::Number(_) => Some(Kind::Int),
        ExprView::Truth(_) => Some(Kind::Bool),
        ExprView::Local(name) => match lookup(local, name) {
            Some(a) => Some(operand_kind(a)),
            None => None,
        },
        ExprView::Root(name) => match lookup(root, name) {
            Some(a) => Some(operand_kind(a)),
            None => None,
        },
        ExprView::Unary(op, inner) => match kind_of(*inner, local, root) {
            Some(a) => unary_kind(op, a),
            None => None,
        },
        ExprView::Binary(op, left, right) => match (kind_of(*left, local, root), kind_of(*right, local, root)) {
            (Some(a), Some(b)) => binary_kind(op, a, b),
            _ => None,
        },
        ExprView::Cast(_, inner) => match kind_of(*inner, local, root) {
            Some(_) => Some(Kind::Int),
            None => None,
        },
    }
}

/// Whether `e` is well formed in its scopes.
pub open spec fn well_formed(e: ExprView, local: Seq<BindingView>, root: Seq<BindingView>) -> bool {
    kind_of(e, local, root) is Some
}

/// The number of values of an integer type: two to the power of its
/// width in bits.
pub open spec fn modulus(target: IntType) -> int {
    match target {
        IntType::U8 | IntType::I8 => 0x100,
        IntType::U16 | IntType::I16 => 0x1_0000,
        IntType::U32 | IntType::I32 => 0x1_0000_0000,
        _ => 0x1_0000_0000_0000_0000,
    }
}

pub open spec fn is_signed(target: IntType) -> bool {
    target == IntType::I8 || target == IntType::I16 || target == IntType::I32 || target == IntType::I64 || target
        == IntType::Isize
}

/// The value of the type that differs from `x` by a multiple of the
/// modulus of the type: what a cast keeps of an integer.
pub open spec fn wrapped(x: int, target: IntType) -> int {
    let low = x % modulus(target);
    if is_signed(target) && 2 * low >= modulus(target) {
        low - modulus(target)
    } else {
        low
    }
}

/// What a cast makes of an operand: an integer wraps into the type, and a
/// truth value becomes one or zero.
pub open spec fn apply_cast(target: IntType, a: Operand) -> Operand {
    match a {
        Operand::Int(x) => Operand::Int(wrapped(x as int, target) as i128),
        Operand::Bool(b) => Operand::Int(
            if b {
                1
            } else {
                0
            },
        ),
    }
}

/// What the operators of `e` make of the values of its names; `None` when
/// a name has no value, an operator meets the wrong kind of operand, or a
/// result leaves the 128-bit integer range. The right operand of `&&` and
/// `||` is left alone when the left one settles the result.
pub open spec fn computed(e: ExprView, local: Seq<BindingView>, root: Seq<BindingView>) -> Option<Operand>
    decreases e,
{
    match e {
        ExprView::Number(n) => Some(Operand::Int(n as i128)),
        ExprView::Truth(b) => Some(Operand::Bool(b)),
        ExprView::Local(name) => lookup(local, name),
        ExprView::Root(name) => lookup(root, name),
        ExprView::Unary(op, inner) => match computed(*inner, local, root) {
            Some(a) => apply_unary(op, a),
            None => None,
        },
        ExprView::Binary(op, left, right) => match computed(*left, local, root) {
            Some(a) => if short_circuits(op, a) {
                Some(a)
            } else {
                match computed(*right, local, root) {
                    Some(b) => apply_binary(op, a, b),
                    None => None,
                }
            },
            None => None,
        },
        ExprView::Cast(target, inner) => match computed(*inner, local, root) {
            Some(a) => Some(apply_cast(target, a)),
            None => None,
        },
    }
}

/// The value of `e` where `local` holds the earlier fields of the current
/// record and `root` the shared context. There is none when `e` is not
/// well formed: when it names, anywhere, a field that has no value in its
/// scope, or applies an operator to the wrong kind of operand. Otherwise it
/// is what the operators compute.
pub open spec fn eval(e: ExprView, local: Seq<BindingView>, root: Seq<BindingView>) -> Option<Operand> {
    if well_formed(e, local, root) {
        computed(e, local, root)
    } else {
        None
    }
}

/// Whether `e` names the local field `name` anywhere.
pub open spec fn mentions_local(e: ExprView, name: Seq<char>) -> bool
    decreases e,
{
    match e {
        ExprView::Local(n) => n == name,
        ExprView::Unary(_, inner) => mentions_local(*inner, name),
        ExprView::Cast(_, inner) => mentions_local(*inner, name),
        ExprView::Binary(_, left, right) => mentions_local(*left, name) || mentions_local(*right, name),
        _ => false,
    }
}

/// Whether `e` names the field `name` of the shared context anywhere.
pub open spec fn mentions_root(e: ExprView, name: Seq<char>) -> bool
    decreases e,
{
    match e {
        ExprView::Root(n) => n == name,
        ExprView::Unary(_, inner) => mentions_root(*inner, name),
        ExprView::Cast(_, inner) => mentions_root(*inner, name),
        ExprView::Binary(_, left, right) => mentions_root(*left, name) || mentions_root(*right, name),
        _ => false,
    }
}

/// The truth value of a condition, if it has one.
pub open spec fn eval_flag(e: ExprView, local: Seq<BindingView>, root: Seq<BindingView>) -> Option<bool> {
    match eval(e, local, root) {
        Some(Operand::Bool(b)) => Some(b),
        _ => None,
    }
}

/// The element count an expression gives: a non-negative integer that fits
/// in 64 bits.
pub open spec fn eval_count(e: ExprView, local: Seq<BindingView>, root: Seq<BindingView>) -> Option<u64> {
    match eval(e, local, root) {
        Some(Operand::Int(n)) => if 0 <= n <= u64::MAX {
            Some(n as u64)
        } else {
            None
        },
        _ => None,
    }
}

/// What a scalar contributes to an expression.
pub fn operand_of_scalar(value: Scalar) -> (r: Option<Operand>)
    ensures
        r == scalar_operand(value),
{
    match value {
        Scalar::U8(v) => Some(Operand::Int(v as i128)),
        Scalar::U16(v) => Some(Operand::Int(v as i128)),
        Scalar::U32(v) => Some(Operand::Int(v as i128)),
        Scalar::U64(v) => Some(Operand::Int(v as i128)),
        Scalar::I8(v) => Some(Operand::Int(v as i128)),
        Scalar::I16(v) => Some(Operand::Int(v as i128)),
        Scalar::I32(v) => Some(Operand::Int(v as i128)),
        Scalar::I64(v) => Some(Operand::Int(v as i128)),
        Scalar::F32(_) => None,
        Scalar::F64(_) => None,
        Scalar::Bool(v) => Some(Operand::Bool(v)),
    }
}

/// Finds the most recent binding of `name`.
pub fn find_binding(scope: &Vec<Binding>, name: &String) -> (r: Option<Operand>)
    ensures
        r == lookup(scope_view(scope@), name@),
{
    let ghost whole = scope_view(scope@);
    let mut i: usize = scope.len();
    assert(whole.take(i as int) =~= whole);
    while i > 0
        invariant
            i <= scope.len(),
            whole == scope_view(scope@),
            lookup(whole, name@) == lookup(whole.take(i as int), name@),
        decreases i,
    {
        i -= 1;
        proof {
            assert(whole.take(i + 1).drop_last() =~= whole.take(i as int));
            assert(whole.take(i + 1).last() == scope@[i as int]@);
        }
        if scope[i].name == *name {
            return scope[i].operand;
        }
    }
    None
}

fn unary(op: UnaryOp, a: Operand) -> (r: Option<Operand>)
    ensures
        r == apply_unary(op, a),
{
    match (op, a) {
        (UnaryOp::Not, Operand::Bool(x)) => Some(Operand::Bool(!x)),
        (UnaryOp::Neg, Operand::Int(x)) => if x == i128::MIN {
            None
        } else {
            Some(Operand::Int(-x))
        },
        _ => None,
    }
}

fn checked(v: Option<i128>) -> (r: Option<Operand>)
    ensures
        r == match v {
            Some(x) => Some(Operand::Int(x)),
            None => None,
        },
{
    match v {
        Some(x) => Some(Operand::Int(x)),
        None => None,
    }
}

/// The distance of `x` from zero.
fn magnitude_of(x: i128) -> (m: u128)
    ensures
        m == magnitude(x as int),
{
    if x >= 0 {
        x as u128
    } else if x == i128::MIN {
        170141183460469231731687303715884105728u128
    } else {
        (-x) as u128
    }
}

/// The integer of the given magnitude and sign, if it is in range.
fn signed(m: u128, negative: bool) -> (r: Option<Operand>)
    ensures
        r == checked_int(
            if negative {
                -(m as int)
            } else {
                m as int
            },
        ),
{
    if m <= 170141183460469231731687303715884105727u128 {
        if negative {
            Some(Operand::Int(-(m as i128)))
        } else {
            Some(Operand::Int(m as i128))
        }
    } else if negative && m == 170141183460469231731687303715884105728u128 {
        Some(Operand::Int(i128::MIN))
    } else {
        None
    }
}

fn binary(op: BinaryOp, a: Operand, b: Operand) -> (r: Option<Operand>)
    ensures
        r == apply_binary(op, a, b),
{
    match (a, b) {
        (Operand::Int(x), Operand::Int(y)) => match op {
            BinaryOp::Mul => checked(x.checked_mul(y)),
            BinaryOp::Div => if y == 0 {
                None
            } else {
                signed(magnitude_of(x) / magnitude_of(y), (x >= 0) != (y >= 0))
            },
            BinaryOp::Rem => if y == 0 {
                None
            } else {
                signed(magnitude_of(x) % magnitude_of(y), x < 0)
            },
            BinaryOp::Add => checked(x.checked_add(y)),
            BinaryOp::Sub => checked(x.checked_sub(y)),
            BinaryOp::Shl => if 0 <= y && y < 128 {
                Some(Operand::Int(x << (y as u32)))
            } else {
                None
            },
            BinaryOp::Shr => if 0 <= y && y < 128 {
                Some(Operand::Int(x >> (y as u32)))
            } else {
                None
            },
            BinaryOp::BitAnd => Some(Operand::Int(x & y)),
            BinaryOp::BitXor => Some(Operand::Int(x ^ y)),
            BinaryOp::BitOr => Some(Operand::Int(x | y)),
            BinaryOp::Lt => Some(Operand::Bool(x < y)),
            BinaryOp::Le => Some(Operand::Bool(x <= y)),
            BinaryOp::Gt => Some(Operand::Bool(x > y)),
            BinaryOp::Ge => Some(Operand::Bool(x >= y)),
            BinaryOp::Eq => Some(Operand::Bool(x == y)),
            BinaryOp::Ne => Some(Operand::Bool(x != y)),
            BinaryOp::And => None,
            BinaryOp::Or => None,
        },
        (Operand::Bool(x), Operand::Bool(y)) => match op {
            BinaryOp::Eq => Some(Operand::Bool(x == y)),
            BinaryOp::Ne => Some(Operand::Bool(x != y)),
            BinaryOp::And => Some(Operand::Bool(x && y)),
            BinaryOp::Or => Some(Operand::Bool(x || y)),
            BinaryOp::BitAnd => Some(Operand::Bool(x && y)),
            BinaryOp::BitXor => Some(Operand::Bool(x != y)),
            BinaryOp::BitOr => Some(Operand::Bool(x || y)),
            _ => None,
        },
        _ => None,
    }
}

/// The number of values of an integer type, and whether it is signed.
fn type_range(target: IntType) -> (r: (u128, bool))
    ensures
        r.0 == modulus(target),
        r.1 == is_signed(target),
{
    match target {
        IntType::U8 => (0x100u128, false),
        IntType::U16 => (0x1_0000u128, false),
        IntType::U32 => (0x1_0000_0000u128, false),
        IntType::U64 => (0x1_0000_0000_0000_0000u128, false),
        IntType::Usize => (0x1_0000_0000_0000_0000u128, false),
        IntType::I8 => (0x100u128, true),
        IntType::I16 => (0x1_0000u128, true),
        IntType::I32 => (0x1_0000_0000u128, true),
        IntType::I64 => (0x1_0000_0000_0000_0000u128, true),
        IntType::Isize => (0x1_0000_0000_0000_0000u128, true),
    }
}

/// The remainder of a negative number follows from that of its magnitude.
proof fn lemma_low_of_negative(x: int, m: int)
    requires
        x < 0,
        m > 0,
    ensures
        x % m == if (-x) % m == 0 {
            0
        } else {
            m - (-x) % m
        },
{
    let q = (-x) / m;
    let r = (-x) % m;
    vstd::arithmetic::div_mod::lemma_fundamental_div_mod(-x, m);
    if r == 0 {
        assert(x == (-q) * m + 0) by (nonlinear_arith)
            requires
                -x == m * q + 0,
        ;
        vstd::arithmetic::div_mod::lemma_fundamental_div_mod_converse(x, m, -q, 0);
    } else {
        assert(x == (-q - 1) * m + (m - r)) by (nonlinear_arith)
            requires
                -x == m * q + r,
        ;
        vstd::arithmetic::div_mod::lemma_fundamental_div_mod_converse(x, m, -q - 1, m - r);
    }
}

fn cast(target: IntType, a: Operand) -> (r: Operand)
    ensures
        r == apply_cast(target, a),
{
    match a {
        Operand::Bool(b) => Operand::Int(
            if b {
                1
            } else {
                0
            },
        ),
        Operand::Int(x) => {
            let (m, signed) = type_range(target);
            let rest = magnitude_of(x) % m;
            let low: u128 = if x >= 0 || rest == 0 {
                rest
            } else {
                m - rest
            };
            proof {
                if x < 0 {
                    lemma_low_of_negative(x as int, m as int);
                }
                assert(low == (x as int) % (m as int));
            }
            if signed && low >= m / 2 {
                Operand::Int(low as i128 - m as i128)
            } else {
                Operand::Int(low as i128)
            }
        },
    }
}

fn settles(op: BinaryOp, a: Operand) -> (r: bool)
    ensures
        r == short_circuits(op, a),
{
    match (op, a) {
        (BinaryOp::And, Operand::Bool(false)) => true,
        (BinaryOp::Or, Operand::Bool(true)) => true,
        _ => false,
    }
}

fn kind_of_operand(a: Option<Operand>) -> (r: Option<Kind>)
    ensures
        r == match a {
            Some(a) => Some(operand_kind(a)),
            None => None,
        },
{
    match a {
        Some(Operand::Int(_)) => Some(Kind::Int),
        Some(Operand::Bool(_)) => Some(Kind::Bool),
        None => None,
    }
}

fn kind_of_unary(op: UnaryOp, a: Kind) -> (r: Option<Kind>)
    ensures
        r == unary_kind(op, a),
{
    match (op, a) {
        (UnaryOp::Not, Kind::Bool) => Some(Kind::Bool),
        (UnaryOp::Neg, Kind::Int) => Some(Kind::Int),
        _ => None,
    }
}

fn kind_of_binary(op: BinaryOp, a: Kind, b: Kind) -> (r: Option<Kind>)
    ensures
        r == binary_kind(op, a, b),
{
    match (a, b) {
        (Kind::Int, Kind::Int) => match op {
            BinaryOp::And | BinaryOp::Or => None,
            BinaryOp::Lt | BinaryOp::Le | BinaryOp::Gt | BinaryOp::Ge | BinaryOp::Eq | BinaryOp::Ne => Some(
                Kind::Bool,
            ),
            _ => Some(Kind::Int),
        },
        (Kind::Bool, Kind::Bool) => match op {
            BinaryOp::Eq | BinaryOp::Ne | BinaryOp::And | BinaryOp::Or | BinaryOp::BitAnd | BinaryOp::BitXor
            | BinaryOp::BitOr => Some(Kind::Bool),
            _ => None,
        },
        _ => None,
    }
}

/// The kind of `expr`, if it is well formed in its scopes.
pub fn kind_in(expr: &Expr, local: &Vec<Binding>, root: &Vec<Binding>) -> (r: Option<Kind>)
    ensures
        r == kind_of(expr@, scope_view(local@), scope_view(root@)),
    decreases expr,
{
    match expr {
        Expr::Number(_) => Some(Kind::Int),
        Expr::Truth(_) => Some(Kind::Bool),
        Expr::Local(name) => kind_of_operand(find_binding(local, name)),
        Expr::Root(name) => kind_of_operand(find_binding(root, name)),
        Expr::Unary(op, inner) => match kind_in(inner, local, root) {
            Some(a) => kind_of_unary(*op, a),
            None => None,
        },
        Expr::Binary(op, left, right) => match (kind_in(left, local, root), kind_in(right, local, root)) {
            (Some(a), Some(b)) => kind_of_binary(*op, a, b),
            _ => None,
        },
        Expr::Cast(_, inner) => match kind_in(inner, local, root) {
            Some(_) => Some(Kind::Int),
            None => None,
        },
    }
}

/// Applies the operators of `expr` to the values of its names.
fn compute(expr: &Expr, local: &Vec<Binding>, root: &Vec<Binding>) -> (r: Option<Operand>)
    ensures
        r == computed(expr@, scope_view(local@), scope_view(root@)),
    decreases expr,
{
    match expr {
        Expr::Number(n) => Some(Operand::Int(*n as i128)),
        Expr::Truth(b) => Some(Operand::Bool(*b)),
        Expr::Local(name) => find_binding(local, name),
        Expr::Root(name) => find_binding(root, name),
        Expr::Unary(op, inner) => match compute(inner, local, root) {
            Some(a) => unary(*op, a),
            None => None,
        },
        Expr::Binary(op, left, right) => match compute(left, local, root) {
            Some(a) => if settles(*op, a) {
                Some(a)
            } else {
                match compute(right, local, root) {
                    Some(b) => binary(*op, a, b),
                    None => None,
                }
            },
            None => None,
        },
        Expr::Cast(target, inner) => match compute(inner, local, root) {
            Some(a) => Some(cast(*target, a)),
            None => None,
        },
    }
}

/// Evaluates `expr` against the earlier fields of the current record and
/// the shared context. An expression that is not well formed is refused
/// before anything is computed.
pub fn evaluate(expr: &Expr, local: &Vec<Binding>, root: &Vec<Binding>) -> (r: Option<Operand>)
    ensures
        r == eval(expr@, scope_view(local@), scope_view(root@)),
{
    if kind_in(expr, local, root).is_some() {
        compute(expr, local, root)
    } else {
        None
    }
}

/// Evaluates a condition.
pub fn evaluate_flag(expr: &Expr, local: &Vec<Binding>, root: &Vec<Binding>) -> (r: Option<bool>)
    ensures
        r == eval_flag(expr@, scope_view(local@), scope_view(root@)),
{
    match evaluate(expr, local, root) {
        Some(Operand::Bool(b)) => Some(b),
        _ => None,
    }
}

/// Evaluates an element count.
pub fn evaluate_count(expr: &Expr, local: &Vec<Binding>, root: &Vec<Binding>) -> (r: Option<u64>)
    ensures
        r == eval_count(expr@, scope_view(local@), scope_view(root@)),
{
    match evaluate(expr, local, root) {
        Some(Operand::Int(n)) => if 0 <= n && n <= u64::MAX as i128 {
            Some(n as u64)
        } else {
            None
        },
        _ => None,
    }
}

/// A name resolves exactly when some binding of the scope carries it, and
/// then to the most recent such binding: a scope of the first `k` fields
/// never yields a field at index `k` or later.
pub proof fn lemma_lookup_in_scope(scope: Seq<BindingView>, name: Seq<char>)
    ensures
        !names(scope, name) ==> lookup(scope, name).is_none(),
        names(scope, name) ==> exists|i: int|
            0 <= i < scope.len() && (#[trigger] scope[i]).name == name && lookup(scope, name) == scope[i].operand
                && forall|j: int| i < j < scope.len() ==> (#[trigger] scope[j]).name != name,
    decreases scope.len(),
{
    if scope.len() > 0 {
        let rest = scope.drop_last();
        lemma_lookup_in_scope(rest, name);
        let last = scope.len() - 1;
        if scope.last().name == name {
            assert(scope[last].name == name);
        } else {
            if names(scope, name) {
                let i = choose|i: int| 0 <= i < scope.len() && (#[trigger] scope[i]).name == name;
                assert(rest[i].name == name);
                let k = choose|k: int|
                    0 <= k < rest.len() && (#[trigger] rest[k]).name == name && lookup(rest, name) == rest[k].operand
                        && forall|j: int| k < j < rest.len() ==> (#[trigger] rest[j]).name != name;
                assert(scope[k].name == name);
                assert forall|j: int| k < j < scope.len() implies (#[trigger] scope[j]).name != name by {
                    if j < rest.len() {
                        assert(rest[j].name != name);
                    }
                }
            } else {
                assert(!names(rest, name)) by {
                    if names(rest, name) {
                        let i = choose|i: int| 0 <= i < rest.len() && (#[trigger] rest[i]).name == name;
                        assert(scope[i].name == name);
                    }
                }
            }
        }
    }
}

/// An expression that names, anywhere, a field that is not in its scope
/// has no value.
pub proof fn lemma_unbound_name_fails(
    e: ExprView,
    name: Seq<char>,
    local: Seq<BindingView>,
    root: Seq<BindingView>,
)
    requires
        mentions_local(e, name) && !names(local, name) || mentions_root(e, name) && !names(root, name),
    ensures
        !well_formed(e, local, root),
        eval(e, local, root) is None,
    decreases e,
{
    lemma_lookup_in_scope(local, name);
    lemma_lookup_in_scope(root, name);
    match e {
        ExprView::Unary(_, inner) => {
            lemma_unbound_name_fails(*inner, name, local, root);
        },
        ExprView::Cast(_, inner) => {
            lemma_unbound_name_fails(*inner, name, local, root);
        },
        ExprView::Binary(_, left, right) => {
            if mentions_local(*left, name) && !names(local, name) || mentions_root(*left, name) && !names(
                root,
                name,
            ) {
                lemma_unbound_name_fails(*left, name, local, root);
            } else {
                lemma_unbound_name_fails(*right, name, local, root);
            }
        },
        _ => {},
    }
}

/// Whether an operator is one of arithmetic or a shift, which can be left
/// without a result.
pub open spec fn is_arithmetic(op: BinaryOp) -> bool {
    op == BinaryOp::Mul || op == BinaryOp::Div || op == BinaryOp::Rem || op == BinaryOp::Add || op
        == BinaryOp::Sub || op == BinaryOp::Shl || op == BinaryOp::Shr
}

/// Whether `e` holds no arithmetic, no shift and no negation.
pub open spec fn arithmetic_free(e: ExprView) -> bool
    decreases e,
{
    match e {
        ExprView::Unary(op, inner) => op != UnaryOp::Neg && arithmetic_free(*inner),
        ExprView::Cast(_, inner) => arithmetic_free(*inner),
        ExprView::Binary(op, left, right) => !is_arithmetic(op) && arithmetic_free(*left) && arithmetic_free(
            *right,
        ),
        _ => true,
    }
}

/// A well-formed expression computes a value of its kind, unless its
/// arithmetic leaves the 128-bit range, divides by zero or shifts too far:
/// evaluation is over the values in scope and fails for no other reason.
/// Without arithmetic it always yields a value.
pub proof fn lemma_well_formed_evaluates(e: ExprView, local: Seq<BindingView>, root: Seq<BindingView>)
    requires
        well_formed(e, local, root),
    ensures
        eval(e, local, root) matches Some(a) ==> Some(operand_kind(a)) == kind_of(e, local, root),
        arithmetic_free(e) ==> eval(e, local, root) is Some,
        arithmetic_free(e) && kind_of(e, local, root) == Some(Kind::Bool) ==> eval_flag(e, local, root) is Some,
    decreases e,
{
    match e {
        ExprView::Unary(_, inner) => {
            lemma_well_formed_evaluates(*inner, local, root);
        },
        ExprView::Cast(_, inner) => {
            lemma_well_formed_evaluates(*inner, local, root);
        },
        ExprView::Binary(_, left, right) => {
            lemma_well_formed_evaluates(*left, local, root);
            lemma_well_formed_evaluates(*right, local, root);
        },
        _ => {},
    }
}

} // verus!

