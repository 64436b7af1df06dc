//! Filter expressions over entities, as sent by the TypeScript API and built
//! from CRUD query strings.

use vstd::prelude::*;

verus! {

/// A literal value in an expression. `F64` holds the decimal text of a
/// floating-point number, in the syntax Rust's float parser accepts.
#[derive(Debug)]
pub enum Value {
    Bool(bool),
    U64(u64),
    I64(i64),
    F64(String),
    String(String),
    Null,
}

/// A literal value with its text as character sequences.
pub enum ValueView {
    Bool(bool),
    U64(u64),
    I64(i64),
    F64(Seq<char>),
    String(Seq<char>),
    Null,
}

impl Value {
    pub open spec fn view(&self) -> ValueView {
        match self {
            Value::Bool(b) => ValueView::Bool(*b),
            Value::U64(n) => ValueView::U64(*n),
            Value::I64(n) => ValueView::I64(*n),
            Value::F64(s) => ValueView::F64(s@),
            Value::String(s) => ValueView::String(s@),
            Value::Null => ValueView::Null,
        }
    }

    pub fn copy(&self) -> (r: Self)
        ensures
            r == *self,
    {
        match self {
            Value::Bool(b) => Value::Bool(*b),
            Value::U64(n) => Value::U64(*n),
            Value::I64(n) => Value::I64(*n),
            Value::F64(n) => Value::F64(n.clone()),
            Value::String(s) => Value::String(s.clone()),
            Value::Null => Value::Null,
        }
    }
}

/// A binary operator.
#[derive(Debug, Clone, Copy, PartialEq, Eq, Structural)]
pub enum BinaryOp {
    Eq,
    NotEq,
    Lt,
    LtEq,
    Gt,
    GtEq,
    And,
    Or,
    Like,
    NotLike,
}

/// Comparison and logic operators of the policy language.
#[derive(Debug, Clone, Copy, PartialEq, Eq, Structural)]
pub enum LogicOp {
    Eq,
    Neq,
    Gt,
    Gte,
    Lt,
    Lte,
    And,
    Or,
}

/// An expression.
#[derive(Debug)]
pub enum Expr {
    /// A value expression.
    Value { value: Value },
    /// Expression for addressing function parameters of the current expression.
    Parameter { position: usize },
    /// Expression for addressing an entity property.
    Property(PropertyAccess),
    /// A binary expression.
    Binary(BinaryExpr),
    Not(Box<Expr>),
}

/// Expression of a property access on an entity.
#[derive(Debug)]
pub struct PropertyAccess {
    /// Name of the property that will be accessed.
    pub property: String,
    /// Expression whose property will be accessed: another property access or a
    /// parameter representing an entity.
    pub object: Box<Expr>,
}

/// A binary expression.
#[derive(Debug)]
pub struct BinaryExpr {
    pub left: Box<Expr>,
    pub op: BinaryOp,
    pub right: Box<Expr>,
}

impl Expr {
    /// A copy of the expression.
    pub fn copy(&self) -> (r: Self)
        ensures
            r == *self,
        decreases self,
    {
        match self {
            Expr::Value { value } => Expr::Value { value: value.copy() },
            Expr::Parameter { position } => Expr::Parameter { position: *position },
            Expr::Property(p) => Expr::Property(PropertyAccess {
                property: p.property.clone(),
                object: Box::new(p.object.copy()),
            }),
            Expr::Binary(b) => Expr::Binary(BinaryExpr {
                left: Box::new(b.left.copy()),
                op: b.op,
                right: Box::new(b.right.copy()),
            }),
            Expr::Not(e) => Expr::Not(Box::new(e.copy())),
        }
    }

    pub fn from_value(value: Value) -> (r: Self)
        ensures
            r == (Expr::Value { value }),
    {
        Expr::Value { value }
    }

    pub fn from_binary(expr: BinaryExpr) -> (r: Self)
        ensures
            r == Expr::Binary(expr),
    {
        Expr::Binary(expr)
    }

    pub fn from_property(prop_access: PropertyAccess) -> (r: Self)
        ensures
            r == Expr::Property(prop_access),
    {
        Expr::Property(prop_access)
    }
}

/// The binary expression `lhs op rhs`.
pub open spec fn bin(op: BinaryOp, lhs: Expr, rhs: Expr) -> Expr {
    Expr::Binary(BinaryExpr { left: Box::new(lhs), op, right: Box::new(rhs) })
}

impl BinaryOp {
    /// The SQL text of the operator.
    pub open spec fn sql(self) -> Seq<char> {
        match self {
            BinaryOp::Eq => "="@,
            BinaryOp::NotEq => "!="@,
            BinaryOp::Lt => "<"@,
            BinaryOp::LtEq => "<="@,
            BinaryOp::Gt => ">"@,
            BinaryOp::GtEq => ">="@,
            BinaryOp::And => "AND"@,
            BinaryOp::Or => "OR"@,
            BinaryOp::Like => "LIKE"@,
            BinaryOp::NotLike => "NOT LIKE"@,
        }
    }

    pub fn to_sql_string(&self) -> (r: &str)
        ensures
            r@ == self.sql(),
    {
        match self {
            BinaryOp::Eq => "=",
            BinaryOp::NotEq => "!=",
            BinaryOp::Lt => "<",
            BinaryOp::LtEq => "<=",
            BinaryOp::Gt => ">",
            BinaryOp::GtEq => ">=",
            BinaryOp::And => "AND",
            BinaryOp::Or => "OR",
            BinaryOp::Like => "LIKE",
            BinaryOp::NotLike => "NOT LIKE",
        }
    }

    /// The operator corresponding to a policy-language operator.
    pub fn from_logic_op(op: LogicOp) -> (r: Self)
        ensures
            r == match op {
                LogicOp::Eq => BinaryOp::Eq,
                LogicOp::Neq => BinaryOp::NotEq,
                LogicOp::Gt => BinaryOp::Gt,
                LogicOp::Gte => BinaryOp::GtEq,
                LogicOp::Lt => BinaryOp::Lt,
                LogicOp::Lte => BinaryOp::LtEq,
                LogicOp::And => BinaryOp::And,
                LogicOp::Or => BinaryOp::Or,
            },
    {
        match op {
            LogicOp::Eq => BinaryOp::Eq,
            LogicOp::Neq => BinaryOp::NotEq,
            LogicOp::Gt => BinaryOp::Gt,
            LogicOp::Gte => BinaryOp::GtEq,
            LogicOp::Lt => BinaryOp::Lt,
            LogicOp::Lte => BinaryOp::LtEq,
            LogicOp::And => BinaryOp::And,
            LogicOp::Or => BinaryOp::Or,
        }
    }
}

impl BinaryExpr {
    pub fn new(op: BinaryOp, lhs: Expr, rhs: Expr) -> (r: Self)
        ensures
            r == (BinaryExpr { left: Box::new(lhs), op, right: Box::new(rhs) }),
    {
        BinaryExpr { left: Box::new(lhs), op, right: Box::new(rhs) }
    }

    pub fn eq(lhs: Expr, rhs: Expr) -> (r: Expr)
        ensures
            r == bin(BinaryOp::Eq, lhs, rhs),
    {
        Expr::Binary(Self::new(BinaryOp::Eq, lhs, rhs))
    }

    pub fn not_eq(lhs: Expr, rhs: Expr) -> (r: Expr)
        ensures
            r == bin(BinaryOp::NotEq, lhs, rhs),
    {
        Expr::Binary(Self::new(BinaryOp::NotEq, lhs, rhs))
    }

    pub fn lt(lhs: Expr, rhs: Expr) -> (r: Expr)
        ensures
            r == bin(BinaryOp::Lt, lhs, rhs),
    {
        Expr::Binary(Self::new(BinaryOp::Lt, lhs, rhs))
    }

    pub fn lt_eq(lhs: Expr, rhs: Expr) -> (r: Expr)
        ensures
            r == bin(BinaryOp::LtEq, lhs, rhs),
    {
        Expr::Binary(Self::new(BinaryOp::LtEq, lhs, rhs))
    }

    pub fn gt(lhs: Expr, rhs: Expr) -> (r: Expr)
        ensures
            r == bin(BinaryOp::Gt, lhs, rhs),
    {
        Expr::Binary(Self::new(BinaryOp::Gt, lhs, rhs))
    }

    pub fn gt_eq(lhs: Expr, rhs: Expr) -> (r: Expr)
        ensures
            r == bin(BinaryOp::GtEq, lhs, rhs),
    {
        Expr::Binary(Self::new(BinaryOp::GtEq, lhs, rhs))
    }

    pub fn and(lhs: Expr, rhs: Expr) -> (r: Expr)
        ensures
            r == bin(BinaryOp::And, lhs, rhs),
    {
        Expr::Binary(Self::new(BinaryOp::And, lhs, rhs))
    }

    pub fn or(lhs: Expr, rhs: Expr) -> (r: Expr)
        ensures
            r == bin(BinaryOp::Or, lhs, rhs),
    {
        Expr::Binary(Self::new(BinaryOp::Or, lhs, rhs))
    }

    pub fn like(lhs: Expr, rhs: Expr) -> (r: Expr)
        ensures
            r == bin(BinaryOp::Like, lhs, rhs),
    {
        Expr::Binary(Self::new(BinaryOp::Like, lhs, rhs))
    }

    pub fn not_like(lhs: Expr, rhs: Expr) -> (r: Expr)
        ensures
            r == bin(BinaryOp::NotLike, lhs, rhs),
    {
        Expr::Binary(Self::new(BinaryOp::NotLike, lhs, rhs))
    }
}

} // verus!
