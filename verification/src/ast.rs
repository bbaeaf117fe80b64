//! The syntax of the circuit language: operators, expressions and
//! statements, as far as the exporters read them.
use crate::bigint::BigInt;
use vstd::prelude::*;

verus! {

/// Binary operators.
#[derive(Clone, Copy, Debug, PartialEq, Eq, Structural)]
pub enum ExpressionInfixOpcode {
    Mul,
    Div,
    Add,
    Sub,
    Pow,
    IntDiv,
    Mod,
    ShiftL,
    ShiftR,
    LesserEq,
    GreaterEq,
    Lesser,
    Greater,
    Eq,
    NotEq,
    BoolOr,
    BoolAnd,
    BitOr,
    BitAnd,
    BitXor,
}

/// Unary operators.
#[derive(Clone, Copy, Debug, PartialEq, Eq, Structural)]
pub enum ExpressionPrefixOpcode {
    Sub,
    BoolNot,
    Complement,
}

/// Name of a binary operator.
pub open spec fn infix_name(op: ExpressionInfixOpcode) -> Seq<char> {
    match op {
        ExpressionInfixOpcode::Mul => "Mul"@,
        ExpressionInfixOpcode::Div => "Div"@,
        ExpressionInfixOpcode::Add => "Add"@,
        ExpressionInfixOpcode::Sub => "Sub"@,
        ExpressionInfixOpcode::Pow => "Pow"@,
        ExpressionInfixOpcode::IntDiv => "IntDiv"@,
        ExpressionInfixOpcode::Mod => "Mod"@,
        ExpressionInfixOpcode::ShiftL => "ShiftL"@,
        ExpressionInfixOpcode::ShiftR => "ShiftR"@,
        ExpressionInfixOpcode::LesserEq => "LesserEq"@,
        ExpressionInfixOpcode::GreaterEq => "GreaterEq"@,
        ExpressionInfixOpcode::Lesser => "Lesser"@,
        ExpressionInfixOpcode::Greater => "Greater"@,
        ExpressionInfixOpcode::Eq => "Eq"@,
        ExpressionInfixOpcode::NotEq => "NotEq"@,
        ExpressionInfixOpcode::BoolOr => "BoolOr"@,
        ExpressionInfixOpcode::BoolAnd => "BoolAnd"@,
        ExpressionInfixOpcode::BitOr => "BitOr"@,
        ExpressionInfixOpcode::BitAnd => "BitAnd"@,
        ExpressionInfixOpcode::BitXor => "BitXor"@,
    }
}

/// Name of a unary operator.
pub open spec fn prefix_name(op: ExpressionPrefixOpcode) -> Seq<char> {
    match op {
        ExpressionPrefixOpcode::Sub => "Sub"@,
        ExpressionPrefixOpcode::BoolNot => "BoolNot"@,
        ExpressionPrefixOpcode::Complement => "Complement"@,
    }
}

impl ExpressionInfixOpcode {
    /// The operator's name, as its debug notation prints it.
    pub fn name(&self) -> (r: &'static str)
        ensures
            r@ == infix_name(*self),
    {
        match self {
            ExpressionInfixOpcode::Mul => "Mul",
            ExpressionInfixOpcode::Div => "Div",
            ExpressionInfixOpcode::Add => "Add",
            ExpressionInfixOpcode::Sub => "Sub",
            ExpressionInfixOpcode::Pow => "Pow",
            ExpressionInfixOpcode::IntDiv => "IntDiv",
            ExpressionInfixOpcode::Mod => "Mod",
            ExpressionInfixOpcode::ShiftL => "ShiftL",
            ExpressionInfixOpcode::ShiftR => "ShiftR",
            ExpressionInfixOpcode::LesserEq => "LesserEq",
            ExpressionInfixOpcode::GreaterEq => "GreaterEq",
            ExpressionInfixOpcode::Lesser => "Lesser",
            ExpressionInfixOpcode::Greater => "Greater",
            ExpressionInfixOpcode::Eq => "Eq",
            ExpressionInfixOpcode::NotEq => "NotEq",
            ExpressionInfixOpcode::BoolOr => "BoolOr",
            ExpressionInfixOpcode::BoolAnd => "BoolAnd",
            ExpressionInfixOpcode::BitOr => "BitOr",
            ExpressionInfixOpcode::BitAnd => "BitAnd",
            ExpressionInfixOpcode::BitXor => "BitXor",
        }
    }
}

impl ExpressionPrefixOpcode {
    /// The operator's name, as its debug notation prints it.
    pub fn name(&self) -> (r: &'static str)
        ensures
            r@ == prefix_name(*self),
    {
        match self {
            ExpressionPrefixOpcode::Sub => "Sub",
            ExpressionPrefixOpcode::BoolNot => "BoolNot",
            ExpressionPrefixOpcode::Complement => "Complement",
        }
    }
}

/// An access step after a name: a component field or an array index.
pub enum Access {
    ComponentAccess(String),
    ArrayAccess(Expression),
}

/// An expression of the circuit language.
pub enum Expression {
    InfixOp { lhe: Box<Expression>, infix_op: ExpressionInfixOpcode, rhe: Box<Expression> },
    PrefixOp { prefix_op: ExpressionPrefixOpcode, rhe: Box<Expression> },
    InlineSwitchOp { cond: Box<Expression>, if_true: Box<Expression>, if_false: Box<Expression> },
    ParallelOp { rhe: Box<Expression> },
    Variable { name: String, access: Vec<Access> },
    Number(BigInt),
    Call { id: String, args: Vec<Expression> },
    BusCall { id: String, args: Vec<Expression> },
    ArrayInLine { values: Vec<Expression> },
    UniformArray { value: Box<Expression>, dimension: Box<Expression> },
}

/// The direction of a signal.
#[derive(Clone, Copy, Debug, PartialEq, Eq, Structural)]
pub enum SignalType {
    Output,
    Input,
    Intermediate,
}

/// Name of a signal direction.
pub open spec fn signal_type_name(t: SignalType) -> Seq<char> {
    match t {
        SignalType::Output => "Output"@,
        SignalType::Input => "Input"@,
        SignalType::Intermediate => "Intermediate"@,
    }
}

impl SignalType {
    /// The direction's name, as its debug notation prints it.
    pub fn name(&self) -> (r: &'static str)
        ensures
            r@ == signal_type_name(*self),
    {
        match self {
            SignalType::Output => "Output",
            SignalType::Input => "Input",
            SignalType::Intermediate => "Intermediate",
        }
    }
}

/// The type of a declared name.
pub enum VariableType {
    Var,
    Signal(SignalType, Vec<String>),
    Component,
    AnonymousComponent,
    Bus(String, SignalType, Vec<String>),
}

/// The kind of an assignment.
#[derive(Clone, Copy, Debug, PartialEq, Eq, Structural)]
pub enum AssignOp {
    AssignVar,
    AssignSignal,
    AssignConstraintSignal,
}

/// Name of an assignment kind.
pub open spec fn assign_op_name(op: AssignOp) -> Seq<char> {
    match op {
        AssignOp::AssignVar => "AssignVar"@,
        AssignOp::AssignSignal => "AssignSignal"@,
        AssignOp::AssignConstraintSignal => "AssignConstraintSignal"@,
    }
}

impl AssignOp {
    /// The assignment kind's name, as its debug notation prints it.
    pub fn name(&self) -> (r: &'static str)
        ensures
            r@ == assign_op_name(*self),
    {
        match self {
            AssignOp::AssignVar => "AssignVar",
            AssignOp::AssignSignal => "AssignSignal",
            AssignOp::AssignConstraintSignal => "AssignConstraintSignal",
        }
    }
}

/// An argument of a `log` call: a string literal or an expression.
pub enum LogArgument {
    LogStr(String),
    LogExp(Expression),
}

/// A statement of the circuit language.
pub enum Statement {
    IfThenElse { cond: Expression, if_case: Box<Statement>, else_case: Option<Box<Statement>> },
    While { cond: Expression, stmt: Box<Statement> },
    Return { value: Expression },
    InitializationBlock { xtype: VariableType, initializations: Vec<Statement> },
    Declaration { xtype: VariableType, name: String, dimensions: Vec<Expression>, is_constant: bool, is_anonymous: bool },
    Substitution { var: String, access: Vec<Access>, op: AssignOp, rhe: Expression },
    UnderscoreSubstitution { op: AssignOp, rhe: Expression },
    ConstraintEquality { lhe: Expression, rhe: Expression },
    LogCall { args: Vec<LogArgument> },
    Block { stmts: Vec<Statement> },
    Assert { arg: Expression },
}

} // verus!
