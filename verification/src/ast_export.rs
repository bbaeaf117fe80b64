//! JSON export of the syntax tree: templates, functions and buses, with
//! their statements and expressions.  Each exporter appends its JSON to a
//! text; writing the text to files is left to the caller.
use crate::ast::{
    assign_op_name, infix_name, prefix_name, signal_type_name, Access, Expression, LogArgument, Statement,
    VariableType,
};
use crate::bigint::{decimal, decimal_digits};
use crate::text::usize_decimal;
use vstd::prelude::*;

verus! {

/// Whether and where the syntax tree is exported.
pub struct ExportConfig {
    pub flag_json_ast: bool,
    pub json_ast_folder: String,
}

/// JSON of an expression.
pub open spec fn expression_json(e: Expression) -> Seq<char>
    decreases e,
{
    match e {
        Expression::InfixOp { lhe, infix_op, rhe } => "{\"$\": \"Expr\", "@ + "\"@\": \"InfixOp\", "@
            + "\"infix_op\": \""@ + infix_name(infix_op) + "\", "@ + "\"lhe\": "@ + expression_json(*lhe)
            + ", \"rhe\": "@ + expression_json(*rhe) + "}"@,
        Expression::PrefixOp { prefix_op, rhe } => "{\"$\": \"Expr\", "@ + "\"@\": \"PrefixOp\", "@
            + "\"prefix_op\": \""@ + prefix_name(prefix_op) + "\", "@ + "\"rhe\": "@ + expression_json(*rhe)
            + "}"@,
        Expression::InlineSwitchOp { cond, if_true, if_false } => "{\"$\": \"Expr\", "@
            + "\"@\": \"InlineSwitchOp\", "@ + "\"cond\": "@ + expression_json(*cond) + ", \"if_true\": "@
            + expression_json(*if_true) + ", \"if_false\": "@ + expression_json(*if_false) + "}"@,
        Expression::ParallelOp { rhe } => "{\"$\": \"Expr\", "@ + "\"@\": \"ParallelOp\", "@ + "\"rhe\": "@
            + expression_json(*rhe) + "}"@,
        Expression::Variable { name, access } => "{\"$\": \"Expr\", "@ + "\"@\": \"Variable\", "@
            + "\"name\": \""@ + name@ + "\", "@ + "\"access\": "@ + "["@ + accesses_joined(access@) + "]"@
            + "}"@,
        Expression::Number(value) => "{\"$\": \"Expr\", "@ + "\"@\": \"Number\", "@ + "\"value\": \""@
            + decimal(value@) + "\"}"@,
        Expression::Call { id, args } => "{\"$\": \"Expr\", "@ + "\"@\": \"Call\", "@ + "\"id\": \""@ + id@
            + "\", "@ + "\"args\": "@ + "["@ + expressions_joined(args@) + "]"@ + "}"@,
        Expression::BusCall { id, args } => "{\"$\": \"Expr\", "@ + "\"@\": \"BusCall\", "@ + "\"id\": \""@
            + id@ + "\", "@ + "\"args\": "@ + "["@ + expressions_joined(args@) + "]"@ + "}"@,
        Expression::ArrayInLine { values } => "{\"$\": \"Expr\", "@ + "\"@\": \"ArrayInLine\", "@
            + "\"values\": "@ + "["@ + expressions_joined(values@) + "]"@ + "}"@,
        Expression::UniformArray { value, dimension } => "{\"$\": \"Expr\", "@ + "\"@\": \"UniformArray\", "@
            + "\"value\": "@ + expression_json(*value) + ", \"dimension\": "@ + expression_json(*dimension)
            + "}"@,
    }
}

/// JSON of expressions, separated by ", ".
pub open spec fn expressions_joined(s: Seq<Expression>) -> Seq<char>
    decreases s,
{
    if s.len() == 0 {
        Seq::empty()
    } else if s.len() == 1 {
        expression_json(s[0])
    } else {
        expressions_joined(s.subrange(0, s.len() - 1)) + ", "@ + expression_json(s[s.len() - 1])
    }
}

/// JSON of an access step.
pub open spec fn access_json(a: Access) -> Seq<char>
    decreases a,
{
    match a {
        Access::ComponentAccess(name) => "{\"$\": \"Access\", \"@\": \"ComponentAccess\", \"name\": \""@ + name@
            + "\"}"@,
        Access::ArrayAccess(expr) => "{\"$\": \"Access\", \"@\": \"ArrayAccess\", \"index\": "@ + expression_json(
            expr,
        ) + "}"@,
    }
}

/// JSON of access steps, separated by ", ".
pub open spec fn accesses_joined(s: Seq<Access>) -> Seq<char>
    decreases s,
{
    if s.len() == 0 {
        Seq::empty()
    } else if s.len() == 1 {
        access_json(s[0])
    } else {
        accesses_joined(s.subrange(0, s.len() - 1)) + ", "@ + access_json(s[s.len() - 1])
    }
}

/// Appends the JSON of an expression.
pub fn export_expression(writer: &mut String, expr: &Expression)
    ensures
        final(writer)@ == old(writer)@ + expression_json(*expr),
    decreases expr,
{
    match expr {
        Expression::InfixOp { lhe, infix_op, rhe } => {
            let mut s = String::from_str("{\"$\": \"Expr\", ");
            s.append("\"@\": \"InfixOp\", ");
            s.append("\"infix_op\": \"");
            s.append(infix_op.name());
            s.append("\", ");
            s.append("\"lhe\": ");
            export_expression(&mut s, lhe);
            s.append(", \"rhe\": ");
            export_expression(&mut s, rhe);
            s.append("}");
            writer.append(s.as_str());
        },
        Expression::PrefixOp { prefix_op, rhe } => {
            let mut s = String::from_str("{\"$\": \"Expr\", ");
            s.append("\"@\": \"PrefixOp\", ");
            s.append("\"prefix_op\": \"");
            s.append(prefix_op.name());
            s.append("\", ");
            s.append("\"rhe\": ");
            export_expression(&mut s, rhe);
            s.append("}");
            writer.append(s.as_str());
        },
        Expression::InlineSwitchOp { cond, if_true, if_false } => {
            let mut s = String::from_str("{\"$\": \"Expr\", ");
            s.append("\"@\": \"InlineSwitchOp\", ");
            s.append("\"cond\": ");
            export_expression(&mut s, cond);
            s.append(", \"if_true\": ");
            export_expression(&mut s, if_true);
            s.append(", \"if_false\": ");
            export_expression(&mut s, if_false);
            s.append("}");
            writer.append(s.as_str());
        },
        Expression::ParallelOp { rhe } => {
            let mut s = String::from_str("{\"$\": \"Expr\", ");
            s.append("\"@\": \"ParallelOp\", ");
            s.append("\"rhe\": ");
            export_expression(&mut s, rhe);
            s.append("}");
            writer.append(s.as_str());
        },
        Expression::Variable { name, access } => {
            let mut s = String::from_str("{\"$\": \"Expr\", ");
            s.append("\"@\": \"Variable\", ");
            s.append("\"name\": \"");
            s.append(name.as_str());
            s.append("\", ");
            s.append("\"access\": ");
            export_access_list(&mut s, access);
            s.append("}");
            writer.append(s.as_str());
        },
        Expression::Number(value) => {
            let mut s = String::from_str("{\"$\": \"Expr\", ");
            s.append("\"@\": \"Number\", ");
            s.append("\"value\": \"");
            let text = value.to_decimal_string();
            s.append(text.as_str());
            s.append("\"}");
            writer.append(s.as_str());
        },
        Expression::Call { id, args } => {
            let mut s = String::from_str("{\"$\": \"Expr\", ");
            s.append("\"@\": \"Call\", ");
            s.append("\"id\": \"");
            s.append(id.as_str());
            s.append("\", ");
            s.append("\"args\": ");
            export_expression_list(&mut s, args);
            s.append("}");
            writer.append(s.as_str());
        },
        Expression::BusCall { id, args } => {
            let mut s = String::from_str("{\"$\": \"Expr\", ");
            s.append("\"@\": \"BusCall\", ");
            s.append("\"id\": \"");
            s.append(id.as_str());
            s.append("\", ");
            s.append("\"args\": ");
            export_expression_list(&mut s, args);
            s.append("}");
            writer.append(s.as_str());
        },
        Expression::ArrayInLine { values } => {
            let mut s = String::from_str("{\"$\": \"Expr\", ");
            s.append("\"@\": \"ArrayInLine\", ");
            s.append("\"values\": ");
            export_expression_list(&mut s, values);
            s.append("}");
            writer.append(s.as_str());
        },
        Expression::UniformArray { value, dimension } => {
            let mut s = String::from_str("{\"$\": \"Expr\", ");
            s.append("\"@\": \"UniformArray\", ");
            s.append("\"value\": ");
            export_expression(&mut s, value);
            s.append(", \"dimension\": ");
            export_expression(&mut s, dimension);
            s.append("}");
            writer.append(s.as_str());
        },
    }
}

/// Appends the JSON list of expressions.
pub fn export_expression_list(writer: &mut String, expr_list: &Vec<Expression>)
    ensures
        final(writer)@ == old(writer)@ + "["@ + expressions_joined(expr_list@) + "]"@,
    decreases expr_list,
{
    writer.append("[");
    let ghost start = writer@;
    let mut i: usize = 0;
    while i < expr_list.len()
        invariant
            i <= expr_list.len(),
            writer@ == start + expressions_joined(expr_list@.subrange(0, i as int)),
        decreases expr_list.len() - i,
    {
        proof {
            assert(decreases_to!(expr_list => expr_list[i as int]));
            assert(expr_list@.subrange(0, i + 1).subrange(0, i as int) =~= expr_list@.subrange(0, i as int));
        }
        if i > 0 {
            writer.append(", ");
        }
        export_expression(writer, &expr_list[i]);
        proof {
            assert(writer@ =~= start + expressions_joined(expr_list@.subrange(0, i + 1)));
        }
        i = i + 1;
    }
    proof {
        assert(expr_list@.subrange(0, expr_list.len() as int) =~= expr_list@);
    }
    writer.append("]");
}

/// Appends the JSON of an access step.
pub fn export_access(writer: &mut String, access: &Access)
    ensures
        final(writer)@ == old(writer)@ + access_json(*access),
    decreases access,
{
    match access {
        Access::ComponentAccess(name) => {
            let mut s = String::from_str("{\"$\": \"Access\", \"@\": \"ComponentAccess\", \"name\": \"");
            s.append(name.as_str());
            s.append("\"}");
            writer.append(s.as_str());
        },
        Access::ArrayAccess(expr) => {
            let mut s = String::from_str("{\"$\": \"Access\", \"@\": \"ArrayAccess\", \"index\": ");
            export_expression(&mut s, expr);
            s.append("}");
            writer.append(s.as_str());
        },
    }
}

/// Appends the JSON list of access steps.
pub fn export_access_list(writer: &mut String, access_list: &Vec<Access>)
    ensures
        final(writer)@ == old(writer)@ + "["@ + accesses_joined(access_list@) + "]"@,
    decreases access_list,
{
    writer.append("[");
    let ghost start = writer@;
    let mut i: usize = 0;
    while i < access_list.len()
        invariant
            i <= access_list.len(),
            writer@ == start + accesses_joined(access_list@.subrange(0, i as int)),
        decreases access_list.len() - i,
    {
        proof {
            assert(decreases_to!(access_list => access_list[i as int]));
            assert(access_list@.subrange(0, i + 1).subrange(0, i as int) =~= access_list@.subrange(0, i as int));
        }
        if i > 0 {
            writer.append(", ");
        }
        export_access(writer, &access_list[i]);
        proof {
            assert(writer@ =~= start + accesses_joined(access_list@.subrange(0, i + 1)));
        }
        i = i + 1;
    }
    proof {
        assert(access_list@.subrange(0, access_list.len() as int) =~= access_list@);
    }
    writer.append("]");
}

/// Names in quotes, separated by ", ".
pub open spec fn quoted_joined(s: Seq<String>) -> Seq<char>
    decreases s.len(),
{
    if s.len() == 0 {
        Seq::empty()
    } else if s.len() == 1 {
        "\""@ + s[0]@ + "\""@
    } else {
        quoted_joined(s.subrange(0, s.len() - 1)) + ", "@ + "\""@ + s[s.len() - 1]@ + "\""@
    }
}

/// JSON of the type of a declared name.
pub open spec fn variable_type_json(t: VariableType) -> Seq<char> {
    match t {
        VariableType::Var => "{\"$\": \"VarType\", \"@\": \"Var\"}"@,
        VariableType::Signal(signal_type, tag_list) => "{\"$\": \"VarType\","@ + "\"@\": \"Signal\","@
            + "\"signal_type\": \""@ + signal_type_name(signal_type) + "\""@ + ", \"tag_list\": "@ + "["@
            + quoted_joined(tag_list@) + "]"@ + "}"@,
        VariableType::Component => "{\"$\": \"VarType\", \"@\": \"Component\"}"@,
        VariableType::AnonymousComponent => "{\"$\": \"VarType\", \"@\": \"AnonymousComponent\"}"@,
        VariableType::Bus(name, signal_type, tag_list) => "{\"$\": \"VarType\","@ + "\"@\": \"Bus\","@
            + "\"id\": \""@ + name@ + "\","@ + "\"signal_type\": \""@ + signal_type_name(signal_type) + "\""@
            + ", \"tag_list\": "@ + "["@ + quoted_joined(tag_list@) + "]"@ + "}"@,
    }
}

/// JSON of an argument of `log`.
pub open spec fn log_argument_json(a: LogArgument) -> Seq<char> {
    match a {
        LogArgument::LogStr(text) => "{\"$\": \"LogArg\", \"@\": \"LogStr\", \"literal\": \""@ + text@ + "\"}"@,
        LogArgument::LogExp(expr) => "{\"$\": \"LogArg\", \"@\": \"LogExp\", \"value\": "@ + expression_json(expr)
            + "}"@,
    }
}

/// JSON of arguments of `log`, separated by ", ".
pub open spec fn log_arguments_joined(s: Seq<LogArgument>) -> Seq<char>
    decreases s.len(),
{
    if s.len() == 0 {
        Seq::empty()
    } else if s.len() == 1 {
        log_argument_json(s[0])
    } else {
        log_arguments_joined(s.subrange(0, s.len() - 1)) + ", "@ + log_argument_json(s[s.len() - 1])
    }
}

/// JSON of statements, each on a line of its own, separated by ",".
pub open spec fn statement_lines(s: Seq<Statement>) -> Seq<char>
    decreases s,
{
    if s.len() == 0 {
        Seq::empty()
    } else if s.len() == 1 {
        "\n"@ + statement_json(s[0])
    } else {
        statement_lines(s.subrange(0, s.len() - 1)) + ",\n"@ + statement_json(s[s.len() - 1])
    }
}

/// JSON of a statement.
pub open spec fn statement_json(st: Statement) -> Seq<char>
    decreases st,
{
    match st {
        Statement::IfThenElse { cond, if_case, else_case } => "{\"$\": \"Stmt\", "@ + "\"@\": \"IfThenElse\", "@
            + "\"cond\": "@ + expression_json(cond) + ", \"if_case\": "@ + statement_json(*if_case) + ","@
            + "\"else_case\": "@ + match else_case {
            Some(else_stmt) => statement_json(*else_stmt),
            None => "null"@,
        } + "}"@,
        Statement::While { cond, stmt } => "{\"$\": \"Stmt\", "@ + "\"@\": \"While\", "@ + "\"cond\": "@
            + expression_json(cond) + ", \"stmt\": "@ + statement_json(*stmt) + "}"@,
        Statement::Return { value } => "{\"$\": \"Stmt\", "@ + "\"@\": \"Return\", "@ + "\"value\": "@
            + expression_json(value) + "}"@,
        Statement::InitializationBlock { xtype, initializations } => "{\"$\": \"Stmt\","@
            + "\"@\": \"InitializationBlock\", "@ + "\"xtype\": "@ + variable_type_json(xtype)
            + ", \"initializations\": ["@ + statement_lines(initializations@) + "]}"@,
        Statement::Declaration { xtype, name, dimensions, is_constant, is_anonymous } => "{\"$\": \"Stmt\", "@
            + "\"@\": \"Declaration\", "@ + "\"xtype\": "@ + variable_type_json(xtype) + ", \"name\": \""@ + name@
            + "\", "@ + "\"dimensions\": "@ + "["@ + expressions_joined(dimensions@) + "]"@
            + ", \"is_constant\": "@ + bool_text(is_constant) + ", \"is_anonymous\": "@ + bool_text(is_anonymous)
            + "}"@,
        Statement::Substitution { var, access, op, rhe } => "{\"$\": \"Stmt\", "@ + "\"@\": \"Substitution\", "@
            + "\"var\": \""@ + var@ + "\", "@ + "\"access\": "@ + "["@ + accesses_joined(access@) + "]"@
            + ", \"op\": \""@ + assign_op_name(op) + "\", "@ + "\"rhe\": "@ + expression_json(rhe) + "}"@,
        Statement::UnderscoreSubstitution { op, rhe } => "{\"$\": \"Stmt\", "@ + "\"@\": \"UnderscoreSubstitution\", "@
            + "\"op\": \""@ + assign_op_name(op) + "\", "@ + "\"rhe\": "@ + expression_json(rhe) + "}"@,
        Statement::ConstraintEquality { lhe, rhe } => "{\"$\": \"Stmt\", "@ + "\"@\": \"ConstraintEquality\", "@
            + "\"lhe\": "@ + expression_json(lhe) + ", \"rhe\": "@ + expression_json(rhe) + "}"@,
        Statement::LogCall { args } => "{\"$\": \"Stmt\", "@ + "\"@\": \"LogCall\", "@ + "\"args\": "@ + "["@
            + log_arguments_joined(args@) + "]"@ + "}"@,
        Statement::Block { stmts } => "{\"$\": \"Stmt\", "@ + "\"@\": \"Block\", "@ + "\"stmts\": ["@
            + statement_lines(stmts@) + "]}"@,
        Statement::Assert { arg } => "{\"$\": \"Stmt\", "@ + "\"@\": \"Assert\", "@ + "\"arg\": "@
            + expression_json(arg) + "}"@,
    }
}

/// `true` or `false`, as a boolean prints.
pub open spec fn bool_text(b: bool) -> Seq<char> {
    if b { "true"@ } else { "false"@ }
}

fn bool_text_exec(b: bool) -> (r: &'static str)
    ensures
        r@ == bool_text(b),
{
    if b { "true" } else { "false" }
}

/// Appends the JSON list of tags.
fn export_tag_list(writer: &mut String, tag_list: &Vec<String>)
    ensures
        final(writer)@ == old(writer)@ + "["@ + quoted_joined(tag_list@) + "]"@,
{
    writer.append("[");
    let ghost start = writer@;
    let mut i: usize = 0;
    while i < tag_list.len()
        invariant
            i <= tag_list.len(),
            writer@ == start + quoted_joined(tag_list@.subrange(0, i as int)),
        decreases tag_list.len() - i,
    {
        proof {
            assert(tag_list@.subrange(0, i + 1).subrange(0, i as int) =~= tag_list@.subrange(0, i as int));
        }
        if i > 0 {
            writer.append(", ");
        }
        writer.append("\"");
        writer.append(tag_list[i].as_str());
        writer.append("\"");
        proof {
            assert(writer@ =~= start + quoted_joined(tag_list@.subrange(0, i + 1)));
        }
        i = i + 1;
    }
    proof {
        assert(tag_list@.subrange(0, tag_list.len() as int) =~= tag_list@);
    }
    writer.append("]");
}

/// Appends the JSON of the type of a declared name.
fn export_variable_type(writer: &mut String, var_type: &VariableType)
    ensures
        final(writer)@ == old(writer)@ + variable_type_json(*var_type),
{
    match var_type {
        VariableType::Var => writer.append("{\"$\": \"VarType\", \"@\": \"Var\"}"),
        VariableType::Signal(signal_type, tag_list) => {
            let mut s = String::from_str("{\"$\": \"VarType\",");
            s.append("\"@\": \"Signal\",");
            s.append("\"signal_type\": \"");
            s.append(signal_type.name());
            s.append("\"");
            s.append(", \"tag_list\": ");
            export_tag_list(&mut s, tag_list);
            s.append("}");
            writer.append(s.as_str());
        },
        VariableType::Component => writer.append("{\"$\": \"VarType\", \"@\": \"Component\"}"),
        VariableType::AnonymousComponent => writer.append("{\"$\": \"VarType\", \"@\": \"AnonymousComponent\"}"),
        VariableType::Bus(name, signal_type, tag_list) => {
            let mut s = String::from_str("{\"$\": \"VarType\",");
            s.append("\"@\": \"Bus\",");
            s.append("\"id\": \"");
            s.append(name.as_str());
            s.append("\",");
            s.append("\"signal_type\": \"");
            s.append(signal_type.name());
            s.append("\"");
            s.append(", \"tag_list\": ");
            export_tag_list(&mut s, tag_list);
            s.append("}");
            writer.append(s.as_str());
        },
    }
}

/// Appends the JSON of an argument of `log`.
fn export_log_argument(writer: &mut String, arg: &LogArgument)
    ensures
        final(writer)@ == old(writer)@ + log_argument_json(*arg),
{
    match arg {
        LogArgument::LogStr(text) => {
            let mut s = String::from_str("{\"$\": \"LogArg\", \"@\": \"LogStr\", \"literal\": \"");
            s.append(text.as_str());
            s.append("\"}");
            writer.append(s.as_str());
        },
        LogArgument::LogExp(expr) => {
            let mut s = String::from_str("{\"$\": \"LogArg\", \"@\": \"LogExp\", \"value\": ");
            export_expression(&mut s, expr);
            s.append("}");
            writer.append(s.as_str());
        },
    }
}

/// Appends the JSON list of arguments of `log`.
fn export_log_argument_list(writer: &mut String, args: &Vec<LogArgument>)
    ensures
        final(writer)@ == old(writer)@ + "["@ + log_arguments_joined(args@) + "]"@,
{
    writer.append("[");
    let ghost start = writer@;
    let mut i: usize = 0;
    while i < args.len()
        invariant
            i <= args.len(),
            writer@ == start + log_arguments_joined(args@.subrange(0, i as int)),
        decreases args.len() - i,
    {
        proof {
            assert(args@.subrange(0, i + 1).subrange(0, i as int) =~= args@.subrange(0, i as int));
        }
        if i > 0 {
            writer.append(", ");
        }
        export_log_argument(writer, &args[i]);
        proof {
            assert(writer@ =~= start + log_arguments_joined(args@.subrange(0, i + 1)));
        }
        i = i + 1;
    }
    proof {
        assert(args@.subrange(0, args.len() as int) =~= args@);
    }
    writer.append("]");
}

/// Appends the statements, each on a line of its own, separated by ",".
fn export_statement_lines(writer: &mut String, stmts: &Vec<Statement>)
    ensures
        final(writer)@ == old(writer)@ + statement_lines(stmts@),
    decreases stmts,
{
    let ghost start = writer@;
    let mut i: usize = 0;
    while i < stmts.len()
        invariant
            i <= stmts.len(),
            writer@ == start + statement_lines(stmts@.subrange(0, i as int)),
        decreases stmts.len() - i,
    {
        proof {
            assert(decreases_to!(stmts => stmts[i as int]));
            assert(stmts@.subrange(0, i + 1).subrange(0, i as int) =~= stmts@.subrange(0, i as int));
        }
        if i > 0 {
            writer.append(",\n");
        } else {
            writer.append("\n");
        }
        export_statement(writer, &stmts[i]);
        proof {
            assert(writer@ =~= start + statement_lines(stmts@.subrange(0, i + 1)));
        }
        i = i + 1;
    }
    proof {
        assert(stmts@.subrange(0, stmts.len() as int) =~= stmts@);
    }
}

/// Appends the JSON of a statement.
pub fn export_statement(writer: &mut String, stmt: &Statement)
    ensures
        final(writer)@ == old(writer)@ + statement_json(*stmt),
    decreases stmt,
{
    match stmt {
        Statement::IfThenElse { cond, if_case, else_case } => {
            let mut s = String::from_str("{\"$\": \"Stmt\", ");
            s.append("\"@\": \"IfThenElse\", ");
            s.append("\"cond\": ");
            export_expression(&mut s, cond);
            s.append(", \"if_case\": ");
            export_statement(&mut s, if_case);
            s.append(",");
            s.append("\"else_case\": ");
            match else_case {
                Some(else_stmt) => export_statement(&mut s, else_stmt),
                None => s.append("null"),
            }
            s.append("}");
            writer.append(s.as_str());
        },
        Statement::While { cond, stmt: body } => {
            let mut s = String::from_str("{\"$\": \"Stmt\", ");
            s.append("\"@\": \"While\", ");
            s.append("\"cond\": ");
            export_expression(&mut s, cond);
            s.append(", \"stmt\": ");
            export_statement(&mut s, body);
            s.append("}");
            writer.append(s.as_str());
        },
        Statement::Return { value } => {
            let mut s = String::from_str("{\"$\": \"Stmt\", ");
            s.append("\"@\": \"Return\", ");
            s.append("\"value\": ");
            export_expression(&mut s, value);
            s.append("}");
            writer.append(s.as_str());
        },
        Statement::InitializationBlock { xtype, initializations } => {
            let mut s = String::from_str("{\"$\": \"Stmt\",");
            s.append("\"@\": \"InitializationBlock\", ");
            s.append("\"xtype\": ");
            export_variable_type(&mut s, xtype);
            s.append(", \"initializations\": [");
            export_statement_lines(&mut s, initializations);
            s.append("]}");
            writer.append(s.as_str());
        },
        Statement::Declaration { xtype, name, dimensions, is_constant, is_anonymous } => {
            let mut s = String::from_str("{\"$\": \"Stmt\", ");
            s.append("\"@\": \"Declaration\", ");
            s.append("\"xtype\": ");
            export_variable_type(&mut s, xtype);
            s.append(", \"name\": \"");
            s.append(name.as_str());
            s.append("\", ");
            s.append("\"dimensions\": ");
            export_expression_list(&mut s, dimensions);
            s.append(", \"is_constant\": ");
            s.append(bool_text_exec(*is_constant));
            s.append(", \"is_anonymous\": ");
            s.append(bool_text_exec(*is_anonymous));
            s.append("}");
            writer.append(s.as_str());
        },
        Statement::Substitution { var, access, op, rhe } => {
            let mut s = String::from_str("{\"$\": \"Stmt\", ");
            s.append("\"@\": \"Substitution\", ");
            s.append("\"var\": \"");
            s.append(var.as_str());
            s.append("\", ");
            s.append("\"access\": ");
            export_access_list(&mut s, access);
            s.append(", \"op\": \"");
            s.append(op.name());
            s.append("\", ");
            s.append("\"rhe\": ");
            export_expression(&mut s, rhe);
            s.append("}");
            writer.append(s.as_str());
        },
        Statement::UnderscoreSubstitution { op, rhe } => {
            let mut s = String::from_str("{\"$\": \"Stmt\", ");
            s.append("\"@\": \"UnderscoreSubstitution\", ");
            s.append("\"op\": \"");
            s.append(op.name());
            s.append("\", ");
            s.append("\"rhe\": ");
            export_expression(&mut s, rhe);
            s.append("}");
            writer.append(s.as_str());
        },
        Statement::ConstraintEquality { lhe, rhe } => {
            let mut s = String::from_str("{\"$\": \"Stmt\", ");
            s.append("\"@\": \"ConstraintEquality\", ");
            s.append("\"lhe\": ");
            export_expression(&mut s, lhe);
            s.append(", \"rhe\": ");
            export_expression(&mut s, rhe);
            s.append("}");
            writer.append(s.as_str());
        },
        Statement::LogCall { args } => {
            let mut s = String::from_str("{\"$\": \"Stmt\", ");
            s.append("\"@\": \"LogCall\", ");
            s.append("\"args\": ");
            export_log_argument_list(&mut s, args);
            s.append("}");
            writer.append(s.as_str());
        },
        Statement::Block { stmts } => {
            let mut s = String::from_str("{\"$\": \"Stmt\", ");
            s.append("\"@\": \"Block\", ");
            s.append("\"stmts\": [");
            export_statement_lines(&mut s, stmts);
            s.append("]}");
            writer.append(s.as_str());
        },
        Statement::Assert { arg } => {
            let mut s = String::from_str("{\"$\": \"Stmt\", ");
            s.append("\"@\": \"Assert\", ");
            s.append("\"arg\": ");
            export_expression(&mut s, arg);
            s.append("}");
            writer.append(s.as_str());
        },
    }
}

/// A template of the program, as the exporter reads it.
pub struct TemplateData {
    pub file_id: usize,
    pub name: String,
    pub num_of_params: usize,
    pub name_of_params: Vec<String>,
    pub is_parallel: bool,
    pub is_custom_gate: bool,
    pub is_extern_c: bool,
    pub body: Statement,
}

/// A function of the program, as the exporter reads it.
pub struct FunctionData {
    pub file_id: usize,
    pub name: String,
    pub num_of_params: usize,
    pub name_of_params: Vec<String>,
    pub body: Statement,
}

/// A bus of the program, as the exporter reads it.
pub struct BusData {
    pub file_id: usize,
    pub name: String,
    pub num_of_params: usize,
    pub name_of_params: Vec<String>,
}

/// The JSON document of a template, one member per line.
pub open spec fn template_json(data: TemplateData) -> Seq<char> {
    "{\n"@ + "\"$\": \"Ast\",\n"@ + "\"@\": \"TemplateData\",\n"@ + "\"file_id\": \""@ + decimal_digits(
        data.file_id as nat,
    ) + "\",\n"@ + "\"name\": \""@ + data.name@ + "\",\n"@ + "\"num_of_params\": "@ + decimal_digits(
        data.num_of_params as nat,
    ) + ",\n"@ + "\"name_of_params\": ["@ + quoted_joined(data.name_of_params@) + "],\n"@ + "\"is_parallel\": "@
        + bool_text(data.is_parallel) + ",\n"@ + "\"is_custom_gate\": "@ + bool_text(data.is_custom_gate) + ",\n"@
        + "\"is_extern_c\": "@ + bool_text(data.is_extern_c) + ",\n"@ + "\"body\": "@ + statement_json(data.body)
        + "\n"@ + "}\n"@
}

/// The JSON document of a function, one member per line.
pub open spec fn function_json(data: FunctionData) -> Seq<char> {
    "{\n"@ + "\"$\": \"Ast\",\n"@ + "\"@\": \"FunctionData\",\n"@ + "\"name\": \""@ + data.name@ + "\",\n"@
        + "\"file_id\": \""@ + decimal_digits(data.file_id as nat) + "\",\n"@ + "\"num_of_params\": "@
        + decimal_digits(data.num_of_params as nat) + ",\n"@ + "\"name_of_params\": ["@ + quoted_joined(
        data.name_of_params@,
    ) + "],\n"@ + "\"body\": "@ + statement_json(data.body) + "\n"@ + "}\n"@
}

/// The JSON document of a bus, one member per line.
pub open spec fn bus_json(data: BusData) -> Seq<char> {
    "{\n"@ + "\"$\": \"Ast\",\n"@ + "\"@\": \"BusData\",\n"@ + "\"file_id\": \""@ + decimal_digits(
        data.file_id as nat,
    ) + "\",\n"@ + "\"name\": \""@ + data.name@ + "\",\n"@ + "\"num_of_params\": "@ + decimal_digits(
        data.num_of_params as nat,
    ) + ",\n"@ + "\"name_of_params\": ["@ + quoted_joined(data.name_of_params@) + "]\n"@ + "}\n"@
}

/// Appends names in quotes, separated by ", ".
fn export_quoted_names(writer: &mut String, names: &Vec<String>)
    ensures
        final(writer)@ == old(writer)@ + quoted_joined(names@),
{
    let ghost start = writer@;
    let mut i: usize = 0;
    while i < names.len()
        invariant
            i <= names.len(),
            writer@ == start + quoted_joined(names@.subrange(0, i as int)),
        decreases names.len() - i,
    {
        proof {
            assert(names@.subrange(0, i + 1).subrange(0, i as int) =~= names@.subrange(0, i as int));
        }
        if i > 0 {
            writer.append(", ");
        }
        writer.append("\"");
        writer.append(names[i].as_str());
        writer.append("\"");
        proof {
            assert(writer@ =~= start + quoted_joined(names@.subrange(0, i + 1)));
        }
        i = i + 1;
    }
    proof {
        assert(names@.subrange(0, names.len() as int) =~= names@);
    }
}

/// Appends the JSON document of a template.
pub fn export_template(writer: &mut String, data: &TemplateData)
    ensures
        final(writer)@ == old(writer)@ + template_json(*data),
{
    let mut s = String::from_str("{\n");
    s.append("\"$\": \"Ast\",\n");
    s.append("\"@\": \"TemplateData\",\n");
    s.append("\"file_id\": \"");
    let file_id = usize_decimal(data.file_id);
    s.append(file_id.as_str());
    s.append("\",\n");
    s.append("\"name\": \"");
    s.append(data.name.as_str());
    s.append("\",\n");
    s.append("\"num_of_params\": ");
    let num = usize_decimal(data.num_of_params);
    s.append(num.as_str());
    s.append(",\n");
    s.append("\"name_of_params\": [");
    export_quoted_names(&mut s, &data.name_of_params);
    s.append("],\n");
    s.append("\"is_parallel\": ");
    s.append(bool_text_exec(data.is_parallel));
    s.append(",\n");
    s.append("\"is_custom_gate\": ");
    s.append(bool_text_exec(data.is_custom_gate));
    s.append(",\n");
    s.append("\"is_extern_c\": ");
    s.append(bool_text_exec(data.is_extern_c));
    s.append(",\n");
    s.append("\"body\": ");
    export_statement(&mut s, &data.body);
    s.append("\n");
    s.append("}\n");
    writer.append(s.as_str());
}

/// Appends the JSON document of a function.
pub fn export_function(writer: &mut String, data: &FunctionData)
    ensures
        final(writer)@ == old(writer)@ + function_json(*data),
{
    let mut s = String::from_str("{\n");
    s.append("\"$\": \"Ast\",\n");
    s.append("\"@\": \"FunctionData\",\n");
    s.append("\"name\": \"");
    s.append(data.name.as_str());
    s.append("\",\n");
    s.append("\"file_id\": \"");
    let file_id = usize_decimal(data.file_id);
    s.append(file_id.as_str());
    s.append("\",\n");
    s.append("\"num_of_params\": ");
    let num = usize_decimal(data.num_of_params);
    s.append(num.as_str());
    s.append(",\n");
    s.append("\"name_of_params\": [");
    export_quoted_names(&mut s, &data.name_of_params);
    s.append("],\n");
    s.append("\"body\": ");
    export_statement(&mut s, &data.body);
    s.append("\n");
    s.append("}\n");
    writer.append(s.as_str());
}

/// Appends the JSON document of a bus.
pub fn export_bus(writer: &mut String, data: &BusData)
    ensures
        final(writer)@ == old(writer)@ + bus_json(*data),
{
    let mut s = String::from_str("{\n");
    s.append("\"$\": \"Ast\",\n");
    s.append("\"@\": \"BusData\",\n");
    s.append("\"file_id\": \"");
    let file_id = usize_decimal(data.file_id);
    s.append(file_id.as_str());
    s.append("\",\n");
    s.append("\"name\": \"");
    s.append(data.name.as_str());
    s.append("\",\n");
    s.append("\"num_of_params\": ");
    let num = usize_decimal(data.num_of_params);
    s.append(num.as_str());
    s.append(",\n");
    s.append("\"name_of_params\": [");
    export_quoted_names(&mut s, &data.name_of_params);
    s.append("]\n");
    s.append("}\n");
    writer.append(s.as_str());
}

/// The JSON of a variable is made of its name and of its access list as
/// `export_access_list` writes it (`[` and the steps `]`), closed by `}`;
/// what stands around them is the same for every variable. So the JSON of
/// `in[0]` holds the JSON of the step `[0]`, and differs from that of `in`.
pub proof fn law_variable_json(name1: String, access1: Vec<Access>, name2: String, access2: Vec<Access>)
    ensures
        exists|p0: Seq<char>, p1: Seq<char>|
            expression_json(Expression::Variable { name: name1, access: access1 }) == p0 + name1@ + p1 + "["@
                + accesses_joined(access1@) + "]"@ + "}"@ && expression_json(
                Expression::Variable { name: name2, access: access2 },
            ) == p0 + name2@ + p1 + "["@ + accesses_joined(access2@) + "]"@ + "}"@,
{
    let p0 = "{\"$\": \"Expr\", "@ + "\"@\": \"Variable\", "@ + "\"name\": \""@;
    let p1 = "\", "@ + "\"access\": "@;
    assert(expression_json(Expression::Variable { name: name1, access: access1 }) =~= p0 + name1@ + p1 + "["@
        + accesses_joined(access1@) + "]"@ + "}"@);
    assert(expression_json(Expression::Variable { name: name2, access: access2 }) =~= p0 + name2@ + p1 + "["@
        + accesses_joined(access2@) + "]"@ + "}"@);
}

/// The JSON of a conditional is made of the JSON of its condition, of its
/// `if` branch and of its `else` branch (`null` where there is none), in
/// that order, closed by `}`; what stands between them is the same for
/// every conditional. So a conditional with an `else` branch holds that
/// branch's JSON where one without has `null`.
pub proof fn law_if_then_else_json(
    cond1: Expression,
    if1: Box<Statement>,
    else1: Option<Box<Statement>>,
    cond2: Expression,
    if2: Box<Statement>,
    else2: Option<Box<Statement>>,
)
    ensures
        exists|p0: Seq<char>, p1: Seq<char>, p2: Seq<char>|
            statement_json(Statement::IfThenElse { cond: cond1, if_case: if1, else_case: else1 }) == p0 + expression_json(
                cond1,
            ) + p1 + statement_json(*if1) + p2 + match else1 {
                Some(e) => statement_json(*e),
                None => "null"@,
            } + "}"@ && statement_json(Statement::IfThenElse { cond: cond2, if_case: if2, else_case: else2 }) == p0
                + expression_json(cond2) + p1 + statement_json(*if2) + p2 + match else2 {
                Some(e) => statement_json(*e),
                None => "null"@,
            } + "}"@,
{
    let p0 = "{\"$\": \"Stmt\", "@ + "\"@\": \"IfThenElse\", "@ + "\"cond\": "@;
    let p1 = ", \"if_case\": "@;
    let p2 = ","@ + "\"else_case\": "@;
    let t1 = match else1 {
        Some(e) => statement_json(*e),
        None => "null"@,
    };
    let t2 = match else2 {
        Some(e) => statement_json(*e),
        None => "null"@,
    };
    assert(statement_json(Statement::IfThenElse { cond: cond1, if_case: if1, else_case: else1 }) =~= p0
        + expression_json(cond1) + p1 + statement_json(*if1) + p2 + t1 + "}"@);
    assert(statement_json(Statement::IfThenElse { cond: cond2, if_case: if2, else_case: else2 }) =~= p0
        + expression_json(cond2) + p1 + statement_json(*if2) + p2 + t2 + "}"@);
}

} // verus!
