use circom_algebra::ast::{
    Access, AssignOp, Expression, ExpressionInfixOpcode, ExpressionPrefixOpcode, LogArgument, SignalType,
    Statement, VariableType,
};
use circom_algebra::ast_export::{
    export_access, export_access_list, export_bus, export_expression, export_expression_list, export_function,
    export_statement, export_template, BusData, ExportConfig, FunctionData, TemplateData,
};
use circom_algebra::bigint::BigInt;

fn var(name: &str) -> Expression {
    Expression::Variable { name: name.to_string(), access: vec![] }
}

fn num(v: i64) -> Expression {
    Expression::Number(BigInt::from_i64(v))
}

fn expr_json(e: &Expression) -> String {
    let mut s = String::new();
    export_expression(&mut s, e);
    s
}

fn stmt_json(st: &Statement) -> String {
    let mut s = String::new();
    export_statement(&mut s, st);
    s
}

#[test]
fn export_simple_expressions() {
    assert_eq!(expr_json(&num(-7)), "{\"$\": \"Expr\", \"@\": \"Number\", \"value\": \"-7\"}");
    let sum = Expression::InfixOp { lhe: Box::new(var("a")), infix_op: ExpressionInfixOpcode::Add, rhe: Box::new(num(1)) };
    assert_eq!(
        expr_json(&sum),
        "{\"$\": \"Expr\", \"@\": \"InfixOp\", \"infix_op\": \"Add\", \"lhe\": {\"$\": \"Expr\", \"@\": \"Variable\", \"name\": \"a\", \"access\": []}, \"rhe\": {\"$\": \"Expr\", \"@\": \"Number\", \"value\": \"1\"}}"
    );
    let neg = Expression::PrefixOp { prefix_op: ExpressionPrefixOpcode::BoolNot, rhe: Box::new(var("b")) };
    assert_eq!(
        expr_json(&neg),
        "{\"$\": \"Expr\", \"@\": \"PrefixOp\", \"prefix_op\": \"BoolNot\", \"rhe\": {\"$\": \"Expr\", \"@\": \"Variable\", \"name\": \"b\", \"access\": []}}"
    );
    let call = Expression::Call { id: "f".to_string(), args: vec![num(1), num(2)] };
    assert_eq!(
        expr_json(&call),
        "{\"$\": \"Expr\", \"@\": \"Call\", \"id\": \"f\", \"args\": [{\"$\": \"Expr\", \"@\": \"Number\", \"value\": \"1\"}, {\"$\": \"Expr\", \"@\": \"Number\", \"value\": \"2\"}]}"
    );
    let uniform = Expression::UniformArray { value: Box::new(num(0)), dimension: Box::new(num(3)) };
    assert_eq!(
        expr_json(&uniform),
        "{\"$\": \"Expr\", \"@\": \"UniformArray\", \"value\": {\"$\": \"Expr\", \"@\": \"Number\", \"value\": \"0\"}, \"dimension\": {\"$\": \"Expr\", \"@\": \"Number\", \"value\": \"3\"}}"
    );
    let parallel = Expression::ParallelOp { rhe: Box::new(Expression::ArrayInLine { values: vec![] }) };
    assert_eq!(
        expr_json(&parallel),
        "{\"$\": \"Expr\", \"@\": \"ParallelOp\", \"rhe\": {\"$\": \"Expr\", \"@\": \"ArrayInLine\", \"values\": []}}"
    );
    let switch = Expression::InlineSwitchOp { cond: Box::new(var("c")), if_true: Box::new(num(1)), if_false: Box::new(num(0)) };
    assert!(expr_json(&switch).starts_with("{\"$\": \"Expr\", \"@\": \"InlineSwitchOp\", \"cond\": "));
    let bus = Expression::BusCall { id: "B".to_string(), args: vec![] };
    assert_eq!(expr_json(&bus), "{\"$\": \"Expr\", \"@\": \"BusCall\", \"id\": \"B\", \"args\": []}");
}

#[test]
fn export_accesses_and_lists() {
    let mut s = String::new();
    export_access(&mut s, &Access::ComponentAccess("out".to_string()));
    assert_eq!(s, "{\"$\": \"Access\", \"@\": \"ComponentAccess\", \"name\": \"out\"}");
    let mut s = String::new();
    export_access_list(&mut s, &vec![Access::ArrayAccess(num(1)), Access::ComponentAccess("x".to_string())]);
    assert_eq!(
        s,
        "[{\"$\": \"Access\", \"@\": \"ArrayAccess\", \"index\": {\"$\": \"Expr\", \"@\": \"Number\", \"value\": \"1\"}}, {\"$\": \"Access\", \"@\": \"ComponentAccess\", \"name\": \"x\"}]"
    );
    let mut s = String::from("prefix ");
    export_expression_list(&mut s, &vec![]);
    assert_eq!(s, "prefix []");
}

#[test]
fn export_statements() {
    let assign = Statement::Substitution {
        var: "x".to_string(),
        access: vec![],
        op: AssignOp::AssignConstraintSignal,
        rhe: num(3),
    };
    assert_eq!(
        stmt_json(&assign),
        "{\"$\": \"Stmt\", \"@\": \"Substitution\", \"var\": \"x\", \"access\": [], \"op\": \"AssignConstraintSignal\", \"rhe\": {\"$\": \"Expr\", \"@\": \"Number\", \"value\": \"3\"}}"
    );
    let if_stmt = Statement::IfThenElse {
        cond: num(1),
        if_case: Box::new(Statement::Return { value: num(2) }),
        else_case: None,
    };
    assert_eq!(
        stmt_json(&if_stmt),
        "{\"$\": \"Stmt\", \"@\": \"IfThenElse\", \"cond\": {\"$\": \"Expr\", \"@\": \"Number\", \"value\": \"1\"}, \"if_case\": {\"$\": \"Stmt\", \"@\": \"Return\", \"value\": {\"$\": \"Expr\", \"@\": \"Number\", \"value\": \"2\"}},\"else_case\": null}"
    );
    let block = Statement::Block {
        stmts: vec![
            Statement::Assert { arg: num(1) },
            Statement::LogCall { args: vec![LogArgument::LogStr("hi".to_string()), LogArgument::LogExp(num(4))] },
        ],
    };
    assert_eq!(
        stmt_json(&block),
        "{\"$\": \"Stmt\", \"@\": \"Block\", \"stmts\": [\n{\"$\": \"Stmt\", \"@\": \"Assert\", \"arg\": {\"$\": \"Expr\", \"@\": \"Number\", \"value\": \"1\"}},\n{\"$\": \"Stmt\", \"@\": \"LogCall\", \"args\": [{\"$\": \"LogArg\", \"@\": \"LogStr\", \"literal\": \"hi\"}, {\"$\": \"LogArg\", \"@\": \"LogExp\", \"value\": {\"$\": \"Expr\", \"@\": \"Number\", \"value\": \"4\"}}]}]}"
    );
    let decl = Statement::Declaration {
        xtype: VariableType::Signal(SignalType::Input, vec!["binary".to_string()]),
        name: "in".to_string(),
        dimensions: vec![num(2)],
        is_constant: true,
        is_anonymous: false,
    };
    assert_eq!(
        stmt_json(&decl),
        "{\"$\": \"Stmt\", \"@\": \"Declaration\", \"xtype\": {\"$\": \"VarType\",\"@\": \"Signal\",\"signal_type\": \"Input\", \"tag_list\": [\"binary\"]}, \"name\": \"in\", \"dimensions\": [{\"$\": \"Expr\", \"@\": \"Number\", \"value\": \"2\"}], \"is_constant\": true, \"is_anonymous\": false}"
    );
    let init = Statement::InitializationBlock {
        xtype: VariableType::Bus("B".to_string(), SignalType::Output, vec![]),
        initializations: vec![Statement::UnderscoreSubstitution { op: AssignOp::AssignVar, rhe: num(0) }],
    };
    assert_eq!(
        stmt_json(&init),
        "{\"$\": \"Stmt\",\"@\": \"InitializationBlock\", \"xtype\": {\"$\": \"VarType\",\"@\": \"Bus\",\"id\": \"B\",\"signal_type\": \"Output\", \"tag_list\": []}, \"initializations\": [\n{\"$\": \"Stmt\", \"@\": \"UnderscoreSubstitution\", \"op\": \"AssignVar\", \"rhe\": {\"$\": \"Expr\", \"@\": \"Number\", \"value\": \"0\"}}]}"
    );
    let equality = Statement::ConstraintEquality { lhe: num(1), rhe: num(1) };
    assert!(stmt_json(&equality).starts_with("{\"$\": \"Stmt\", \"@\": \"ConstraintEquality\", \"lhe\": "));
    let w = Statement::While { cond: num(0), stmt: Box::new(Statement::Block { stmts: vec![] }) };
    assert_eq!(
        stmt_json(&w),
        "{\"$\": \"Stmt\", \"@\": \"While\", \"cond\": {\"$\": \"Expr\", \"@\": \"Number\", \"value\": \"0\"}, \"stmt\": {\"$\": \"Stmt\", \"@\": \"Block\", \"stmts\": []}}"
    );
    let decl_var = Statement::Declaration {
        xtype: VariableType::Var,
        name: "i".to_string(),
        dimensions: vec![],
        is_constant: false,
        is_anonymous: false,
    };
    assert!(stmt_json(&decl_var).contains("\"xtype\": {\"$\": \"VarType\", \"@\": \"Var\"}"));
    let decl_component = Statement::Declaration {
        xtype: VariableType::AnonymousComponent,
        name: "c".to_string(),
        dimensions: vec![],
        is_constant: false,
        is_anonymous: true,
    };
    assert!(stmt_json(&decl_component).contains("{\"$\": \"VarType\", \"@\": \"AnonymousComponent\"}"));
}

#[test]
fn export_documents() {
    let template = TemplateData {
        file_id: 3,
        name: "Main".to_string(),
        num_of_params: 2,
        name_of_params: vec!["n".to_string(), "m".to_string()],
        is_parallel: false,
        is_custom_gate: true,
        is_extern_c: false,
        body: Statement::Block { stmts: vec![] },
    };
    let mut s = String::new();
    export_template(&mut s, &template);
    assert_eq!(
        s,
        "{\n\"$\": \"Ast\",\n\"@\": \"TemplateData\",\n\"file_id\": \"3\",\n\"name\": \"Main\",\n\"num_of_params\": 2,\n\"name_of_params\": [\"n\", \"m\"],\n\"is_parallel\": false,\n\"is_custom_gate\": true,\n\"is_extern_c\": false,\n\"body\": {\"$\": \"Stmt\", \"@\": \"Block\", \"stmts\": []}\n}\n"
    );
    let function = FunctionData {
        file_id: 0,
        name: "f".to_string(),
        num_of_params: 0,
        name_of_params: vec![],
        body: Statement::Return { value: num(1) },
    };
    let mut s = String::new();
    export_function(&mut s, &function);
    assert_eq!(
        s,
        "{\n\"$\": \"Ast\",\n\"@\": \"FunctionData\",\n\"name\": \"f\",\n\"file_id\": \"0\",\n\"num_of_params\": 0,\n\"name_of_params\": [],\n\"body\": {\"$\": \"Stmt\", \"@\": \"Return\", \"value\": {\"$\": \"Expr\", \"@\": \"Number\", \"value\": \"1\"}}\n}\n"
    );
    let bus = BusData { file_id: 12, name: "B".to_string(), num_of_params: 1, name_of_params: vec!["k".to_string()] };
    let mut s = String::new();
    export_bus(&mut s, &bus);
    assert_eq!(
        s,
        "{\n\"$\": \"Ast\",\n\"@\": \"BusData\",\n\"file_id\": \"12\",\n\"name\": \"B\",\n\"num_of_params\": 1,\n\"name_of_params\": [\"k\"]\n}\n"
    );
    let config = ExportConfig { flag_json_ast: true, json_ast_folder: "out".to_string() };
    assert!(config.flag_json_ast);
    assert_eq!(config.json_ast_folder, "out");
}
