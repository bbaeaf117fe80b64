use circom_algebra::ast::Statement;
use circom_algebra::algebra::{ArithmeticExpression, HintExpression};
use circom_algebra::ast::SignalType;
use circom_algebra::bigint::BigInt;
use circom_algebra::executed_template::{
    as_big_int, BusConnexion, ExecutedTemplate, ParameterValue, SignalConfig, State, SubComponentData, WireData,
};
use circom_algebra::name_map::{insert_entry, keys_in_order, name_less_than};
use circom_algebra::signal_names::{generate_ordered_symbols, insert_bus_symbols, ExecutedBus};

fn s(x: &str) -> String {
    x.to_string()
}

fn wire(name: &str, length: Vec<usize>, is_bus: bool) -> WireData {
    WireData { name: s(name), length, is_bus }
}

fn parameter(lengths: Vec<usize>, values: Vec<i64>, text: &str) -> ParameterValue {
    ParameterValue {
        lengths,
        values: values
            .into_iter()
            .map(|v| ArithmeticExpression::Number { value: BigInt::from_i64(v), expr: HintExpression::Unknown })
            .collect(),
        text: s(text),
    }
}

fn state(name: &str) -> State {
    State { basic_name: s(name), name: s(name), dim: 0 }
}

/// Bus 0 has a signal `x` and a field `p` of bus 1; bus 1 has signals `a[2]`
/// and `b`.
fn buses() -> Vec<ExecutedBus> {
    vec![
        ExecutedBus {
            fields: vec![wire("x", vec![], false), wire("p", vec![], true)],
            bus_connexions: vec![BusConnexion { name: s("p"), goes_to: 1 }],
        },
        ExecutedBus { fields: vec![wire("a", vec![2], false), wire("b", vec![], false)], bus_connexions: vec![] },
    ]
}

#[test]
fn names_are_ordered_as_strings() {
    assert!(name_less_than(&s("a"), &s("b")));
    assert!(!name_less_than(&s("b"), &s("a")));
    assert!(name_less_than(&s("a"), &s("ab")));
    assert!(!name_less_than(&s("ab"), &s("a")));
    assert!(!name_less_than(&s("abc"), &s("abc")));
    assert!(name_less_than(&s("out.x"), &s("out[1]")));
    assert!(name_less_than(&s("Z"), &s("a")));
    assert!(name_less_than(&s(""), &s("a")));
    for (a, b) in [("x[10]", "x[2]"), ("é", "z"), ("in", "in.a"), ("main.c", "main.b")] {
        assert_eq!(name_less_than(&s(a), &s(b)), s(a) < s(b));
        assert_eq!(name_less_than(&s(b), &s(a)), s(b) < s(a));
    }
}

#[test]
fn entries_stay_in_order_and_are_replaced() {
    let mut entries: Vec<(String, u8)> = vec![];
    insert_entry(&mut entries, s("m"), 1);
    insert_entry(&mut entries, s("b"), 2);
    insert_entry(&mut entries, s("z"), 3);
    insert_entry(&mut entries, s("m"), 4);
    insert_entry(&mut entries, s("c"), 5);
    assert_eq!(entries, vec![(s("b"), 2), (s("c"), 5), (s("m"), 4), (s("z"), 3)]);
}

#[test]
fn names_of_array_elements() {
    let mut names = vec![s("first")];
    generate_ordered_symbols(&mut names, state("v"), &vec![2, 3]);
    assert_eq!(names, vec![s("first"), s("v[0][0]"), s("v[0][1]"), s("v[0][2]"), s("v[1][0]"), s("v[1][1]"), s("v[1][2]")]);
    let mut none = vec![];
    generate_ordered_symbols(&mut none, state("w"), &vec![3, 0]);
    assert!(none.is_empty());
}

#[test]
fn names_of_nested_bus_signals() {
    let bus_connexions = vec![BusConnexion { name: s("io"), goes_to: 0 }];
    let hints = vec![s("io[1].p.b")];
    let mut result = vec![];
    let config = SignalConfig { is_public: false, signal_type: 3, dimensions: vec![2] };
    insert_bus_symbols(&mut result, &hints, state("io"), &config, &bus_connexions, &buses());
    assert_eq!(
        result,
        vec![
            (s("io[0].x"), 3),
            (s("io[0].p.a[0]"), 3),
            (s("io[0].p.a[1]"), 3),
            (s("io[0].p.b"), 3),
            (s("io[1].x"), 3),
            (s("io[1].p.a[0]"), 3),
            (s("io[1].p.a[1]"), 3),
            (s("io[1].p.b"), 4),
        ]
    );
}

fn example() -> ExecutedTemplate {
    let mut tmp = ExecutedTemplate::new(vec![s("b")], s("Main"), s("Main_7"), vec![(s("n"), parameter(vec![], vec![3], "3")), (s("w"), parameter(vec![2], vec![1, 2], "[1,2]"))], Statement::Block { stmts: vec![] }, true, false, false);
    tmp.add_output("out", &[2], false);
    tmp.add_input("a", &[], false);
    tmp.add_intermediate("t", &[], false);
    tmp.add_input("b", &[], false);
    tmp.add_input("bus", &[], true);
    tmp.add_bus_arrow(s("bus"), 1);
    tmp
}

#[test]
fn building_a_template() {
    let mut tmp = example();
    assert_eq!(tmp.template_name(), "Main");
    let names: Vec<&str> = tmp.inputs().iter().map(|w| w.name.as_str()).collect();
    assert_eq!(names, vec!["a", "b", "bus"]);
    assert_eq!(tmp.outputs().len(), 1);
    assert_eq!(tmp.outputs()[0].length, vec![2]);
    assert_eq!(tmp.intermediates().len(), 1);
    let ordered: Vec<&str> = tmp.ordered_signals.iter().map(|w| w.name.as_str()).collect();
    assert_eq!(ordered, vec!["out", "a", "t", "b", "bus"]);
    tmp.add_bus_arrow(s("bus"), 0);
    tmp.add_bus_arrow(s("other"), 1);
    assert_eq!(tmp.bus_connexions.len(), 2);
    assert_eq!((tmp.bus_connexions[0].name.as_str(), tmp.bus_connexions[0].goes_to), ("bus", 0));
    tmp.add_component("c", &[2, 3], false);
    tmp.add_component("d", &[], true);
    assert_eq!(tmp.number_of_components, 7);
    assert_eq!(tmp.components[1].is_anonymous, true);
    tmp.add_arrow(s("c[0][1]"), SubComponentData { name: s("c"), goes_to: 3, indexed_with: vec![0, 1], is_parallel: false });
    assert_eq!(tmp.connexions.len(), 1);
    assert_eq!((tmp.connexions[0].dag_offset, tmp.connexions[0].dag_jump), (0, 0));
    tmp.add_underscored_signal("_x");
    assert_eq!(tmp.underscored_signals, vec![s("_x")]);
    tmp.add_instr_component(&s("sub2"), 1);
    tmp.add_instr_component(&s("sub1"), 0);
    tmp.add_instr_component(&s("sub2"), 2);
    assert_eq!(tmp.subcomponent_declarations, vec![(s("sub1"), 0), (s("sub2"), 2)]);
}

#[test]
fn report_of_signals_and_subcomponents() {
    let mut tmp = example();
    tmp.hints = vec![s("t"), s("out[1]")];
    tmp.add_instr_component(&s("sub"), 0);
    tmp.add_instr_component(&s("aux"), 1);
    let others = vec![
        ExecutedTemplate::new(vec![], s("A"), s("A_1"), vec![], Statement::Block { stmts: vec![] }, false, false, false),
        ExecutedTemplate::new(vec![], s("B"), s("B_2"), vec![], Statement::Block { stmts: vec![] }, false, false, false),
    ];
    let mut signals = vec![];
    tmp.insert_wires(&mut signals, &tmp.hints.clone(), &buses());
    assert_eq!(
        signals,
        vec![
            (s("a"), 2),
            (s("b"), 1),
            (s("bus.a[0]"), 2),
            (s("bus.a[1]"), 2),
            (s("bus.b"), 2),
            (s("out[0]"), 5),
            (s("out[1]"), 6),
            (s("t"), 4),
        ]
    );
    let text = tmp.export_json_after(&others, &buses());
    assert_eq!(
        text,
        "\n],\n\"signals\": {\n\"a\": \"input\",\n\"b\": \"input_public\",\n\"bus.a[0]\": \"input\",\n\"bus.a[1]\": \"input\",\n\"bus.b\": \"input\",\n\"out[0]\": \"output\",\n\"out[1]\": \"output_hint\",\n\"t\": \"hint\"\n},\n\"subcomponents\": {\n\"aux\": \"B_2\", \n\"sub\": \"A_1\"\n}\n}\n"
    );
    assert!(tmp.hints.is_empty());
    assert!(tmp.subcomponent_declarations.is_empty());
    assert_eq!(tmp.outputs.len(), 1);
}

#[test]
fn report_of_an_empty_template() {
    let mut tmp = ExecutedTemplate::new(vec![], s("E"), s("E_0"), vec![], Statement::Block { stmts: vec![] }, false, false, false);
    let text = tmp.export_json_after(&vec![], &vec![]);
    assert_eq!(text, "\n],\n\"signals\": {\n\n},\n\"subcomponents\": {}\n}\n");
}

#[test]
fn a_later_entry_replaces_an_earlier_one() {
    let mut tmp = ExecutedTemplate::new(vec![], s("R"), s("R_0"), vec![], Statement::Block { stmts: vec![] }, false, false, false);
    tmp.add_output("x", &[], false);
    tmp.add_intermediate("x", &[], false);
    let mut signals = vec![];
    tmp.insert_wires(&mut signals, &vec![], &vec![]);
    assert_eq!(signals, vec![(s("x"), 3)]);
}

#[test]
fn signals_for_the_graph() {
    let tmp = example();
    let mut ordered = vec![];
    tmp.build_ordered_signals(&mut ordered, &buses());
    assert_eq!(ordered, vec![s("out[0]"), s("out[1]"), s("a"), s("t"), s("b"), s("bus.a[0]"), s("bus.a[1]"), s("bus.b")]);
    let wires = tmp.build_wires(&buses());
    assert_eq!(
        wires,
        vec![
            (s("out[0]"), SignalType::Output, false),
            (s("out[1]"), SignalType::Output, false),
            (s("b"), SignalType::Input, true),
            (s("a"), SignalType::Input, false),
            (s("bus.a[0]"), SignalType::Input, false),
            (s("bus.a[1]"), SignalType::Input, false),
            (s("bus.b"), SignalType::Input, false),
            (s("t"), SignalType::Intermediate, false),
        ]
    );
}

#[test]
fn opening_of_the_report_entry() {
    let tmp = example();
    assert_eq!(
        tmp.export_json_before(),
        "{\n\"id\": \"Main\",\n\"parameters\": {\n\"n\": 3,\n\"w\": [1,2]\n},\n\"is_parallel\" : true,\n\"instructions\": [\n"
    );
    let plain = ExecutedTemplate::new(vec![], s("P"), s("P_0"), vec![], Statement::Block { stmts: vec![] }, false, false, false);
    assert_eq!(plain.export_json_before(), "{\n\"id\": \"P\",\n\"parameters\": {},\n\"is_parallel\" : false,\n\"instructions\": [\n");
}

#[test]
fn statements_of_the_report() {
    let mut tmp = example();
    assert_eq!(tmp.instr_block(true), "{\"$\": \"Stmt\", \"@\": \"Block\", \"enter\": true}");
    assert_eq!(
        tmp.instr_var_declaration(&s("v"), &[2, 10]),
        ",\n{\"$\": \"Stmt\", \"@\": \"VarDeclaration\", \"symbol\": \"v\", \"dimensions\": [2, 10]}"
    );
    assert_eq!(
        tmp.instr_var_declaration(&s("x"), &[]),
        ",\n{\"$\": \"Stmt\", \"@\": \"VarDeclaration\", \"symbol\": \"x\", \"dimensions\": []}"
    );
    assert_eq!(
        tmp.instr_intermediate(&s("i0"), &HintExpression::Number { value: BigInt::from_i64(5) }),
        ",\n{\"$\": \"Stmt\", \"@\": \"AssignIntermediate\", \"intermediate\": \"i0\", \"expr\": {\"$\": \"Expr\", \"@\": \"Number\", \"value\": \"5\"}}"
    );
    assert_eq!(tmp.instr_block(false), ",\n{\"$\": \"Stmt\", \"@\": \"Block\", \"enter\": false}");
    assert_eq!(tmp.json_first_statement, vec![false]);
}

#[test]
fn numbers_among_parameter_values() {
    let exprs = vec![
        ArithmeticExpression::Number { value: BigInt::from_i64(7), expr: HintExpression::Unknown },
        ArithmeticExpression::Signal { symbol: 1, expr: HintExpression::Unknown },
        ArithmeticExpression::Number { value: BigInt::from_i64(-2), expr: HintExpression::Unknown },
    ];
    let numbers = as_big_int(exprs);
    assert_eq!(numbers.len(), 2);
    assert!(numbers[0].equals(&BigInt::from_i64(7)));
    assert!(numbers[1].equals(&BigInt::from_i64(-2)));
}

#[test]
fn tags_of_signals_are_recorded_once() {
    let mut tmp = ExecutedTemplate::new(vec![], s("G"), s("G_0"), vec![], Statement::Block { stmts: vec![] }, false, false, false);
    tmp.add_tag_signal(vec![s("in"), s("maxbit")], BigInt::from_i64(8));
    tmp.add_tag_signal(vec![s("out"), s("maxbit")], BigInt::from_i64(9));
    tmp.add_tag_signal(vec![s("in"), s("maxbit")], BigInt::from_i64(16));
    assert_eq!(tmp.signal_to_tags.len(), 2);
    assert_eq!(tmp.signal_to_tags[0].0, vec![s("in"), s("maxbit")]);
    assert!(tmp.signal_to_tags[0].1.equals(&BigInt::from_i64(16)));
    assert!(tmp.signal_to_tags[1].1.equals(&BigInt::from_i64(9)));
}

#[test]
fn statements_with_expressions() {
    let mut tmp = example();
    let symbol = ArithmeticExpression::Signal { symbol: 4, expr: HintExpression::Variable { symbol: s("x") } };
    let value = ArithmeticExpression::Number { value: BigInt::from_i64(3), expr: HintExpression::Number { value: BigInt::from_i64(3) } };
    assert_eq!(
        tmp.instr_assign_signal(&symbol, &value),
        "{\"$\": \"Stmt\", \"@\": \"AssignSignal\", \"symbol\": \"4\", \"sym_expr\": {\"$\": \"Expr\", \"@\": \"Variable\", \"symbol\": \"x\"}, \"value\": {\"$\": \"QuadExpr\", \"@\": \"Number\", \"value\": \"3\"}, \"expr\": {\"$\": \"Expr\", \"@\": \"Number\", \"value\": \"3\"}}"
    );
    assert_eq!(
        tmp.instr_hint_signal(&symbol, &s("t"), &value),
        ",\n{\"$\": \"Stmt\", \"@\": \"HintSignal\", \"symbol\": \"t\", \"sym_expr\": {\"$\": \"Expr\", \"@\": \"Variable\", \"symbol\": \"x\"}, \"expr\": {\"$\": \"Expr\", \"@\": \"Number\", \"value\": \"3\"}}"
    );
    assert_eq!(tmp.hints, vec![s("t")]);
    assert_eq!(
        tmp.instr_constrain_equal(&symbol, &value),
        ",\n{\"$\": \"Stmt\", \"@\": \"ConstrainEqual\", \"left_value\": {\"$\": \"QuadExpr\", \"@\": \"Signal\", \"symbol\": \"4\"}, \"right_value\": {\"$\": \"QuadExpr\", \"@\": \"Number\", \"value\": \"3\"}, \"left_expr\": {\"$\": \"Expr\", \"@\": \"Variable\", \"symbol\": \"x\"}, \"right_expr\": {\"$\": \"Expr\", \"@\": \"Number\", \"value\": \"3\"}}"
    );
    assert_eq!(
        tmp.instr_assign_var(&symbol, &value),
        ",\n{\"$\": \"Stmt\", \"@\": \"AssignVar\", \"symbol\": \"4\", \"sym_expr\": {\"$\": \"Expr\", \"@\": \"Variable\", \"symbol\": \"x\"}, \"expr\": {\"$\": \"Expr\", \"@\": \"Number\", \"value\": \"3\"}}"
    );
}

#[test]
fn a_hinted_signal_is_reported_as_a_hint() {
    let mut tmp = example();
    let symbol = ArithmeticExpression::Signal { symbol: 9, expr: HintExpression::Unknown };
    let value = ArithmeticExpression::Number { value: BigInt::from_i64(1), expr: HintExpression::Unknown };
    tmp.instr_hint_signal(&symbol, &s("out[0]"), &value);
    let mut signals = vec![];
    tmp.insert_wires(&mut signals, &tmp.hints.clone(), &buses());
    assert!(signals.contains(&(s("out[0]"), 6)));
    assert!(signals.contains(&(s("out[1]"), 5)));
}

#[test]
fn statements_after_the_first_are_separated() {
    let mut tmp = ExecutedTemplate::new(vec![], s("S"), s("S_0"), vec![], Statement::Block { stmts: vec![] }, false, false, false);
    let texts = vec![tmp.instr_block(true), tmp.instr_var_declaration(&s("i"), &[]), tmp.instr_block(false)];
    assert!(!texts[0].starts_with(","));
    assert!(texts[1].starts_with(",\n"));
    assert!(texts[2].starts_with(",\n"));
}

#[test]
fn templates_ready_for_their_report() {
    let mut tmp = example();
    assert!(tmp.report_ready(&vec![s("t")], &buses()));
    assert!(!tmp.report_ready(&vec![s("a")], &buses()));
    assert!(!tmp.report_ready(&vec![], &vec![]));
    tmp.add_bus_arrow(s("bus"), 7);
    assert!(!tmp.report_ready(&vec![], &buses()));
    let looping = vec![ExecutedBus {
        fields: vec![wire("self", vec![], true)],
        bus_connexions: vec![BusConnexion { name: s("self"), goes_to: 0 }],
    }];
    let mut cyclic = ExecutedTemplate::new(vec![], s("C"), s("C_0"), vec![], Statement::Block { stmts: vec![] }, false, false, false);
    cyclic.add_output("o", &[], true);
    cyclic.add_bus_arrow(s("o"), 0);
    assert!(!cyclic.report_ready(&vec![], &looping));
}

#[test]
fn entries_in_order_are_recognised() {
    assert!(keys_in_order(&vec![(s("a"), 1u8), (s("b"), 2u8), (s("c"), 0u8)]));
    assert!(!keys_in_order(&vec![(s("a"), 1u8), (s("a"), 2u8)]));
    assert!(!keys_in_order(&vec![(s("b"), 1u8), (s("a"), 2u8)]));
    assert!(keys_in_order::<u8>(&vec![]));
}
