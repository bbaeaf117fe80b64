use circom_algebra::algebra::{ArithmeticExpression, HintExpression};
use circom_algebra::ast::Statement;
use circom_algebra::bigint::BigInt;
use circom_algebra::ast::SignalType;
use circom_algebra::circuit_export::{build_components, build_triggers};
use circom_algebra::connexion_order::{indices_less_than, sort_connexions};
use circom_algebra::executed_template::{
    BusInstance, ClusterType, ComponentData, Connexion, ExecutedTemplate, ParameterValue, Signal, SubComponentData, TemplateInstance,
    Wire,
};

fn s(x: &str) -> String {
    x.to_string()
}

fn signal(name: &str, local_id: usize, xtype: SignalType) -> Wire {
    Wire::TSignal(Signal { name: s(name), lengths: vec![], local_id, dag_local_id: local_id + 1, xtype, size: 1 })
}

fn instance(name: &str, header: &str, is_parallel: bool, number_of_inputs: usize) -> TemplateInstance {
    TemplateInstance {
        template_name: s(name),
        template_header: s(header),
        is_parallel,
        is_parallel_component: false,
        is_not_parallel_component: false,
        number_of_inputs,
        wires: vec![
            signal("out", 0, SignalType::Output),
            signal("in", 1, SignalType::Input),
            signal("tmp", 2, SignalType::Intermediate),
        ],
    }
}

fn connexion(name: &str, goes_to: usize, index: usize, is_parallel: bool) -> Connexion {
    Connexion {
        full_name: format!("{}[{}]", name, index),
        inspect: SubComponentData { name: s(name), goes_to, indexed_with: vec![index], is_parallel },
        dag_offset: 100 + index,
        dag_component_offset: 200 + index,
        dag_jump: 3,
        dag_component_jump: 1,
    }
}

fn wire_names(ws: &Vec<Wire>) -> Vec<String> {
    ws.iter()
        .map(|w| match w {
            Wire::TSignal(x) => x.name.clone(),
            Wire::TBus(x) => x.name.clone(),
        })
        .collect()
}

#[test]
fn triggers_mark_the_instances_they_reach() {
    let mut instances = vec![instance("A", "A_0", false, 1), instance("B", "B_1", true, 0), instance("C", "C_2", false, 2)];
    let connexions = vec![connexion("a", 0, 0, true), connexion("a", 0, 1, false), connexion("b", 1, 0, false)];
    let triggers = build_triggers(&mut instances, connexions);
    assert_eq!((instances[0].is_parallel_component, instances[0].is_not_parallel_component), (true, true));
    assert_eq!((instances[1].is_parallel_component, instances[1].is_not_parallel_component), (false, true));
    assert_eq!((instances[2].is_parallel_component, instances[2].is_not_parallel_component), (false, false));
    assert_eq!(triggers.len(), 3);
    assert_eq!((triggers[0].offset, triggers[0].component_offset, triggers[0].template_id), (100, 200, 0));
    assert_eq!(triggers[0].component_name, "a");
    assert_eq!(triggers[1].indexed_with, vec![1]);
    assert_eq!(triggers[0].runs, "A_0");
    assert_eq!((triggers[0].is_parallel, triggers[1].is_parallel, triggers[2].is_parallel), (true, false, true));
    assert_eq!((triggers[0].has_inputs, triggers[2].has_inputs), (true, false));
    assert_eq!(wire_names(&triggers[2].external_wires), vec![s("out"), s("in")]);
}

#[test]
fn components_as_the_circuit_knows_them() {
    let components = build_components(vec![
        ComponentData { name: s("c"), length: vec![2, 3], is_anonymous: false },
        ComponentData { name: s("anon"), length: vec![], is_anonymous: true },
    ]);
    assert_eq!(components.len(), 2);
    assert_eq!((components[0].name.as_str(), components[0].lengths.clone(), components[0].is_anonymous), ("c", vec![2, 3], false));
    assert_eq!((components[1].name.as_str(), components[1].is_anonymous), ("anon", true));
}

#[test]
fn export_of_a_template_to_the_circuit() {
    let mut tmp = ExecutedTemplate::new(
        vec![s("p")],
        s("Mul"),
        s("Mul_3"),
        vec![(
            s("k"),
            ParameterValue {
                lengths: vec![2],
                values: vec![
                    ArithmeticExpression::Number { value: BigInt::from_i64(4), expr: HintExpression::Unknown },
                    ArithmeticExpression::Signal { symbol: 1, expr: HintExpression::Unknown },
                ],
                text: s("[4,x]"),
            },
        )], Statement::Block { stmts: vec![] }, true, false, false);
    tmp.add_output("c", &[], false);
    tmp.add_input("a", &[2], false);
    tmp.add_input("p", &[], false);
    tmp.add_intermediate("t", &[3], false);
    tmp.add_component("sub", &[2], false);
    tmp.add_arrow(s("sub[0]"), SubComponentData { name: s("sub"), goes_to: 1, indexed_with: vec![0], is_parallel: false });
    tmp.add_arrow(s("sub[1]"), SubComponentData { name: s("sub"), goes_to: 1, indexed_with: vec![1], is_parallel: true });
    let mut instances = vec![instance("A", "A_0", false, 1), instance("B", "B_1", false, 1)];
    let buses: Vec<BusInstance> = vec![];
    let exported = tmp.export_to_circuit(&mut instances, &buses);
    assert_eq!(exported.header, "Mul_2");
    assert_eq!(exported.arguments.len(), 1);
    assert_eq!(exported.arguments[0].name, "k");
    assert_eq!(exported.arguments[0].lengths, vec![2]);
    assert_eq!(exported.arguments[0].values.len(), 1);
    assert!(exported.arguments[0].values[0].equals(&BigInt::from_i64(4)));
    assert!(matches!(&exported.code, Statement::Block { stmts } if stmts.is_empty()));
    assert_eq!(exported.id, 2);
    assert_eq!(exported.name, "Mul");
    assert_eq!(exported.number_of_components, 2);
    assert!(exported.is_parallel);
    assert_eq!(exported.clusters.len(), 1);
    assert_eq!(exported.clusters[0].slice, 0..2);
    match &exported.clusters[0].xtype {
        ClusterType::Uniform { instance_id, header, .. } => {
            assert_eq!(*instance_id, 1);
            assert_eq!(header, "B_1");
        }
        ClusterType::Mixed { .. } => panic!("one template read as several"),
    }
    assert_eq!(exported.triggers.len(), 2);
    assert_eq!((instances[1].is_parallel_component, instances[1].is_not_parallel_component), (true, true));
    assert_eq!(exported.components.len(), 1);
    assert_eq!(wire_names(&exported.wires), vec![s("c"), s("p"), s("a"), s("t")]);
    let ids: Vec<(usize, usize)> = exported
        .wires
        .iter()
        .map(|w| match w {
            Wire::TSignal(x) => (x.local_id, x.size),
            Wire::TBus(x) => (x.local_id, x.size),
        })
        .collect();
    assert_eq!(ids, vec![(0, 1), (1, 1), (2, 2), (4, 3)]);
}

#[test]
fn connexions_in_their_order() {
    assert!(indices_less_than(&vec![1, 2], &vec![1, 3]));
    assert!(indices_less_than(&vec![1], &vec![1, 0]));
    assert!(!indices_less_than(&vec![2], &vec![1, 5]));
    assert!(!indices_less_than(&vec![], &vec![]));
    let sorted = sort_connexions(vec![
        connexion("b", 0, 1, false),
        connexion("a", 1, 2, false),
        connexion("b", 2, 0, false),
        connexion("a", 3, 2, true),
        connexion("a", 4, 0, false),
    ]);
    let order: Vec<(String, Vec<usize>, usize)> =
        sorted.iter().map(|c| (c.inspect.name.clone(), c.inspect.indexed_with.clone(), c.inspect.goes_to)).collect();
    assert_eq!(
        order,
        vec![
            (s("a"), vec![0], 4),
            (s("a"), vec![2], 1),
            (s("a"), vec![2], 3),
            (s("b"), vec![0], 2),
            (s("b"), vec![1], 0),
        ]
    );
}

#[test]
fn connexions_built_keep_the_used_arrays() {
    let mut tmp = ExecutedTemplate::new(vec![], s("T"), s("T_0"), vec![], Statement::Block { stmts: vec![] }, false, false, false);
    tmp.add_component("z", &[2], false);
    tmp.add_component("unused", &[4], false);
    tmp.add_component("y", &[3, 2], false);
    tmp.add_arrow(s("z[1]"), SubComponentData { name: s("z"), goes_to: 0, indexed_with: vec![1], is_parallel: false });
    tmp.add_arrow(s("y[0][0]"), SubComponentData { name: s("y"), goes_to: 0, indexed_with: vec![0, 0], is_parallel: false });
    tmp.add_arrow(s("z[0]"), SubComponentData { name: s("z"), goes_to: 0, indexed_with: vec![0], is_parallel: false });
    tmp.build_connexions();
    let names: Vec<&str> = tmp.connexions.iter().map(|c| c.full_name.as_str()).collect();
    assert_eq!(names, vec!["y[0][0]", "z[0]", "z[1]"]);
    let kept: Vec<&str> = tmp.components.iter().map(|c| c.name.as_str()).collect();
    assert_eq!(kept, vec!["z", "y"]);
    assert_eq!(tmp.number_of_components, 8);
}
