use circom_algebra::ast::Statement;
use circom_algebra::ast::SignalType;
use circom_algebra::executed_template::{
    insert_symbols, SignalConfig, State,
    apply_pos_to_connexions, build_clusters, filter_used_components, instance_wires, mixed_components,
    templates_in_mixed_arrays, BusConnexion, BusInstance, ClusterType, ComponentData, Connexion, ExecutedTemplate,
    SubComponentData, TemplateInstance, Wire, WireData, POS,
};

fn connexion(name: &str, goes_to: usize, index: usize) -> Connexion {
    Connexion {
        full_name: format!("{}[{}]", name, index),
        inspect: SubComponentData { name: name.to_string(), goes_to, indexed_with: vec![index], is_parallel: false },
        dag_offset: 0,
        dag_component_offset: 0,
        dag_jump: 10 + goes_to,
        dag_component_jump: 20 + goes_to,
    }
}

fn component(name: &str, length: Vec<usize>) -> ComponentData {
    ComponentData { name: name.to_string(), length, is_anonymous: false }
}

fn template() -> ExecutedTemplate {
    let mut tmp = ExecutedTemplate::new(vec![], "T".to_string(), "T_0".to_string(), vec![], Statement::Block { stmts: vec![] }, false, false, false);
    tmp.components = vec![component("a", vec![2]), component("b", vec![3]), component("unused", vec![4, 5])];
    tmp.connexions =
        vec![connexion("a", 0, 0), connexion("a", 0, 1), connexion("b", 1, 0), connexion("b", 2, 1), connexion("b", 1, 2)];
    tmp
}

fn instance(name: &str, header: &str) -> TemplateInstance {
    TemplateInstance {
        template_name: name.to_string(),
        template_header: header.to_string(),
        is_parallel: false,
        is_parallel_component: false,
        is_not_parallel_component: false,
        number_of_inputs: 0,
        wires: vec![],
    }
}

fn state(name: &str) -> State {
    State { basic_name: name.to_string(), name: name.to_string(), dim: 0 }
}

#[test]
fn least_upper_bound_lattice() {
    assert_eq!(POS::least_upper_bound(POS::B, POS::K(3)), POS::K(3));
    assert_eq!(POS::least_upper_bound(POS::K(3), POS::K(3)), POS::K(3));
    assert_eq!(POS::least_upper_bound(POS::K(3), POS::K(4)), POS::T);
    assert_eq!(POS::least_upper_bound(POS::T, POS::B), POS::T);
    assert_eq!(POS::least_upper_bound(POS::B, POS::B), POS::B);
}

#[test]
fn mixed_arrays() {
    let tmp = template();
    assert_eq!(apply_pos_to_connexions(&tmp.connexions), vec![POS::K(0), POS::K(0), POS::T, POS::T, POS::T]);
    let mut only_used = template();
    only_used.components.pop();
    assert_eq!(mixed_components(&only_used), vec![false, true]);
    assert_eq!(templates_in_mixed_arrays(&tmp, 4), vec![false, true, true, false]);
}

#[test]
fn used_components_and_their_number() {
    let tmp = template();
    let (used, number) = filter_used_components(&tmp);
    assert_eq!(used.len(), 2);
    assert_eq!(used[0].name, "a");
    assert_eq!(used[1].name, "b");
    assert_eq!(used[1].length, vec![3]);
    assert_eq!(number, 5);
}

#[test]
fn clusters_of_component_arrays() {
    let mut tmp = template();
    tmp.components.pop();
    let instances = vec![
        instance("A", "A_0"),
        instance("B", "B_1"),
        instance("C", "C_2"),
    ];
    let clusters = build_clusters(&tmp, &instances);
    assert_eq!(clusters.len(), 2);
    assert_eq!(clusters[0].slice, 0..2);
    assert_eq!(clusters[0].length, 2);
    assert_eq!(clusters[0].defined_positions, vec![vec![0], vec![1]]);
    assert_eq!(clusters[0].cmp_name, "a");
    match &clusters[0].xtype {
        ClusterType::Uniform { offset_jump, component_offset_jump, instance_id, header } => {
            assert_eq!((*offset_jump, *component_offset_jump, *instance_id), (10, 20, 0));
            assert_eq!(header, "A_0");
        }
        ClusterType::Mixed { .. } => panic!("uniform array read as mixed"),
    }
    assert_eq!(clusters[1].slice, 2..5);
    match &clusters[1].xtype {
        ClusterType::Mixed { tmp_name } => assert_eq!(tmp_name, "B"),
        ClusterType::Uniform { .. } => panic!("mixed array read as uniform"),
    }
}

fn wire(name: &str, length: Vec<usize>, is_bus: bool) -> WireData {
    WireData { name: name.to_string(), length, is_bus }
}

#[test]
fn wires_of_an_instance() {
    let outputs = vec![wire("out", vec![2], false)];
    let inputs = vec![wire("priv", vec![], false), wire("pub", vec![3], false), wire("bus_in", vec![2], true)];
    let intermediates = vec![wire("tmp", vec![2, 2], false)];
    let public = vec!["pub".to_string()];
    let bus_connexions = vec![BusConnexion { name: "bus_in".to_string(), goes_to: 1 }];
    let buses = vec![BusInstance { size: 7 }, BusInstance { size: 5 }];
    let wires = instance_wires(&outputs, &inputs, &intermediates, &public, &bus_connexions, &buses);
    let summary: Vec<(String, usize, usize, usize, SignalType)> = wires
        .iter()
        .map(|w| match w {
            Wire::TSignal(s) => (s.name.clone(), s.local_id, s.dag_local_id, s.size, s.xtype),
            Wire::TBus(b) => (b.name.clone(), b.local_id, b.dag_local_id, b.size, b.xtype),
        })
        .collect();
    assert_eq!(
        summary,
        vec![
            ("out".to_string(), 0, 1, 2, SignalType::Output),
            ("pub".to_string(), 2, 3, 3, SignalType::Input),
            ("priv".to_string(), 5, 6, 1, SignalType::Input),
            ("bus_in".to_string(), 6, 7, 10, SignalType::Input),
            ("tmp".to_string(), 16, 17, 4, SignalType::Intermediate),
        ]
    );
    match &wires[3] {
        Wire::TBus(b) => assert_eq!(b.bus_id, 1),
        Wire::TSignal(_) => panic!("bus read as signal"),
    }
}

#[test]
fn report_names_of_signal_arrays() {
    let hints = vec!["out[1][0]".to_string()];
    let mut result = vec![("before".to_string(), 2u8)];
    let config = SignalConfig { is_public: false, signal_type: 5, dimensions: vec![2, 2] };
    insert_symbols(&mut result, &hints, state("out"), &config);
    assert_eq!(
        result,
        vec![
            ("before".to_string(), 2),
            ("out[0][0]".to_string(), 5),
            ("out[0][1]".to_string(), 5),
            ("out[1][0]".to_string(), 6),
            ("out[1][1]".to_string(), 5),
        ]
    );
    let mut scalar = vec![];
    let config = SignalConfig { is_public: true, signal_type: 1, dimensions: vec![] };
    insert_symbols(&mut scalar, &hints, state("in"), &config);
    assert_eq!(scalar, vec![("in".to_string(), 1)]);
    let mut empty = vec![];
    let config = SignalConfig { is_public: false, signal_type: 3, dimensions: vec![0, 5] };
    insert_symbols(&mut empty, &hints, state("x"), &config);
    assert!(empty.is_empty());
}
