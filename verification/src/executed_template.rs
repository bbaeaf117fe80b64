//! An executed template, built declaration by declaration, and the
//! analysis of its subcomponents: which component arrays are used, which
//! mix instances of different templates, how their connexions cluster, and
//! how its wires are numbered in its instance.
use crate::ast::{SignalType, Statement};
use crate::bigint::decimal_digits;
use crate::constraint::Constraint;
use crate::algebra::ArithmeticExpression;
use crate::bigint::BigInt;
use crate::name_map::{entries_map, insert_entry, keys_increasing};
use crate::text::usize_decimal;
use vstd::prelude::*;

verus! {

/// A subcomponent that a connexion reaches: its name, the template
/// instance that it runs, the indices it is accessed with, and whether it
/// runs in parallel.
pub struct SubComponentData {
    pub name: String,
    pub goes_to: usize,
    pub indexed_with: Vec<usize>,
    pub is_parallel: bool,
}

/// A connexion of the template to one of its subcomponents, with its place
/// in the graph of the circuit.
pub struct Connexion {
    pub full_name: String,
    pub inspect: SubComponentData,
    pub dag_offset: usize,
    pub dag_component_offset: usize,
    pub dag_jump: usize,
    pub dag_component_jump: usize,
}

/// A declared component (array): its name, its dimensions and whether it
/// is anonymous.
pub struct ComponentData {
    pub name: String,
    pub length: Vec<usize>,
    pub is_anonymous: bool,
}

/// A template as its execution left it: its code, wires, constraints,
/// subcomponents and connexions, and what its report needs.
///
/// `parameter_instances` maps the name of each parameter to its value, and `subcomponent_declarations` the name of a
/// subcomponent to the template that it runs; both are kept as entries in
/// increasing order of names (see `name_map`). `public_inputs` and `hints`
/// are sets of names. `signal_to_tags` maps a tag of a signal, given by the
/// names that lead to it, to the value it was given, each name list once
/// (see `tag_keys_distinct`). `json_first_statement` tells, for the innermost
/// block of the report being written, whether no statement is in it yet.
pub struct ExecutedTemplate {
    pub code: Statement,
    pub template_name: String,
    pub report_name: String,
    pub parameter_instances: Vec<(String, ParameterValue)>,
    pub inputs: Vec<WireData>,
    pub outputs: Vec<WireData>,
    pub intermediates: Vec<WireData>,
    pub ordered_signals: Vec<WireData>,
    pub constraints: Vec<Constraint>,
    pub subcomponent_declarations: Vec<(String, usize)>,
    pub components: Vec<ComponentData>,
    pub number_of_components: usize,
    pub public_inputs: Vec<String>,
    pub is_parallel: bool,
    pub has_parallel_sub_cmp: bool,
    pub is_custom_gate: bool,
    pub underscored_signals: Vec<String>,
    pub connexions: Vec<Connexion>,
    pub bus_connexions: Vec<BusConnexion>,
    pub is_extern_c: bool,
    pub signal_to_tags: Vec<(Vec<String>, BigInt)>,
    pub json_first_statement: Vec<bool>,
    pub hints: Vec<String>,
}

/// The value of a parameter of a template instance: an array of the given
/// dimensions whose elements (in row-major order) are expressions, and the
/// text the report writes for it (the value's display, made where the
/// value is kept).
pub struct ParameterValue {
    pub lengths: Vec<usize>,
    pub values: Vec<ArithmeticExpression>,
    pub text: String,
}

/// A wire of the given name and dimensions.
fn wire_data(name: &str, dimensions: &[usize], is_bus: bool) -> (r: WireData)
    ensures
        r.name@ == name@,
        r.length@ == dimensions@,
        r.is_bus == is_bus,
{
    WireData { name: name.to_string(), length: vstd::slice::slice_to_vec(dimensions), is_bus }
}

impl ExecutedTemplate {
    /// A template that has not run yet: nothing declared, no constraint,
    /// no connexion.
    pub fn new(
        public: Vec<String>,
        name: String,
        report_name: String,
        instance: Vec<(String, ParameterValue)>,
        code: Statement,
        is_parallel: bool,
        is_custom_gate: bool,
        is_extern_c: bool,
    ) -> (r: ExecutedTemplate)
        ensures
            r.public_inputs@ == public@,
            r.template_name == name,
            r.report_name == report_name,
            r.parameter_instances == instance,
            r.code == code,
            r.is_parallel == is_parallel,
            !r.has_parallel_sub_cmp,
            r.is_custom_gate == is_custom_gate,
            r.is_extern_c == is_extern_c,
            r.inputs@.len() == 0,
            r.outputs@.len() == 0,
            r.intermediates@.len() == 0,
            r.ordered_signals@.len() == 0,
            r.constraints@.len() == 0,
            r.subcomponent_declarations@.len() == 0,
            r.components@.len() == 0,
            r.number_of_components == 0,
            r.underscored_signals@.len() == 0,
            r.connexions@.len() == 0,
            r.bus_connexions@.len() == 0,
            r.signal_to_tags@.len() == 0,
            r.json_first_statement@ == seq![true],
            r.hints@.len() == 0,
    {
        ExecutedTemplate {
            code,
            template_name: name,
            report_name,
            parameter_instances: instance,
            inputs: Vec::new(),
            outputs: Vec::new(),
            intermediates: Vec::new(),
            ordered_signals: Vec::new(),
            constraints: Vec::new(),
            subcomponent_declarations: Vec::new(),
            components: Vec::new(),
            number_of_components: 0,
            public_inputs: public,
            is_parallel,
            has_parallel_sub_cmp: false,
            is_custom_gate,
            underscored_signals: Vec::new(),
            connexions: Vec::new(),
            bus_connexions: Vec::new(),
            is_extern_c,
            signal_to_tags: Vec::new(),
            json_first_statement: vec![true],
            hints: Vec::new(),
        }
    }

    /// Records a connexion to a subcomponent, not yet placed in the graph
    /// of the circuit.
    pub fn add_arrow(&mut self, component_name: String, data: SubComponentData)
        ensures
            final(self).connexions@ == old(self).connexions@.push(
                Connexion {
                    full_name: component_name,
                    inspect: data,
                    dag_offset: 0,
                    dag_component_offset: 0,
                    dag_jump: 0,
                    dag_component_jump: 0,
                },
            ),
            *final(self) == (ExecutedTemplate { connexions: final(self).connexions, ..*old(self) }),
    {
        let cnn = Connexion {
            full_name: component_name,
            inspect: data,
            dag_offset: 0,
            dag_component_offset: 0,
            dag_jump: 0,
            dag_component_jump: 0,
        };
        self.connexions.push(cnn);
    }

    /// Connects the bus wire `bus_name` to the bus `goes_to`, in place of
    /// any bus it was connected to.
    pub fn add_bus_arrow(&mut self, bus_name: String, goes_to: usize)
        ensures
            ({
                let i = bus_index(old(self).bus_connexions@, bus_name@);
                let cnn = BusConnexion { name: bus_name, goes_to };
                if i >= 0 {
                    final(self).bus_connexions@ == old(self).bus_connexions@.update(i, cnn)
                } else {
                    final(self).bus_connexions@ == old(self).bus_connexions@.push(cnn)
                }
            }),
            *final(self) == (ExecutedTemplate { bus_connexions: final(self).bus_connexions, ..*old(self) }),
    {
        match find_bus(&self.bus_connexions, &bus_name) {
            Some(i) => {
                self.bus_connexions[i] = BusConnexion { name: bus_name, goes_to };
            },
            None => {
                self.bus_connexions.push(BusConnexion { name: bus_name, goes_to });
            },
        }
    }

    /// Declares an input signal or bus: it joins the inputs and the
    /// signals in declaration order.
    pub fn add_input(&mut self, input_name: &str, dimensions: &[usize], is_bus: bool)
        ensures
            final(self).inputs@.len() == old(self).inputs@.len() + 1,
            final(self).inputs@.drop_last() == old(self).inputs@,
            final(self).ordered_signals@.len() == old(self).ordered_signals@.len() + 1,
            final(self).ordered_signals@.drop_last() == old(self).ordered_signals@,
            final(self).inputs@.last().name@ == input_name@,
            final(self).inputs@.last().length@ == dimensions@,
            final(self).inputs@.last().is_bus == is_bus,
            final(self).ordered_signals@.last().name@ == input_name@,
            final(self).ordered_signals@.last().length@ == dimensions@,
            final(self).ordered_signals@.last().is_bus == is_bus,
            *final(self) == (ExecutedTemplate { inputs: final(self).inputs, ordered_signals: final(self).ordered_signals, ..*old(self) }),
    {
        self.inputs.push(wire_data(input_name, dimensions, is_bus));
        self.ordered_signals.push(wire_data(input_name, dimensions, is_bus));
        proof {
            assert(self.inputs@.drop_last() =~= old(self).inputs@);
            assert(self.ordered_signals@.drop_last() =~= old(self).ordered_signals@);
        }
    }

    /// Declares an output signal or bus: it joins the outputs and the
    /// signals in declaration order.
    pub fn add_output(&mut self, output_name: &str, dimensions: &[usize], is_bus: bool)
        ensures
            final(self).outputs@.len() == old(self).outputs@.len() + 1,
            final(self).outputs@.drop_last() == old(self).outputs@,
            final(self).ordered_signals@.len() == old(self).ordered_signals@.len() + 1,
            final(self).ordered_signals@.drop_last() == old(self).ordered_signals@,
            final(self).outputs@.last().name@ == output_name@,
            final(self).outputs@.last().length@ == dimensions@,
            final(self).outputs@.last().is_bus == is_bus,
            final(self).ordered_signals@.last().name@ == output_name@,
            final(self).ordered_signals@.last().length@ == dimensions@,
            final(self).ordered_signals@.last().is_bus == is_bus,
            *final(self) == (ExecutedTemplate { outputs: final(self).outputs, ordered_signals: final(self).ordered_signals, ..*old(self) }),
    {
        self.outputs.push(wire_data(output_name, dimensions, is_bus));
        self.ordered_signals.push(wire_data(output_name, dimensions, is_bus));
        proof {
            assert(self.outputs@.drop_last() =~= old(self).outputs@);
            assert(self.ordered_signals@.drop_last() =~= old(self).ordered_signals@);
        }
    }

    /// Declares an intermediate signal or bus: it joins the intermediates
    /// and the signals in declaration order.
    pub fn add_intermediate(&mut self, intermediate_name: &str, dimensions: &[usize], is_bus: bool)
        ensures
            final(self).intermediates@.len() == old(self).intermediates@.len() + 1,
            final(self).intermediates@.drop_last() == old(self).intermediates@,
            final(self).ordered_signals@.len() == old(self).ordered_signals@.len() + 1,
            final(self).ordered_signals@.drop_last() == old(self).ordered_signals@,
            final(self).intermediates@.last().name@ == intermediate_name@,
            final(self).intermediates@.last().length@ == dimensions@,
            final(self).intermediates@.last().is_bus == is_bus,
            final(self).ordered_signals@.last().name@ == intermediate_name@,
            final(self).ordered_signals@.last().length@ == dimensions@,
            final(self).ordered_signals@.last().is_bus == is_bus,
            *final(self) == (ExecutedTemplate {
                intermediates: final(self).intermediates,
                ordered_signals: final(self).ordered_signals,
                ..*old(self)
            }),
    {
        self.intermediates.push(wire_data(intermediate_name, dimensions, is_bus));
        self.ordered_signals.push(wire_data(intermediate_name, dimensions, is_bus));
        proof {
            assert(self.intermediates@.drop_last() =~= old(self).intermediates@);
            assert(self.ordered_signals@.drop_last() =~= old(self).ordered_signals@);
        }
    }

    /// Declares a component array; the number of components grows by the
    /// number of its elements.
    pub fn add_component(&mut self, component_name: &str, dimensions: &[usize], is_anonymous: bool)
        requires
            products_fit(dimensions@),
            old(self).number_of_components + product(dimensions@) <= usize::MAX,
        ensures
            final(self).components@.len() == old(self).components@.len() + 1,
            final(self).components@.drop_last() == old(self).components@,
            final(self).components@.last().name@ == component_name@,
            final(self).components@.last().length@ == dimensions@,
            final(self).components@.last().is_anonymous == is_anonymous,
            final(self).number_of_components == old(self).number_of_components + product(dimensions@),
            *final(self) == (ExecutedTemplate {
                components: final(self).components,
                number_of_components: final(self).number_of_components,
                ..*old(self)
            }),
    {
        let length = vstd::slice::slice_to_vec(dimensions);
        let count = number_in_array(&length);
        let comp_data = ComponentData { name: component_name.to_string(), length, is_anonymous };
        self.components.push(comp_data);
        self.number_of_components = self.number_of_components + count;
        proof {
            assert(self.components@.drop_last() =~= old(self).components@);
        }
    }

    /// Records a constraint of the template.
    pub fn add_constraint(&mut self, constraint: Constraint)
        ensures
            final(self).constraints@ == old(self).constraints@.push(constraint),
            *final(self) == (ExecutedTemplate { constraints: final(self).constraints, ..*old(self) }),
    {
        self.constraints.push(constraint);
    }

    /// Records the value of the tag of a signal named by `signal_name`, in
    /// place of any value it had.
    pub fn add_tag_signal(&mut self, signal_name: Vec<String>, value: BigInt)
        requires
            tag_keys_distinct(old(self).signal_to_tags@),
        ensures
            tag_keys_distinct(final(self).signal_to_tags@),
            tags_map(final(self).signal_to_tags@) == tags_map(old(self).signal_to_tags@).insert(name_list(signal_name@), value@),
            *final(self) == (ExecutedTemplate { signal_to_tags: final(self).signal_to_tags, ..*old(self) }),
    {
        let ghost s = self.signal_to_tags@;
        let ghost key = name_list(signal_name@);
        let mut i: usize = 0;
        while i < self.signal_to_tags.len()
            invariant
                *self == *old(self),
                self.signal_to_tags@ == s,
                tag_keys_distinct(s),
                key == name_list(signal_name@),
                i <= s.len(),
                forall|j: int| 0 <= j < i ==> name_list(#[trigger] s[j].0@) != key,
            decreases s.len() - i,
        {
            if same_names(&self.signal_to_tags[i].0, &signal_name) {
                let ghost v = value@;
                let entry = (signal_name, value);
                let ghost e = entry;
                self.signal_to_tags[i] = entry;
                proof {
                    let t = self.signal_to_tags@;
                    assert(t == s.update(i as int, e));
                    assert(name_list(e.0@) == key);
                    assert forall|a: int, b: int| 0 <= a < b < t.len() implies name_list(#[trigger] t[a].0@) != name_list(
                        #[trigger] t[b].0@,
                    ) by {
                        assert(name_list(t[a].0@) == name_list(s[a].0@));
                        assert(name_list(t[b].0@) == name_list(s[b].0@));
                    }
                    lemma_tags_replaced(s, t, i as int, key, v);
                }
                return;
            }
            i = i + 1;
        }
        let ghost v = value@;
        let entry = (signal_name, value);
        let ghost e = entry;
        self.signal_to_tags.push(entry);
        proof {
            let t = self.signal_to_tags@;
            assert(t == s.push(e));
            assert(name_list(e.0@) == key);
            assert forall|a: int, b: int| 0 <= a < b < t.len() implies name_list(#[trigger] t[a].0@) != name_list(#[trigger] t[b].0@) by {
                if b == s.len() {
                    assert(name_list(t[a].0@) == name_list(s[a].0@));
                } else {
                    assert(t[a] == s[a] && t[b] == s[b]);
                }
            }
            lemma_tags_added(s, t, key, v);
        }
    }

    /// Records that the subcomponent `symbol` runs the template at
    /// `node_pointer`.
    pub fn add_instr_component(&mut self, symbol: &String, node_pointer: usize)
        requires
            keys_increasing(old(self).subcomponent_declarations@),
        ensures
            keys_increasing(final(self).subcomponent_declarations@),
            entries_map(final(self).subcomponent_declarations@) == entries_map(old(self).subcomponent_declarations@).insert(
                symbol@,
                node_pointer,
            ),
            *final(self) == (ExecutedTemplate { subcomponent_declarations: final(self).subcomponent_declarations, ..*old(self) }),
    {
        insert_entry(&mut self.subcomponent_declarations, symbol.clone(), node_pointer);
    }

    /// Records a signal whose name starts with an underscore.
    pub fn add_underscored_signal(&mut self, signal: &str)
        ensures
            final(self).underscored_signals@.len() == old(self).underscored_signals@.len() + 1,
            final(self).underscored_signals@.drop_last() == old(self).underscored_signals@,
            final(self).underscored_signals@.last()@ == signal@,
            *final(self) == (ExecutedTemplate { underscored_signals: final(self).underscored_signals, ..*old(self) }),
    {
        self.underscored_signals.push(signal.to_string());
        proof {
            assert(self.underscored_signals@.drop_last() =~= old(self).underscored_signals@);
        }
    }

    /// The name of the template.
    pub fn template_name(&self) -> (r: &String)
        ensures
            *r == self.template_name,
    {
        &self.template_name
    }

    /// The inputs, in declaration order.
    pub fn inputs(&self) -> (r: &Vec<WireData>)
        ensures
            *r == self.inputs,
    {
        &self.inputs
    }

    /// The outputs, in declaration order.
    pub fn outputs(&self) -> (r: &Vec<WireData>)
        ensures
            *r == self.outputs,
    {
        &self.outputs
    }

    /// The intermediates, in declaration order.
    pub fn intermediates(&self) -> (r: &Vec<WireData>)
        ensures
            *r == self.intermediates,
    {
        &self.intermediates
    }

    /// The parameters of the instance with their values.
    pub fn parameter_instances(&self) -> (r: &Vec<(String, ParameterValue)>)
        ensures
            *r == self.parameter_instances,
    {
        &self.parameter_instances
    }
}

/// What is known of the template instances behind a component array:
/// nothing yet (`B`), one instance (`K`), or several (`T`).
#[derive(Clone, Copy, Debug, PartialEq, Eq, Structural)]
pub enum POS {
    T,
    K(usize),
    B,
}

/// Least upper bound of two positions in the lattice `B < K(i) < T`.
pub open spec fn lub(l: POS, r: POS) -> POS {
    match (l, r) {
        (POS::K(v0), POS::K(v1)) => if v0 == v1 { POS::K(v0) } else { POS::T },
        (POS::B, p) => p,
        (p, POS::B) => p,
        _ => POS::T,
    }
}

impl POS {
    /// The least upper bound of two positions.
    pub fn least_upper_bound(l: POS, r: POS) -> (res: POS)
        ensures
            res == lub(l, r),
    {
        match (l, r) {
            (POS::K(v0), POS::K(v1)) if v0 == v1 => POS::K(v0),
            (POS::B, p) | (p, POS::B) => p,
            _ => POS::T,
        }
    }
}

/// The least upper bound does not depend on the order of its arguments.
pub proof fn law_lub_commutative(l: POS, r: POS)
    ensures
        lub(l, r) == lub(r, l),
{
}

/// The least upper bound does not depend on the grouping of its arguments.
pub proof fn law_lub_associative(a: POS, b: POS, c: POS)
    ensures
        lub(lub(a, b), c) == lub(a, lub(b, c)),
{
}

/// Joining a position with itself gives it back; `B` joins as nothing and
/// `T` absorbs everything.
pub proof fn law_lub_idempotent_bounds(a: POS)
    ensures
        lub(a, a) == a,
        lub(POS::B, a) == a,
        lub(POS::T, a) == POS::T,
{
}

/// The name of the component that a connexion reaches.
pub open spec fn cnn_name(c: Connexion) -> Seq<char> {
    c.inspect.name@
}

/// Position of the component array `name`: the join of `K(i)` over the
/// instances `i` of the connexions to it, in order.
pub open spec fn name_pos(cs: Seq<Connexion>, name: Seq<char>) -> POS
    decreases cs.len(),
{
    if cs.len() == 0 {
        POS::B
    } else {
        let prev = name_pos(cs.drop_last(), name);
        if cnn_name(cs.last()) == name {
            lub(prev, POS::K(cs.last().inspect.goes_to))
        } else {
            prev
        }
    }
}

/// Some connexion reaches the component array `name`.
pub open spec fn occurs(cs: Seq<Connexion>, name: Seq<char>) -> bool {
    exists|i: int| 0 <= i < cs.len() && #[trigger] cnn_name(cs[i]) == name
}

/// The position of one component array.
fn position_of(connexions: &Vec<Connexion>, name: &String) -> (r: POS)
    ensures
        r == name_pos(connexions@, name@),
{
    let mut pos = POS::B;
    let mut i: usize = 0;
    while i < connexions.len()
        invariant
            i <= connexions.len(),
            pos == name_pos(connexions@.subrange(0, i as int), name@),
        decreases connexions.len() - i,
    {
        let data = &connexions[i].inspect;
        proof {
            assert(connexions@.subrange(0, i + 1).drop_last() =~= connexions@.subrange(0, i as int));
        }
        if data.name == *name {
            pos = POS::least_upper_bound(pos, POS::K(data.goes_to));
        }
        i = i + 1;
    }
    proof {
        assert(connexions@.subrange(0, connexions.len() as int) =~= connexions@);
    }
    pos
}

/// The position of the component array of every connexion.
pub fn apply_pos_to_connexions(connexions: &Vec<Connexion>) -> (r: Vec<POS>)
    ensures
        r.len() == connexions.len(),
        forall|i: int| 0 <= i < r.len() ==> r[i] == name_pos(connexions@, cnn_name(connexions@[i])),
{
    let mut solution: Vec<POS> = Vec::new();
    let mut i: usize = 0;
    while i < connexions.len()
        invariant
            i <= connexions.len(),
            solution.len() == i,
            forall|j: int| 0 <= j < i ==> solution[j] == name_pos(connexions@, cnn_name(connexions@[j])),
        decreases connexions.len() - i,
    {
        let pos = position_of(connexions, &connexions[i].inspect.name);
        solution.push(pos);
        i = i + 1;
    }
    solution
}

/// For every component array, whether its connexions reach instances of
/// different templates.
pub fn mixed_components(exec_tmp: &ExecutedTemplate) -> (r: Vec<bool>)
    ensures
        r.len() == exec_tmp.components.len(),
        forall|i: int| 0 <= i < r.len() ==> r[i] == (name_pos(exec_tmp.connexions@, exec_tmp.components@[i].name@)
            == POS::T),
{
    let mut mixed: Vec<bool> = Vec::new();
    let mut i: usize = 0;
    while i < exec_tmp.components.len()
        invariant
            i <= exec_tmp.components.len(),
            mixed.len() == i,
            forall|j: int| 0 <= j < i ==> mixed[j] == (name_pos(exec_tmp.connexions@, exec_tmp.components@[j].name@)
                == POS::T),
        decreases exec_tmp.components.len() - i,
    {
        let pos = position_of(&exec_tmp.connexions, &exec_tmp.components[i].name);
        mixed.push(pos == POS::T);
        i = i + 1;
    }
    mixed
}

/// For each of `no_templates` templates, whether one of its instances is
/// reached through a component array that mixes templates.
pub fn templates_in_mixed_arrays(exec_tmp: &ExecutedTemplate, no_templates: usize) -> (r: Vec<bool>)
    requires
        forall|i: int| 0 <= i < exec_tmp.connexions.len() ==> #[trigger] exec_tmp.connexions@[i].inspect.goes_to
            < no_templates,
    ensures
        r.len() == no_templates,
        forall|t: int| 0 <= t < no_templates ==> (r[t] <==> exists|i: int|
            0 <= i < exec_tmp.connexions.len() && exec_tmp.connexions@[i].inspect.goes_to == t && #[trigger] name_pos(
                exec_tmp.connexions@,
                cnn_name(exec_tmp.connexions@[i]),
            ) == POS::T),
{
    let cs = &exec_tmp.connexions;
    let solution = apply_pos_to_connexions(cs);
    let mut mixed: Vec<bool> = Vec::new();
    let mut t: usize = 0;
    while t < no_templates
        invariant
            t <= no_templates,
            mixed.len() == t,
            forall|j: int| 0 <= j < t ==> !mixed[j],
        decreases no_templates - t,
    {
        mixed.push(false);
        t = t + 1;
    }
    let mut i: usize = 0;
    while i < cs.len()
        invariant
            i <= cs.len(),
            cs == &exec_tmp.connexions,
            solution.len() == cs.len(),
            forall|j: int| 0 <= j < solution.len() ==> solution[j] == name_pos(cs@, cnn_name(cs@[j])),
            forall|j: int| 0 <= j < cs.len() ==> #[trigger] cs@[j].inspect.goes_to < no_templates,
            mixed.len() == no_templates,
            forall|x: int| 0 <= x < no_templates ==> (mixed[x] <==> exists|j: int|
                0 <= j < i && cs@[j].inspect.goes_to == x && #[trigger] name_pos(cs@, cnn_name(cs@[j])) == POS::T),
        decreases cs.len() - i,
    {
        let target = cs[i].inspect.goes_to;
        let is_top = solution[i] == POS::T;
        let previous = mixed[target];
        mixed.set(target, previous || is_top);
        proof {
            assert forall|x: int| 0 <= x < no_templates implies (mixed[x] <==> exists|j: int|
                0 <= j < i + 1 && cs@[j].inspect.goes_to == x && #[trigger] name_pos(cs@, cnn_name(cs@[j]))
                    == POS::T) by {
                if x == target && is_top {
                    assert(cs@[i as int].inspect.goes_to == x && name_pos(cs@, cnn_name(cs@[i as int])) == POS::T);
                }
            }
        }
        i = i + 1;
    }
    mixed
}

/// Number of components in an array with the given dimensions.
pub open spec fn product(s: Seq<usize>) -> nat
    decreases s.len(),
{
    if s.len() == 0 {
        1
    } else {
        product(s.drop_last()) * (s.last() as nat)
    }
}

/// Every partial product of the dimensions fits in a machine word.
pub open spec fn products_fit(s: Seq<usize>) -> bool {
    forall|k: int| 0 <= k <= s.len() ==> #[trigger] product(s.subrange(0, k)) <= usize::MAX
}

/// A component array as plain values: name, dimensions, anonymity.
pub open spec fn component_view(c: ComponentData) -> (Seq<char>, Seq<usize>, bool) {
    (c.name@, c.length@, c.is_anonymous)
}

/// The component arrays that some connexion reaches, in order.
pub open spec fn used_components(comps: Seq<ComponentData>, cs: Seq<Connexion>) -> Seq<(Seq<char>, Seq<usize>, bool)>
    decreases comps.len(),
{
    if comps.len() == 0 {
        Seq::empty()
    } else {
        used_components(comps.drop_last(), cs) + if occurs(cs, comps.last().name@) {
            seq![component_view(comps.last())]
        } else {
            Seq::empty()
        }
    }
}

/// Number of components in the given arrays.
pub open spec fn number_of_components(arrays: Seq<(Seq<char>, Seq<usize>, bool)>) -> nat
    decreases arrays.len(),
{
    if arrays.len() == 0 {
        0
    } else {
        number_of_components(arrays.drop_last()) + product(arrays.last().1)
    }
}

/// Number of components in an array with the given dimensions.
fn number_in_array(lengths: &Vec<usize>) -> (r: usize)
    requires
        products_fit(lengths@),
    ensures
        r == product(lengths@),
{
    let mut p: usize = 1;
    let mut i: usize = 0;
    while i < lengths.len()
        invariant
            i <= lengths.len(),
            products_fit(lengths@),
            p == product(lengths@.subrange(0, i as int)),
        decreases lengths.len() - i,
    {
        proof {
            assert(lengths@.subrange(0, i + 1).drop_last() =~= lengths@.subrange(0, i as int));
            assert(product(lengths@.subrange(0, i + 1)) <= usize::MAX);
        }
        p = p * lengths[i];
        i = i + 1;
    }
    proof {
        assert(lengths@.subrange(0, lengths.len() as int) =~= lengths@);
    }
    p
}

/// Whether some connexion reaches the component array `name`.
fn is_used(connexions: &Vec<Connexion>, name: &String) -> (r: bool)
    ensures
        r == occurs(connexions@, name@),
{
    let mut i: usize = 0;
    while i < connexions.len()
        invariant
            i <= connexions.len(),
            forall|j: int| 0 <= j < i ==> #[trigger] cnn_name(connexions@[j]) != name@,
        decreases connexions.len() - i,
    {
        if connexions[i].inspect.name == *name {
            proof {
                assert(cnn_name(connexions@[i as int]) == name@);
            }
            return true;
        }
        i = i + 1;
    }
    false
}

/// The component arrays that some connexion reaches, in order, and the
/// number of components in them.
pub fn filter_used_components(tmp: &ExecutedTemplate) -> (r: (Vec<ComponentData>, usize))
    requires
        forall|i: int| 0 <= i < tmp.components.len() && occurs(tmp.connexions@, #[trigger] tmp.components@[i].name@)
            ==> products_fit(tmp.components@[i].length@),
        number_of_components(used_components(tmp.components@, tmp.connexions@)) <= usize::MAX,
    ensures
        r.0@.map_values(|c: ComponentData| component_view(c)) == used_components(tmp.components@, tmp.connexions@),
        r.1 == number_of_components(used_components(tmp.components@, tmp.connexions@)),
{
    let ghost all = used_components(tmp.components@, tmp.connexions@);
    let mut filtered: Vec<ComponentData> = Vec::new();
    let mut number: usize = 0;
    let mut i: usize = 0;
    while i < tmp.components.len()
        invariant
            i <= tmp.components.len(),
            forall|j: int| 0 <= j < tmp.components.len() && occurs(tmp.connexions@, #[trigger] tmp.components@[j].name@)
                ==> products_fit(tmp.components@[j].length@),
            all == used_components(tmp.components@, tmp.connexions@),
            number_of_components(all) <= usize::MAX,
            filtered@.map_values(|c: ComponentData| component_view(c)) == used_components(
                tmp.components@.subrange(0, i as int),
                tmp.connexions@,
            ),
            number == number_of_components(used_components(tmp.components@.subrange(0, i as int), tmp.connexions@)),
        decreases tmp.components.len() - i,
    {
        let component = &tmp.components[i];
        let ghost prefix = tmp.components@.subrange(0, i + 1);
        let ghost earlier = used_components(tmp.components@.subrange(0, i as int), tmp.connexions@);
        proof {
            assert(prefix.drop_last() =~= tmp.components@.subrange(0, i as int));
            assert(prefix.last() == tmp.components@[i as int]);
            lemma_used_prefix_bound(tmp.components@, tmp.connexions@, i + 1);
            let x = component_view(*component);
            assert((earlier + seq![x]).drop_last() =~= earlier);
        }
        if is_used(&tmp.connexions, &component.name) {
            let value = ComponentData { name: component.name.clone(), length: component.length.clone(), is_anonymous: component.is_anonymous };
            let ghost before = filtered@;
            filtered.push(value);
            let count = number_in_array(&component.length);
            number = number + count;
            proof {
                assert(value.length@ =~= component.length@);
                assert(filtered@.map_values(|c: ComponentData| component_view(c)) =~= before.map_values(
                    |c: ComponentData| component_view(c),
                ).push(component_view(value)));
            }
        }
        i = i + 1;
    }
    proof {
        assert(tmp.components@.subrange(0, tmp.components.len() as int) =~= tmp.components@);
    }
    (filtered, number)
}

/// The components of the first arrays are no more than those of all.
proof fn lemma_used_prefix_bound(comps: Seq<ComponentData>, cs: Seq<Connexion>, k: int)
    requires
        0 <= k <= comps.len(),
    ensures
        number_of_components(used_components(comps.subrange(0, k), cs)) <= number_of_components(
            used_components(comps, cs),
        ),
    decreases comps.len(),
{
    if k < comps.len() {
        assert(comps.drop_last().subrange(0, k) =~= comps.subrange(0, k));
        lemma_used_prefix_bound(comps.drop_last(), cs, k);
        let shorter = used_components(comps.drop_last(), cs);
        assert(used_components(comps, cs).subrange(0, shorter.len() as int) =~= shorter);
        lemma_number_grows(shorter, used_components(comps, cs));
    } else {
        assert(comps.subrange(0, k) =~= comps);
    }
}

/// Adding arrays adds components.
proof fn lemma_number_grows(a: Seq<(Seq<char>, Seq<usize>, bool)>, b: Seq<(Seq<char>, Seq<usize>, bool)>)
    requires
        a.len() <= b.len(),
        a == b.subrange(0, a.len() as int),
    ensures
        number_of_components(a) <= number_of_components(b),
    decreases b.len(),
{
    if a.len() < b.len() {
        assert(b.drop_last().subrange(0, a.len() as int) =~= a);
        lemma_number_grows(a, b.drop_last());
    } else {
        assert(a =~= b);
    }
}

/// The parts of a template instance of the circuit that the export of a
/// template reads and marks: its name and header, whether it runs in
/// parallel, whether some connexion reaches it in parallel or not, its
/// number of input signals and its wires.
pub struct TemplateInstance {
    pub template_name: String,
    pub template_header: String,
    pub is_parallel: bool,
    pub is_parallel_component: bool,
    pub is_not_parallel_component: bool,
    pub number_of_inputs: usize,
    pub wires: Vec<Wire>,
}

/// How the instances behind a component array are laid out: all of one
/// template at regular jumps, or of several templates.
pub enum ClusterType {
    Mixed { tmp_name: String },
    Uniform { offset_jump: usize, component_offset_jump: usize, instance_id: usize, header: String },
}

/// The connexions to one component array: their range among the
/// connexions, the indices they are accessed with, and their layout.
pub struct TriggerCluster {
    pub slice: std::ops::Range<usize>,
    pub length: usize,
    pub defined_positions: Vec<Vec<usize>>,
    pub cmp_name: String,
    pub xtype: ClusterType,
}

/// Index of the last connexion to the component array `n` (-1 if none).
pub open spec fn last_index(cs: Seq<Connexion>, n: Seq<char>) -> int
    decreases cs.len(),
{
    if cs.len() == 0 {
        -1
    } else if cnn_name(cs.last()) == n {
        cs.len() - 1
    } else {
        last_index(cs.drop_last(), n)
    }
}

/// First index of the run of consecutive connexions to the same array
/// that ends with connexion `k`.
pub open spec fn run_begin(cs: Seq<Connexion>, k: int) -> int
    decreases k,
{
    if 0 < k < cs.len() && cnn_name(cs[k - 1]) == cnn_name(cs[k]) {
        run_begin(cs, k - 1)
    } else {
        k
    }
}

/// The name of the array that a cluster is for.
pub open spec fn cluster_name(c: TriggerCluster) -> Seq<char> {
    c.cmp_name@
}

/// `c` is the cluster of the connexions `start..end` to one array: mixed
/// clusters name the template of the first instance, uniform ones give the
/// jumps, instance and header of the first connexion.
pub open spec fn cluster_of(
    c: TriggerCluster,
    cs: Seq<Connexion>,
    start: int,
    end: int,
    mixed: bool,
    instances: Seq<TemplateInstance>,
) -> bool {
    let first = cs[start];
    let instance = instances[first.inspect.goes_to as int];
    &&& c.slice.start == start
    &&& c.slice.end == end
    &&& c.length == end - start
    &&& c.defined_positions@.len() == end - start
    &&& forall|k: int| 0 <= k < end - start ==> (#[trigger] c.defined_positions@[k])@ == cs[start + k].inspect.indexed_with@
    &&& cluster_name(c) == cnn_name(first)
    &&& if mixed {
        c.xtype matches ClusterType::Mixed { tmp_name } && tmp_name@ == instance.template_name@
    } else {
        c.xtype matches ClusterType::Uniform { offset_jump, component_offset_jump, instance_id, header }
            && offset_jump == first.dag_jump && component_offset_jump == first.dag_component_jump
            && instance_id == first.inspect.goes_to && header@ == instance.template_header@
    }
}

/// One cluster for each component array, in order: the last run of
/// consecutive connexions to it, mixed where they reach instances of
/// several templates.
pub open spec fn clusters_ok(
    r: Seq<TriggerCluster>,
    components: Seq<ComponentData>,
    cs: Seq<Connexion>,
    instances: Seq<TemplateInstance>,
) -> bool {
    &&& r.len() == components.len()
    &&& forall|i: int| 0 <= i < r.len() ==> {
        let n = #[trigger] components[i].name@;
        let last = last_index(cs, n);
        cluster_of(r[i], cs, run_begin(cs, last), last + 1, name_pos(cs, n) == POS::T, instances)
    }
}

/// The cluster of connexions `start..end` from its parts.
fn cluster(slice: std::ops::Range<usize>, length: usize, defined_positions: Vec<Vec<usize>>, name: String, xtype: ClusterType) -> (r: TriggerCluster)
    ensures
        r.slice == slice,
        r.length == length,
        r.defined_positions == defined_positions,
        r.cmp_name == name,
        r.xtype == xtype,
{
    TriggerCluster { slice, length, defined_positions, cmp_name: name, xtype }
}

/// Connexions past `l` do not reach `n`, so the last one that does lies
/// before `l`.
proof fn lemma_last_index_prefix(cs: Seq<Connexion>, n: Seq<char>, l: int)
    requires
        0 <= l <= cs.len(),
        forall|k: int| l <= k < cs.len() ==> #[trigger] cnn_name(cs[k]) != n,
    ensures
        last_index(cs, n) == last_index(cs.subrange(0, l), n),
    decreases cs.len(),
{
    if l < cs.len() {
        assert(cnn_name(cs[cs.len() - 1]) != n);
        assert(cs.drop_last().subrange(0, l) =~= cs.subrange(0, l));
        lemma_last_index_prefix(cs.drop_last(), n, l);
    } else {
        assert(cs.subrange(0, l) =~= cs);
    }
}

/// The last connexion to an array that some connexion reaches.
proof fn lemma_last_index_found(cs: Seq<Connexion>, n: Seq<char>)
    requires
        occurs(cs, n),
    ensures
        0 <= last_index(cs, n) < cs.len(),
        cnn_name(cs[last_index(cs, n)]) == n,
        forall|k: int| last_index(cs, n) < k < cs.len() ==> #[trigger] cnn_name(cs[k]) != n,
    decreases cs.len(),
{
    if cnn_name(cs.last()) != n {
        let i = choose|i: int| 0 <= i < cs.len() && #[trigger] cnn_name(cs[i]) == n;
        assert(cnn_name(cs.drop_last()[i]) == n);
        lemma_last_index_found(cs.drop_last(), n);
        let j = last_index(cs.drop_last(), n);
        assert(cs.drop_last()[j] == cs[j]);
        assert forall|k: int| last_index(cs, n) < k < cs.len() implies #[trigger] cnn_name(cs[k]) != n by {
            if k < cs.len() - 1 {
                assert(cs.drop_last()[k] == cs[k]);
            }
        }
    }
}

/// The first index of a run is no later than its last, and the whole run
/// reaches one array.
proof fn lemma_run_begin(cs: Seq<Connexion>, k: int)
    requires
        0 <= k < cs.len(),
    ensures
        0 <= run_begin(cs, k) <= k,
        forall|j: int| run_begin(cs, k) <= j <= k ==> #[trigger] cnn_name(cs[j]) == cnn_name(cs[k]),
    decreases k,
{
    if 0 < k && cnn_name(cs[k - 1]) == cnn_name(cs[k]) {
        lemma_run_begin(cs, k - 1);
    }
}

/// Groups the connexions to each component array into its cluster: the
/// last run of consecutive connexions to the array, mixed when the array
/// reaches instances of several templates.
pub fn build_clusters(tmp: &ExecutedTemplate, instances: &Vec<TemplateInstance>) -> (r: Vec<TriggerCluster>)
    requires
        forall|i: int| 0 <= i < tmp.connexions.len() ==> #[trigger] tmp.connexions@[i].inspect.goes_to
            < instances.len(),
        forall|i: int| 0 <= i < tmp.components.len() ==> occurs(tmp.connexions@, #[trigger] tmp.components@[i].name@),
        forall|i: int, j: int|
            0 <= i < j < tmp.components.len() ==> #[trigger] tmp.components@[i].name@ != #[trigger] tmp.components@[j].name@,
    ensures
        clusters_ok(r@, tmp.components@, tmp.connexions@, instances@),
{
    let components = &tmp.components;
    let connexions = &tmp.connexions;
    let mixed = mixed_components(tmp);
    let mut result: Vec<TriggerCluster> = Vec::new();
    let mut index: usize = 0;
    while index < components.len()
        invariant
            components == &tmp.components,
            connexions == &tmp.connexions,
            index <= components.len(),
            mixed.len() == components.len(),
            forall|i: int| 0 <= i < mixed.len() ==> mixed[i] == (name_pos(connexions@, components@[i].name@) == POS::T),
            forall|i: int| 0 <= i < connexions.len() ==> #[trigger] connexions@[i].inspect.goes_to < instances.len(),
            forall|i: int| 0 <= i < components.len() ==> occurs(connexions@, #[trigger] components@[i].name@),
            result.len() == index,
            forall|i: int| 0 <= i < index ==> {
                let n = #[trigger] components@[i].name@;
                let last = last_index(connexions@, n);
                cluster_of(
                    result[i],
                    connexions@,
                    run_begin(connexions@, last),
                    last + 1,
                    name_pos(connexions@, n) == POS::T,
                    instances@,
                )
            },
        decreases components.len() - index,
    {
        let array_name = &components[index].name;
        let ghost n = array_name@;
        proof {
            lemma_last_index_found(connexions@, n);
        }
        // the last connexion to the array
        let mut l: usize = connexions.len();
        while l > 0 && !(connexions[l - 1].inspect.name == *array_name)
            invariant
                n == array_name@,
                l <= connexions.len(),
                0 <= last_index(connexions@, n) < l,
                cnn_name(connexions@[last_index(connexions@, n)]) == n,
                forall|k: int| l <= k < connexions.len() ==> #[trigger] cnn_name(connexions@[k]) != n,
            decreases l,
        {
            l = l - 1;
        }
        proof {
            assert(l > 0);
            assert(cnn_name(connexions@[l - 1]) == n);
            lemma_last_index_prefix(connexions@, n, l as int);
            assert(connexions@.subrange(0, l as int).last() == connexions@[l - 1]);
        }
        let end = l;
        // the first connexion of its run
        let mut start: usize = l - 1;
        while start > 0 && connexions[start - 1].inspect.name == connexions[start].inspect.name
            invariant
                start < end <= connexions.len(),
                end - 1 == last_index(connexions@, n),
                run_begin(connexions@, start as int) == run_begin(connexions@, end - 1),
            decreases start,
        {
            start = start - 1;
        }
        proof {
            lemma_run_begin(connexions@, end - 1);
        }
        let mut defined_positions: Vec<Vec<usize>> = Vec::new();
        let mut k: usize = start;
        while k < end
            invariant
                start <= k <= end <= connexions.len(),
                defined_positions.len() == k - start,
                forall|j: int| 0 <= j < k - start ==> (#[trigger] defined_positions@[j])@ == connexions@[start + j].inspect.indexed_with@,
            decreases end - k,
        {
            let positions = connexions[k].inspect.indexed_with.clone();
            proof {
                assert(positions@ =~= connexions@[k as int].inspect.indexed_with@);
            }
            defined_positions.push(positions);
            k = k + 1;
        }
        let first = &connexions[start].inspect;
        let instance = &instances[first.goes_to];
        let xtype = if mixed[index] {
            ClusterType::Mixed { tmp_name: instance.template_name.clone() }
        } else {
            ClusterType::Uniform {
                offset_jump: connexions[start].dag_jump,
                component_offset_jump: connexions[start].dag_component_jump,
                instance_id: first.goes_to,
                header: instance.template_header.clone(),
            }
        };
        let c = cluster(start..end, end - start, defined_positions, first.name.clone(), xtype);
        result.push(c);
        index = index + 1;
    }
    result
}

/// A declared signal or bus of a template: its name, its dimensions, and
/// whether it is a bus.
pub struct WireData {
    pub name: String,
    pub length: Vec<usize>,
    pub is_bus: bool,
}

/// The bus that a bus wire of the template is connected to.
pub struct BusConnexion {
    pub name: String,
    pub goes_to: usize,
}

/// The size of an instance of a bus.
pub struct BusInstance {
    pub size: usize,
}

/// A signal (array) of a template instance, with its place among the
/// instance's wires.
pub struct Signal {
    pub name: String,
    pub lengths: Vec<usize>,
    pub local_id: usize,
    pub dag_local_id: usize,
    pub xtype: SignalType,
    pub size: usize,
}

/// A bus (array) of a template instance, with its place among the
/// instance's wires.
pub struct Bus {
    pub name: String,
    pub lengths: Vec<usize>,
    pub local_id: usize,
    pub dag_local_id: usize,
    pub bus_id: usize,
    pub size: usize,
    pub xtype: SignalType,
}

/// A wire of a template instance.
pub enum Wire {
    TSignal(Signal),
    TBus(Bus),
}

/// `init` times the product of the dimensions, multiplied from the left.
pub open spec fn scaled_product(init: nat, s: Seq<usize>) -> nat
    decreases s.len(),
{
    if s.len() == 0 {
        init
    } else {
        scaled_product(init, s.drop_last()) * (s.last() as nat)
    }
}

/// Index of the first bus connexion of the wire `name` (-1 if none).
pub open spec fn bus_index(bcs: Seq<BusConnexion>, name: Seq<char>) -> int
    decreases bcs.len(),
{
    if bcs.len() == 0 {
        -1
    } else {
        let prev = bus_index(bcs.drop_last(), name);
        if prev >= 0 {
            prev
        } else if bcs.last().name@ == name {
            bcs.len() - 1
        } else {
            -1
        }
    }
}

/// The wires of a group, each with the group's kind.
pub open spec fn tagged(ws: Seq<WireData>, t: SignalType) -> Seq<(WireData, SignalType)>
    decreases ws.len(),
{
    if ws.len() == 0 {
        Seq::empty()
    } else {
        tagged(ws.drop_last(), t).push((ws.last(), t))
    }
}

/// The inputs that are public (`want`) or not (`!want`), in order.
pub open spec fn inputs_where(ws: Seq<WireData>, public: Seq<String>, want: bool) -> Seq<WireData>
    decreases ws.len(),
{
    if ws.len() == 0 {
        Seq::empty()
    } else if is_public(public, ws.last().name@) == want {
        inputs_where(ws.drop_last(), public, want).push(ws.last())
    } else {
        inputs_where(ws.drop_last(), public, want)
    }
}

/// The wires of an instance in their order: outputs, public inputs, other
/// inputs, intermediates, each with its kind.
pub open spec fn ordered_wires(
    outputs: Seq<WireData>,
    inputs: Seq<WireData>,
    intermediates: Seq<WireData>,
    public: Seq<String>,
) -> Seq<(WireData, SignalType)> {
    tagged(outputs, SignalType::Output) + tagged(inputs_where(inputs, public, true), SignalType::Input) + tagged(
        inputs_where(inputs, public, false),
        SignalType::Input,
    ) + tagged(intermediates, SignalType::Intermediate)
}

/// Whether an input is public.
pub open spec fn is_public(public: Seq<String>, name: Seq<char>) -> bool {
    exists|i: int| 0 <= i < public.len() && #[trigger] public[i]@ == name
}

/// Signals in one element of a wire: the size of its bus for a bus, 1 for
/// a signal.
pub open spec fn element_size(w: WireData, bcs: Seq<BusConnexion>, buses: Seq<BusInstance>) -> nat {
    if w.is_bus {
        buses[bcs[bus_index(bcs, w.name@)].goes_to as int].size as nat
    } else {
        1
    }
}

/// Number of signals in a wire: the element size times the dimensions,
/// multiplied from the left.
pub open spec fn wire_size(w: WireData, bcs: Seq<BusConnexion>, buses: Seq<BusInstance>) -> nat {
    scaled_product(element_size(w, bcs, buses), w.length@)
}

/// Signals in the first `k` wires.
pub open spec fn size_before(ws: Seq<(WireData, SignalType)>, k: int, bcs: Seq<BusConnexion>, buses: Seq<BusInstance>) -> nat
    decreases k,
{
    if k <= 0 {
        0
    } else {
        size_before(ws, k - 1, bcs, buses) + wire_size(ws[k - 1].0, bcs, buses)
    }
}

/// Every wire can be sized: a bus wire has a bus connexion to a known bus,
/// and no partial product of its size, nor the total, overflows.
pub open spec fn wires_fit(ws: Seq<(WireData, SignalType)>, bcs: Seq<BusConnexion>, buses: Seq<BusInstance>) -> bool {
    &&& forall|i: int| 0 <= i < ws.len() && (#[trigger] ws[i]).0.is_bus ==> 0 <= bus_index(bcs, ws[i].0.name@) && bcs[bus_index(
        bcs,
        ws[i].0.name@,
    )].goes_to < buses.len()
    &&& forall|i: int, k: int|
        0 <= i < ws.len() && 0 <= k <= (#[trigger] ws[i]).0.length.len() ==> #[trigger] scaled_product(
            element_size(ws[i].0, bcs, buses),
            ws[i].0.length@.subrange(0, k),
        ) <= usize::MAX
    &&& size_before(ws, ws.len() as int, bcs, buses) + 1 <= usize::MAX
}

/// `w` is the wire placed for `d` of kind `t` after `before` signals.
pub open spec fn placed(w: Wire, d: WireData, t: SignalType, before: nat, bcs: Seq<BusConnexion>, buses: Seq<BusInstance>) -> bool {
    match w {
        Wire::TSignal(sig) => !d.is_bus && sig.name@ == d.name@ && sig.lengths@ == d.length@ && sig.local_id == before
            && sig.dag_local_id == before + 1 && sig.xtype == t && sig.size == wire_size(d, bcs, buses),
        Wire::TBus(bus) => d.is_bus && bus.name@ == d.name@ && bus.lengths@ == d.length@ && bus.local_id == before
            && bus.dag_local_id == before + 1 && bus.xtype == t && bus.size == wire_size(d, bcs, buses) && bus.bus_id
            == bcs[bus_index(bcs, d.name@)].goes_to,
    }
}

/// A first bus connexion found in a prefix is the first of the whole.
proof fn lemma_bus_index_prefix(bcs: Seq<BusConnexion>, name: Seq<char>, k: int)
    requires
        0 <= k <= bcs.len(),
        bus_index(bcs.subrange(0, k), name) >= 0,
    ensures
        bus_index(bcs, name) == bus_index(bcs.subrange(0, k), name),
    decreases bcs.len() - k,
{
    if k < bcs.len() {
        assert(bcs.subrange(0, k + 1).drop_last() =~= bcs.subrange(0, k));
        lemma_bus_index_prefix(bcs, name, k + 1);
    } else {
        assert(bcs.subrange(0, k) =~= bcs);
    }
}

/// A prefix without a bus connexion of the wire gives none.
proof fn lemma_bus_index_absent(bcs: Seq<BusConnexion>, name: Seq<char>)
    requires
        forall|j: int| 0 <= j < bcs.len() ==> #[trigger] bcs[j].name@ != name,
    ensures
        bus_index(bcs, name) == -1,
    decreases bcs.len(),
{
    if bcs.len() > 0 {
        lemma_bus_index_absent(bcs.drop_last(), name);
    }
}

/// The first bus connexion of the wire `name`.
pub(crate) fn find_bus(bcs: &Vec<BusConnexion>, name: &String) -> (r: Option<usize>)
    ensures
        match r {
            Some(i) => i == bus_index(bcs@, name@) && i < bcs.len(),
            None => bus_index(bcs@, name@) == -1,
        },
{
    let mut i: usize = 0;
    while i < bcs.len()
        invariant
            i <= bcs.len(),
            forall|j: int| 0 <= j < i ==> #[trigger] bcs@[j].name@ != name@,
        decreases bcs.len() - i,
    {
        if bcs[i].name == *name {
            proof {
                let pre = bcs@.subrange(0, i as int);
                assert forall|j: int| 0 <= j < pre.len() implies #[trigger] pre[j].name@ != name@ by {
                    assert(pre[j] == bcs@[j]);
                }
                lemma_bus_index_absent(pre, name@);
                assert(bcs@.subrange(0, i + 1).drop_last() =~= pre);
                lemma_bus_index_prefix(bcs@, name@, i + 1);
            }
            return Some(i);
        }
        i = i + 1;
    }
    proof {
        lemma_bus_index_absent(bcs@, name@);
    }
    None
}

/// Whether an input is public.
pub(crate) fn contains_name(public: &Vec<String>, name: &String) -> (r: bool)
    ensures
        r == is_public(public@, name@),
{
    let mut i: usize = 0;
    while i < public.len()
        invariant
            i <= public.len(),
            forall|j: int| 0 <= j < i ==> #[trigger] public@[j]@ != name@,
        decreases public.len() - i,
    {
        if public[i] == *name {
            proof {
                assert(public@[i as int]@ == name@);
            }
            return true;
        }
        i = i + 1;
    }
    false
}

/// The wire for `w` of kind `t`, placed after `local_id` signals, and its
/// size.
fn place_wire(
    w: &WireData,
    t: SignalType,
    local_id: usize,
    dag_local_id: usize,
    bcs: &Vec<BusConnexion>,
    buses: &Vec<BusInstance>,
) -> (r: (Wire, usize))
    requires
        dag_local_id == local_id + 1,
        w.is_bus ==> 0 <= bus_index(bcs@, w.name@) && bcs@[bus_index(bcs@, w.name@)].goes_to < buses.len(),
        forall|k: int| 0 <= k <= w.length.len() ==> #[trigger] scaled_product(
            element_size(*w, bcs@, buses@),
            w.length@.subrange(0, k),
        ) <= usize::MAX,
    ensures
        placed(r.0, *w, t, local_id as nat, bcs@, buses@),
        r.1 == wire_size(*w, bcs@, buses@),
{
    let mut size: usize = 1;
    let mut bus_id: usize = 0;
    if w.is_bus {
        let index = find_bus(bcs, &w.name).unwrap();
        bus_id = bcs[index].goes_to;
        size = buses[bus_id].size;
    }
    proof {
        assert(size == element_size(*w, bcs@, buses@));
        assert(w.length@.subrange(0, 0) =~= Seq::<usize>::empty());
    }
    let mut i: usize = 0;
    while i < w.length.len()
        invariant
            i <= w.length.len(),
            size == scaled_product(element_size(*w, bcs@, buses@), w.length@.subrange(0, i as int)),
            forall|k: int| 0 <= k <= w.length.len() ==> #[trigger] scaled_product(
                element_size(*w, bcs@, buses@),
                w.length@.subrange(0, k),
            ) <= usize::MAX,
        decreases w.length.len() - i,
    {
        proof {
            assert(w.length@.subrange(0, i + 1).drop_last() =~= w.length@.subrange(0, i as int));
            assert(scaled_product(element_size(*w, bcs@, buses@), w.length@.subrange(0, i + 1)) <= usize::MAX);
        }
        size = size * w.length[i];
        i = i + 1;
    }
    proof {
        assert(w.length@.subrange(0, w.length.len() as int) =~= w.length@);
    }
    let lengths = w.length.clone();
    proof {
        assert(lengths@ =~= w.length@);
    }
    let wire = if w.is_bus {
        Wire::TBus(Bus { name: w.name.clone(), lengths, local_id, dag_local_id, bus_id, size, xtype: t })
    } else {
        Wire::TSignal(Signal { name: w.name.clone(), lengths, local_id, dag_local_id, xtype: t, size })
    };
    (wire, size)
}

/// The wires of a group keep their order and kind.
proof fn lemma_tagged(ws: Seq<WireData>, t: SignalType)
    ensures
        tagged(ws, t).len() == ws.len(),
        forall|i: int| 0 <= i < ws.len() ==> #[trigger] tagged(ws, t)[i] == (ws[i], t),
    decreases ws.len(),
{
    if ws.len() > 0 {
        lemma_tagged(ws.drop_last(), t);
    }
}

/// The inputs of a kind among the first `i` come first among all of that kind.
proof fn lemma_inputs_where_prefix(ws: Seq<WireData>, public: Seq<String>, want: bool, i: int)
    requires
        0 <= i <= ws.len(),
    ensures
        inputs_where(ws.subrange(0, i), public, want).len() <= inputs_where(ws, public, want).len(),
        inputs_where(ws, public, want).subrange(0, inputs_where(ws.subrange(0, i), public, want).len() as int)
            == inputs_where(ws.subrange(0, i), public, want),
    decreases ws.len(),
{
    if i == ws.len() {
        assert(ws.subrange(0, i) =~= ws);
        assert(inputs_where(ws, public, want).subrange(0, inputs_where(ws, public, want).len() as int) =~= inputs_where(ws, public, want));
    } else {
        assert(ws.drop_last().subrange(0, i) =~= ws.subrange(0, i));
        lemma_inputs_where_prefix(ws.drop_last(), public, want, i);
        let small = inputs_where(ws.subrange(0, i), public, want);
        let mid = inputs_where(ws.drop_last(), public, want);
        assert(inputs_where(ws, public, want).subrange(0, small.len() as int) =~= mid.subrange(0, small.len() as int));
    }
}

/// The wires placed so far: the first `done.len()` of all, each placed
/// after the signals of the wires before it.
pub open spec fn progress(
    result: Seq<Wire>,
    done: Seq<(WireData, SignalType)>,
    full: Seq<(WireData, SignalType)>,
    local_id: usize,
    dag_local_id: usize,
    bcs: Seq<BusConnexion>,
    buses: Seq<BusInstance>,
) -> bool {
    &&& result.len() == done.len()
    &&& done.len() <= full.len()
    &&& done == full.subrange(0, done.len() as int)
    &&& forall|j: int| 0 <= j < done.len() ==> placed(#[trigger] result[j], full[j].0, full[j].1, size_before(full, j, bcs, buses), bcs, buses)
    &&& local_id == size_before(full, done.len() as int, bcs, buses)
    &&& dag_local_id == local_id + 1
}

/// Signals before a wire are no more than all signals.
proof fn lemma_size_before_monotone(ws: Seq<(WireData, SignalType)>, j: int, k: int, bcs: Seq<BusConnexion>, buses: Seq<BusInstance>)
    requires
        j <= k,
    ensures
        size_before(ws, j, bcs, buses) <= size_before(ws, k, bcs, buses),
    decreases k - j,
{
    if j < k {
        lemma_size_before_monotone(ws, j, k - 1, bcs, buses);
    }
}

/// Placing the next wire keeps the progress.
proof fn lemma_step(
    result: Seq<Wire>,
    done: Seq<(WireData, SignalType)>,
    full: Seq<(WireData, SignalType)>,
    local_id: usize,
    dag_local_id: usize,
    w: Wire,
    size: usize,
    bcs: Seq<BusConnexion>,
    buses: Seq<BusInstance>,
)
    requires
        wires_fit(full, bcs, buses),
        progress(result, done, full, local_id, dag_local_id, bcs, buses),
        done.len() < full.len(),
        placed(w, full[done.len() as int].0, full[done.len() as int].1, local_id as nat, bcs, buses),
        size == wire_size(full[done.len() as int].0, bcs, buses),
    ensures
        local_id + size + 1 <= usize::MAX,
        progress(
            result.push(w),
            done.push(full[done.len() as int]),
            full,
            (local_id + size) as usize,
            (dag_local_id + size) as usize,
            bcs,
            buses,
        ),
{
    let k = done.len() as int;
    lemma_size_before_monotone(full, k + 1, full.len() as int, bcs, buses);
    assert(done.push(full[k]) =~= full.subrange(0, k + 1));
    assert forall|j: int| 0 <= j < k + 1 implies placed(#[trigger] result.push(w)[j], full[j].0, full[j].1, size_before(full, j, bcs, buses), bcs, buses) by {
        if j < k {
            assert(result.push(w)[j] == result[j]);
        }
    }
}

/// The wires of a template instance, numbered as the instance lays them
/// out: outputs, then public inputs, then the other inputs, then
/// intermediates; each starts after the signals of the wires before it
/// (`local_id`, and `dag_local_id` one more), a bus wire takes its bus.
pub fn instance_wires(
    outputs: &Vec<WireData>,
    inputs: &Vec<WireData>,
    intermediates: &Vec<WireData>,
    public_inputs: &Vec<String>,
    bus_connexions: &Vec<BusConnexion>,
    buses_info: &Vec<BusInstance>,
) -> (r: Vec<Wire>)
    requires
        wires_fit(ordered_wires(outputs@, inputs@, intermediates@, public_inputs@), bus_connexions@, buses_info@),
    ensures
        ({
            let ws = ordered_wires(outputs@, inputs@, intermediates@, public_inputs@);
            &&& r.len() == ws.len()
            &&& forall|i: int| 0 <= i < ws.len() ==> placed(#[trigger] r[i], ws[i].0, ws[i].1, size_before(ws, i, bus_connexions@, buses_info@), bus_connexions@, buses_info@)
        }),
{
    let ghost bcs = bus_connexions@;
    let ghost buses = buses_info@;
    let ghost public = public_inputs@;
    let ghost outs = tagged(outputs@, SignalType::Output);
    let ghost pubs = tagged(inputs_where(inputs@, public, true), SignalType::Input);
    let ghost privs = tagged(inputs_where(inputs@, public, false), SignalType::Input);
    let ghost inters = tagged(intermediates@, SignalType::Intermediate);
    let ghost full = ordered_wires(outputs@, inputs@, intermediates@, public);
    proof {
        lemma_tagged(outputs@, SignalType::Output);
        lemma_tagged(inputs_where(inputs@, public, true), SignalType::Input);
        lemma_tagged(inputs_where(inputs@, public, false), SignalType::Input);
        lemma_tagged(intermediates@, SignalType::Intermediate);
        assert(full == outs + pubs + privs + inters);
    }
    let mut result: Vec<Wire> = Vec::new();
    let ghost mut done: Seq<(WireData, SignalType)> = Seq::empty();
    let mut local_id: usize = 0;
    let mut dag_local_id: usize = 1;
    proof {
        assert(done =~= full.subrange(0, 0));
    }
    let mut i: usize = 0;
    while i < outputs.len()
        invariant
            full == outs + pubs + privs + inters,
            outs == tagged(outputs@, SignalType::Output),
            outs.len() == outputs.len(),
            forall|j: int| 0 <= j < outputs.len() ==> #[trigger] outs[j] == (outputs@[j], SignalType::Output),
            wires_fit(full, bcs, buses),
            bcs == bus_connexions@,
            buses == buses_info@,
            i <= outputs.len(),
            done == tagged(outputs@.subrange(0, i as int), SignalType::Output),
            done.len() == i,
            progress(result@, done, full, local_id, dag_local_id, bcs, buses),
        decreases outputs.len() - i,
    {
        proof {
            assert(full[i as int] == outs[i as int]);
            lemma_fit_at(full, i as int, bcs, buses);
        }
        let (wire, size) = place_wire(&outputs[i], SignalType::Output, local_id, dag_local_id, bus_connexions, buses_info);
        proof {
            lemma_step(result@, done, full, local_id, dag_local_id, wire, size, bcs, buses);
            assert(outputs@.subrange(0, i + 1).drop_last() =~= outputs@.subrange(0, i as int));
            done = done.push(full[i as int]);
        }
        local_id = local_id + size;
        dag_local_id = dag_local_id + size;
        result.push(wire);
        i = i + 1;
    }
    proof {
        assert(outputs@.subrange(0, outputs.len() as int) =~= outputs@);
        assert(inputs@.subrange(0, 0) =~= Seq::<WireData>::empty());
        assert(done =~= outs + tagged(inputs_where(inputs@.subrange(0, 0), public, true), SignalType::Input));
    }
    let mut i: usize = 0;
    while i < inputs.len()
        invariant
            full == outs + pubs + privs + inters,
            outs == tagged(outputs@, SignalType::Output),
            pubs == tagged(inputs_where(inputs@, public, true), SignalType::Input),
            pubs.len() == inputs_where(inputs@, public, true).len(),
            public == public_inputs@,
            wires_fit(full, bcs, buses),
            bcs == bus_connexions@,
            buses == buses_info@,
            i <= inputs.len(),
            done == outs + tagged(inputs_where(inputs@.subrange(0, i as int), public, true), SignalType::Input),
            progress(result@, done, full, local_id, dag_local_id, bcs, buses),
        decreases inputs.len() - i,
    {
        let ghost before = inputs_where(inputs@.subrange(0, i as int), public, true);
        proof {
            lemma_tagged(before, SignalType::Input);
            lemma_tagged(inputs_where(inputs@, public, true), SignalType::Input);
            assert(inputs@.subrange(0, i + 1).drop_last() =~= inputs@.subrange(0, i as int));
            assert(inputs@.subrange(0, i + 1).last() == inputs@[i as int]);
        }
        if contains_name(public_inputs, &inputs[i].name) {
            let ghost k = done.len() as int;
            proof {
                lemma_inputs_where_prefix(inputs@, public, true, i + 1);
                let after = inputs_where(inputs@.subrange(0, i + 1), public, true);
                assert(after == before.push(inputs@[i as int]));
                assert(inputs_where(inputs@, public, true)[before.len() as int] == after[before.len() as int]);
                assert(full[k] == pubs[before.len() as int]);
                assert(full[k].0 == inputs@[i as int]);
                lemma_fit_at(full, k, bcs, buses);
            }
            let (wire, size) = place_wire(&inputs[i], SignalType::Input, local_id, dag_local_id, bus_connexions, buses_info);
            proof {
                lemma_step(result@, done, full, local_id, dag_local_id, wire, size, bcs, buses);
                let after = inputs_where(inputs@.subrange(0, i + 1), public, true);
                assert(after == before.push(inputs@[i as int]));
                assert(after.drop_last() =~= before);
                assert(tagged(after, SignalType::Input) == tagged(before, SignalType::Input).push((inputs@[i as int], SignalType::Input)));
                assert(full[k] == (inputs@[i as int], SignalType::Input));
                done = done.push(full[k]);
                assert(done =~= outs + tagged(after, SignalType::Input));
            }
            local_id = local_id + size;
            dag_local_id = dag_local_id + size;
            result.push(wire);
        }
        i = i + 1;
    }
    proof {
        assert(inputs@.subrange(0, inputs.len() as int) =~= inputs@);
        assert(inputs@.subrange(0, 0) =~= Seq::<WireData>::empty());
        assert(done =~= outs + pubs + tagged(inputs_where(inputs@.subrange(0, 0), public, false), SignalType::Input));
    }
    let mut i: usize = 0;
    while i < inputs.len()
        invariant
            full == outs + pubs + privs + inters,
            privs == tagged(inputs_where(inputs@, public, false), SignalType::Input),
            privs.len() == inputs_where(inputs@, public, false).len(),
            public == public_inputs@,
            wires_fit(full, bcs, buses),
            bcs == bus_connexions@,
            buses == buses_info@,
            i <= inputs.len(),
            done == outs + pubs + tagged(inputs_where(inputs@.subrange(0, i as int), public, false), SignalType::Input),
            progress(result@, done, full, local_id, dag_local_id, bcs, buses),
        decreases inputs.len() - i,
    {
        let ghost before = inputs_where(inputs@.subrange(0, i as int), public, false);
        proof {
            lemma_tagged(before, SignalType::Input);
            lemma_tagged(inputs_where(inputs@, public, false), SignalType::Input);
            assert(inputs@.subrange(0, i + 1).drop_last() =~= inputs@.subrange(0, i as int));
            assert(inputs@.subrange(0, i + 1).last() == inputs@[i as int]);
        }
        if !contains_name(public_inputs, &inputs[i].name) {
            let ghost k = done.len() as int;
            proof {
                lemma_inputs_where_prefix(inputs@, public, false, i + 1);
                let after = inputs_where(inputs@.subrange(0, i + 1), public, false);
                assert(after == before.push(inputs@[i as int]));
                assert(inputs_where(inputs@, public, false)[before.len() as int] == after[before.len() as int]);
                assert(full[k] == privs[before.len() as int]);
                assert(full[k].0 == inputs@[i as int]);
                lemma_fit_at(full, k, bcs, buses);
            }
            let (wire, size) = place_wire(&inputs[i], SignalType::Input, local_id, dag_local_id, bus_connexions, buses_info);
            proof {
                lemma_step(result@, done, full, local_id, dag_local_id, wire, size, bcs, buses);
                let after = inputs_where(inputs@.subrange(0, i + 1), public, false);
                assert(after == before.push(inputs@[i as int]));
                assert(after.drop_last() =~= before);
                assert(tagged(after, SignalType::Input) == tagged(before, SignalType::Input).push((inputs@[i as int], SignalType::Input)));
                assert(full[k] == (inputs@[i as int], SignalType::Input));
                done = done.push(full[k]);
                assert(done =~= outs + pubs + tagged(after, SignalType::Input));
            }
            local_id = local_id + size;
            dag_local_id = dag_local_id + size;
            result.push(wire);
        }
        i = i + 1;
    }
    proof {
        assert(inputs@.subrange(0, inputs.len() as int) =~= inputs@);
        assert(intermediates@.subrange(0, 0) =~= Seq::<WireData>::empty());
        assert(done =~= outs + pubs + privs + tagged(intermediates@.subrange(0, 0), SignalType::Intermediate));
    }
    let mut i: usize = 0;
    while i < intermediates.len()
        invariant
            full == outs + pubs + privs + inters,
            inters == tagged(intermediates@, SignalType::Intermediate),
            inters.len() == intermediates.len(),
            forall|j: int| 0 <= j < intermediates.len() ==> #[trigger] inters[j] == (intermediates@[j], SignalType::Intermediate),
            wires_fit(full, bcs, buses),
            bcs == bus_connexions@,
            buses == buses_info@,
            i <= intermediates.len(),
            done == outs + pubs + privs + tagged(intermediates@.subrange(0, i as int), SignalType::Intermediate),
            progress(result@, done, full, local_id, dag_local_id, bcs, buses),
        decreases intermediates.len() - i,
    {
        let ghost k = done.len() as int;
        proof {
            lemma_tagged(intermediates@.subrange(0, i as int), SignalType::Intermediate);
            assert(full[k] == inters[i as int]);
            lemma_fit_at(full, k, bcs, buses);
        }
        let (wire, size) = place_wire(&intermediates[i], SignalType::Intermediate, local_id, dag_local_id, bus_connexions, buses_info);
        proof {
            lemma_step(result@, done, full, local_id, dag_local_id, wire, size, bcs, buses);
            assert(intermediates@.subrange(0, i + 1).drop_last() =~= intermediates@.subrange(0, i as int));
            done = done.push(full[k]);
            assert(done =~= outs + pubs + privs + tagged(intermediates@.subrange(0, i + 1), SignalType::Intermediate));
        }
        local_id = local_id + size;
        dag_local_id = dag_local_id + size;
        result.push(wire);
        i = i + 1;
    }
    proof {
        assert(intermediates@.subrange(0, intermediates.len() as int) =~= intermediates@);
        assert(done == full);
    }
    result
}

/// A wire of a fitting layout can be placed.
proof fn lemma_fit_at(full: Seq<(WireData, SignalType)>, k: int, bcs: Seq<BusConnexion>, buses: Seq<BusInstance>)
    requires
        wires_fit(full, bcs, buses),
        0 <= k < full.len(),
    ensures
        full[k].0.is_bus ==> 0 <= bus_index(bcs, full[k].0.name@) && bcs[bus_index(bcs, full[k].0.name@)].goes_to
            < buses.len(),
        forall|m: int| 0 <= m <= full[k].0.length.len() ==> #[trigger] scaled_product(
            element_size(full[k].0, bcs, buses),
            full[k].0.length@.subrange(0, m),
        ) <= usize::MAX,
{
}

/// The names of the elements of an array from dimension `dim` on, in
/// row-major order: `name[i][j]..`.
pub open spec fn element_names(name: Seq<char>, dims: Seq<usize>, dim: int) -> Seq<Seq<char>>
    decreases dims.len() - dim, 1nat, 0nat,
{
    if dim < 0 || dim >= dims.len() {
        seq![name]
    } else {
        indexed_names(name, dims, dim, dims[dim] as nat)
    }
}

/// The names of the elements whose index in dimension `dim` is below `k`.
pub open spec fn indexed_names(name: Seq<char>, dims: Seq<usize>, dim: int, k: nat) -> Seq<Seq<char>>
    decreases dims.len() - dim, 0nat, k,
{
    if dim < 0 || dim >= dims.len() || k == 0 {
        Seq::empty()
    } else {
        indexed_names(name, dims, dim, (k - 1) as nat) + element_names(
            name + "["@ + decimal_digits((k - 1) as nat) + "]"@,
            dims,
            dim + 1,
        )
    }
}

/// Whether a signal is a hint.
pub open spec fn is_hint(hints: Seq<String>, name: Seq<char>) -> bool {
    exists|i: int| 0 <= i < hints.len() && #[trigger] hints[i]@ == name
}

/// The kind of a signal in the report: 1 public input, 2 private input,
/// 3 derived, 4 derived hint, 5 output, 6 output hint.
pub open spec fn symbol_kind(signal_type: usize, hinted: bool) -> u8 {
    if signal_type == 1 {
        1
    } else if signal_type == 2 {
        2
    } else if signal_type == 3 {
        if hinted { 4 } else { 3 }
    } else {
        if hinted { 6 } else { 5 }
    }
}

/// A kind of signal that the report knows: inputs are never hints.
pub open spec fn reportable(signal_type: usize, hinted: bool) -> bool {
    ||| (signal_type == 1 || signal_type == 2) && !hinted
    ||| signal_type == 3
    ||| signal_type == 5
}

/// The report entries for the given signal names.
pub open spec fn symbol_entries(names: Seq<Seq<char>>, hints: Seq<String>, signal_type: usize) -> Seq<(Seq<char>, u8)> {
    names.map_values(|n: Seq<char>| (n, symbol_kind(signal_type, is_hint(hints, n))))
}

/// A report entry as plain values.
pub open spec fn entry_view(e: (String, u8)) -> (Seq<char>, u8) {
    (e.0@, e.1)
}

/// The element of an array being named: the name of the array alone, its
/// name so far with its indices, and the next dimension.
pub struct State {
    pub basic_name: String,
    pub name: String,
    pub dim: usize,
}

/// Whether the signal being named is public, its kind and its dimensions.
pub struct SignalConfig {
    pub is_public: bool,
    pub signal_type: usize,
    pub dimensions: Vec<usize>,
}

/// Whether a signal is a hint.
pub(crate) fn contains_hint(hints: &Vec<String>, name: &String) -> (r: bool)
    ensures
        r == is_hint(hints@, name@),
{
    let mut i: usize = 0;
    while i < hints.len()
        invariant
            i <= hints.len(),
            forall|j: int| 0 <= j < i ==> #[trigger] hints@[j]@ != name@,
        decreases hints.len() - i,
    {
        if hints[i] == *name {
            proof {
                assert(hints@[i as int]@ == name@);
            }
            return true;
        }
        i = i + 1;
    }
    false
}

/// `name[index]`.
pub(crate) fn indexed_name(name: &String, index: usize) -> (r: String)
    ensures
        r@ == name@ + "["@ + decimal_digits(index as nat) + "]"@,
{
    let mut s = name.clone();
    s.append("[");
    let digits = usize_decimal(index);
    s.append(digits.as_str());
    s.append("]");
    s
}

/// Appends a report entry for every element of the signal array: its full
/// name and its kind.
pub fn insert_symbols(result: &mut Vec<(String, u8)>, hints: &Vec<String>, state: State, config: &SignalConfig)
    requires
        state.dim <= config.dimensions.len(),
        forall|i: int| 0 <= i < element_names(state.name@, config.dimensions@, state.dim as int).len() ==> reportable(
            config.signal_type,
            #[trigger] is_hint(hints@, element_names(state.name@, config.dimensions@, state.dim as int)[i]),
        ),
    ensures
        final(result)@.map_values(|e: (String, u8)| entry_view(e)) == old(result)@.map_values(|e: (String, u8)| entry_view(e))
            + symbol_entries(element_names(state.name@, config.dimensions@, state.dim as int), hints@, config.signal_type),
    decreases config.dimensions.len() - state.dim,
{
    let ghost names = element_names(state.name@, config.dimensions@, state.dim as int);
    let ghost start = result@.map_values(|e: (String, u8)| entry_view(e));
    if state.dim == config.dimensions.len() {
        let hinted = contains_hint(hints, &state.name);
        proof {
            assert(names =~= seq![state.name@]);
            assert(reportable(config.signal_type, is_hint(hints@, names[0])));
        }
        let kind: u8 = if config.signal_type == 1 {
            1
        } else if config.signal_type == 2 {
            2
        } else if config.signal_type == 3 {
            if hinted { 4 } else { 3 }
        } else {
            if hinted { 6 } else { 5 }
        };
        result.push((state.name, kind));
        proof {
            assert(result@.map_values(|e: (String, u8)| entry_view(e)) =~= start + symbol_entries(names, hints@, config.signal_type));
        }
    } else {
        let ghost dims = config.dimensions@;
        let ghost dim = state.dim as int;
        let mut index: usize = 0;
        while index < config.dimensions[state.dim]
            invariant
                dims == config.dimensions@,
                dim == state.dim,
                0 <= dim < dims.len(),
                names == indexed_names(state.name@, dims, dim, dims[dim] as nat),
                index <= dims[dim],
                forall|i: int| 0 <= i < names.len() ==> reportable(config.signal_type, #[trigger] is_hint(hints@, names[i])),
                result@.map_values(|e: (String, u8)| entry_view(e)) == start + symbol_entries(
                    indexed_names(state.name@, dims, dim, index as nat),
                    hints@,
                    config.signal_type,
                ),
            decreases dims[dim] - index,
        {
            let new_state = State { basic_name: state.basic_name.clone(), name: indexed_name(&state.name, index), dim: state.dim + 1 };
            let ghost sub = element_names(new_state.name@, dims, dim + 1);
            let ghost done = indexed_names(state.name@, dims, dim, index as nat);
            proof {
                lemma_indexed_names_prefix(state.name@, dims, dim, (index + 1) as nat, dims[dim] as nat);
                assert(indexed_names(state.name@, dims, dim, (index + 1) as nat) == done + sub);
                assert forall|i: int| 0 <= i < sub.len() implies reportable(config.signal_type, #[trigger] is_hint(hints@, sub[i])) by {
                    assert(names[done.len() + i] == sub[i]);
                }
            }
            let ghost before = result@.map_values(|e: (String, u8)| entry_view(e));
            insert_symbols(result, hints, new_state, config);
            proof {
                assert(symbol_entries(done + sub, hints@, config.signal_type) =~= symbol_entries(done, hints@, config.signal_type) + symbol_entries(sub, hints@, config.signal_type));
            }
            index = index + 1;
        }
        proof {
            assert(names == indexed_names(state.name@, dims, dim, index as nat));
        }
    }
}

/// The names with an index below `j` come first among those below `k`.
pub(crate) proof fn lemma_indexed_names_prefix(name: Seq<char>, dims: Seq<usize>, dim: int, j: nat, k: nat)
    requires
        j <= k,
    ensures
        indexed_names(name, dims, dim, j).len() <= indexed_names(name, dims, dim, k).len(),
        forall|i: int| 0 <= i < indexed_names(name, dims, dim, j).len() ==> #[trigger] indexed_names(name, dims, dim, k)[i]
            == indexed_names(name, dims, dim, j)[i],
    decreases k - j,
{
    if j < k {
        lemma_indexed_names_prefix(name, dims, dim, j, (k - 1) as nat);
    }
}

/// The values of the expressions that are numbers, in order.
pub open spec fn number_values(es: Seq<ArithmeticExpression>) -> Seq<int>
    decreases es.len(),
{
    if es.len() == 0 {
        Seq::empty()
    } else {
        number_values(es.drop_last()) + match es.last() {
            ArithmeticExpression::Number { value, .. } => seq![value@],
            _ => Seq::empty(),
        }
    }
}

/// The numbers among the expressions (the values of a parameter), in
/// order; the other expressions are left out.
pub fn as_big_int(exprs: Vec<ArithmeticExpression>) -> (r: Vec<BigInt>)
    ensures
        r@.map_values(|b: BigInt| b@) == number_values(exprs@),
{
    let mut numbers: Vec<BigInt> = Vec::new();
    let mut i: usize = 0;
    while i < exprs.len()
        invariant
            i <= exprs.len(),
            numbers@.map_values(|b: BigInt| b@) == number_values(exprs@.subrange(0, i as int)),
        decreases exprs.len() - i,
    {
        proof {
            assert(exprs@.subrange(0, i + 1).drop_last() =~= exprs@.subrange(0, i as int));
        }
        let ghost before = numbers@;
        match &exprs[i] {
            ArithmeticExpression::Number { value, .. } => {
                numbers.push(value.clone());
                proof {
                    assert(numbers@.map_values(|b: BigInt| b@) =~= before.map_values(|b: BigInt| b@).push(numbers@.last()@));
                }
            },
            _ => {
                proof {
                    assert(numbers@.map_values(|b: BigInt| b@) =~= number_values(exprs@.subrange(0, i + 1)));
                }
            },
        }
        i = i + 1;
    }
    proof {
        assert(exprs@.subrange(0, i as int) =~= exprs@);
    }
    numbers
}

/// A list of names as plain values.
pub open spec fn name_list(s: Seq<String>) -> Seq<Seq<char>> {
    s.map_values(|n: String| n@)
}

/// No two entries have the same list of names.
pub open spec fn tag_keys_distinct(s: Seq<(Vec<String>, BigInt)>) -> bool {
    forall|i: int, j: int| 0 <= i < j < s.len() ==> name_list(#[trigger] s[i].0@) != name_list(#[trigger] s[j].0@)
}

/// Some entry has the list of names `k`.
pub open spec fn has_tag(s: Seq<(Vec<String>, BigInt)>, k: Seq<Seq<char>>) -> bool {
    exists|i: int| 0 <= i < s.len() && name_list(#[trigger] s[i].0@) == k
}

/// The map that the entries stand for: each list of names to its value.
pub open spec fn tags_map(s: Seq<(Vec<String>, BigInt)>) -> Map<Seq<Seq<char>>, int> {
    Map::new(
        |k: Seq<Seq<char>>| has_tag(s, k),
        |k: Seq<Seq<char>>| s[choose|i: int| 0 <= i < s.len() && name_list(#[trigger] s[i].0@) == k].1@,
    )
}

/// Whether two lists of names are the same.
fn same_names(a: &Vec<String>, b: &Vec<String>) -> (r: bool)
    ensures
        r == (name_list(a@) == name_list(b@)),
{
    if a.len() != b.len() {
        proof {
            assert(name_list(a@).len() != name_list(b@).len());
        }
        return false;
    }
    let mut i: usize = 0;
    while i < a.len()
        invariant
            a@.len() == b@.len(),
            i <= a@.len(),
            forall|j: int| 0 <= j < i ==> #[trigger] a@[j]@ == b@[j]@,
        decreases a@.len() - i,
    {
        if a[i] != b[i] {
            proof {
                assert(name_list(a@)[i as int] != name_list(b@)[i as int]);
            }
            return false;
        }
        i = i + 1;
    }
    proof {
        assert(name_list(a@) =~= name_list(b@));
    }
    true
}

/// In distinct entries, a list of names has one entry.
proof fn lemma_tag_unique(s: Seq<(Vec<String>, BigInt)>, i: int, j: int)
    requires
        tag_keys_distinct(s),
        0 <= i < s.len(),
        0 <= j < s.len(),
        name_list(s[i].0@) == name_list(s[j].0@),
    ensures
        i == j,
{
    if i < j {
        assert(name_list(s[i].0@) != name_list(s[j].0@));
    } else if j < i {
        assert(name_list(s[j].0@) != name_list(s[i].0@));
    }
}

/// Replacing the entry at `i` changes the map at its names alone.
proof fn lemma_tags_replaced(s: Seq<(Vec<String>, BigInt)>, t: Seq<(Vec<String>, BigInt)>, i: int, k: Seq<Seq<char>>, v: int)
    requires
        tag_keys_distinct(s),
        tag_keys_distinct(t),
        0 <= i < s.len(),
        t.len() == s.len(),
        name_list(s[i].0@) == k,
        name_list(t[i].0@) == k,
        t[i].1@ == v,
        forall|j: int| 0 <= j < s.len() && j != i ==> t[j] == s[j],
    ensures
        tags_map(t) == tags_map(s).insert(k, v),
{
    assert forall|n: Seq<Seq<char>>| has_tag(t, n) <==> has_tag(s, n) by {
        if has_tag(t, n) {
            let j = choose|j: int| 0 <= j < t.len() && name_list(#[trigger] t[j].0@) == n;
            if j == i {
                assert(name_list(s[i].0@) == n);
            } else {
                assert(name_list(s[j].0@) == n);
            }
        }
        if has_tag(s, n) {
            let j = choose|j: int| 0 <= j < s.len() && name_list(#[trigger] s[j].0@) == n;
            if j == i {
                assert(name_list(t[i].0@) == n);
            } else {
                assert(name_list(t[j].0@) == n);
            }
        }
    }
    assert forall|n: Seq<Seq<char>>| #[trigger] tags_map(t).contains_key(n) implies tags_map(t)[n] == tags_map(s).insert(k, v)[n] by {
        let j = choose|j: int| 0 <= j < t.len() && name_list(#[trigger] t[j].0@) == n;
        if j == i {
            lemma_tag_unique(t, i, j);
        } else {
            assert(s[j] == t[j]);
            let cj = choose|c: int| 0 <= c < t.len() && name_list(#[trigger] t[c].0@) == n;
            lemma_tag_unique(t, j, cj);
            let cs = choose|c: int| 0 <= c < s.len() && name_list(#[trigger] s[c].0@) == n;
            lemma_tag_unique(s, j, cs);
            if n == k {
                lemma_tag_unique(s, i, j);
            }
        }
        let c = choose|c: int| 0 <= c < t.len() && name_list(#[trigger] t[c].0@) == n;
        lemma_tag_unique(t, j, c);
    }
    assert(tags_map(t) =~= tags_map(s).insert(k, v));
}

/// An entry for a new list of names adds it to the map.
proof fn lemma_tags_added(s: Seq<(Vec<String>, BigInt)>, t: Seq<(Vec<String>, BigInt)>, k: Seq<Seq<char>>, v: int)
    requires
        tag_keys_distinct(s),
        tag_keys_distinct(t),
        t.len() == s.len() + 1,
        forall|j: int| 0 <= j < s.len() ==> t[j] == s[j],
        name_list(t[s.len() as int].0@) == k,
        t[s.len() as int].1@ == v,
    ensures
        tags_map(t) == tags_map(s).insert(k, v),
{
    let last = s.len() as int;
    assert forall|n: Seq<Seq<char>>| has_tag(t, n) <==> (has_tag(s, n) || n == k) by {
        if has_tag(t, n) {
            let j = choose|j: int| 0 <= j < t.len() && name_list(#[trigger] t[j].0@) == n;
            if j < last {
                assert(name_list(s[j].0@) == n);
            }
        }
        if has_tag(s, n) {
            let j = choose|j: int| 0 <= j < s.len() && name_list(#[trigger] s[j].0@) == n;
            assert(name_list(t[j].0@) == n);
        }
        if n == k {
            assert(name_list(t[last].0@) == n);
        }
    }
    assert forall|n: Seq<Seq<char>>| #[trigger] tags_map(t).contains_key(n) implies tags_map(t)[n] == tags_map(s).insert(k, v)[n] by {
        let c = choose|c: int| 0 <= c < t.len() && name_list(#[trigger] t[c].0@) == n;
        if c == last {
        } else {
            if n == k {
                lemma_tag_unique(t, c, last);
            }
            assert(s[c] == t[c]);
            let cs = choose|j: int| 0 <= j < s.len() && name_list(#[trigger] s[j].0@) == n;
            lemma_tag_unique(s, c, cs);
        }
    }
    assert(tags_map(t) =~= tags_map(s).insert(k, v));
}

} // verus!
