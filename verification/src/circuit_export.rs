//! The export of an executed template to the circuit: its header, the
//! clusters and triggers of its subcomponents, its component arrays and its
//! numbered wires, and the marks it leaves on the instances it runs.
use crate::ast::{SignalType, Statement};
use crate::bigint::{decimal_digits, BigInt};
use crate::executed_template::{
    as_big_int, build_clusters, clusters_ok, instance_wires, number_values, ParameterValue, occurs, ordered_wires, placed, size_before, wires_fit, Bus,
    BusInstance, ComponentData, Connexion, ExecutedTemplate, Signal, TemplateInstance, TriggerCluster, Wire,
};
use crate::text::usize_decimal;
use vstd::prelude::*;

verus! {

/// A component array as the circuit knows it.
pub struct Component {
    pub name: String,
    pub lengths: Vec<usize>,
    pub is_anonymous: bool,
}

/// A parameter of a template instance as the circuit knows it: its name,
/// its dimensions, and the numbers among its values.
pub struct Argument {
    pub name: String,
    pub lengths: Vec<usize>,
    pub values: Vec<BigInt>,
}

/// The arguments of the parameters, one for each, in order: each with the
/// parameter's name and dimensions and the numbers among its values.
pub open spec fn arguments_ok(r: Seq<Argument>, ps: Seq<(String, ParameterValue)>) -> bool {
    &&& r.len() == ps.len()
    &&& forall|i: int| 0 <= i < r.len() ==> #[trigger] r[i].name == ps[i].0 && r[i].lengths == ps[i].1.lengths
        && r[i].values@.map_values(|b: BigInt| b@) == number_values(ps[i].1.values@)
}

/// The arguments of the parameters of a template instance.
pub fn build_arguments(parameter_instances: Vec<(String, ParameterValue)>) -> (r: Vec<Argument>)
    ensures
        arguments_ok(r@, parameter_instances@),
{
    let ghost ps = parameter_instances@;
    let n = parameter_instances.len();
    let mut rest = parameter_instances;
    let mut arguments: Vec<Argument> = Vec::new();
    let mut i: usize = 0;
    while rest.len() > 0
        invariant
            ps.len() == n,
            i <= n,
            rest@ == ps.subrange(i as int, n as int),
            arguments@.len() == i,
            forall|j: int| 0 <= j < i ==> #[trigger] arguments@[j].name == ps[j].0 && arguments@[j].lengths == ps[j].1.lengths
                && arguments@[j].values@.map_values(|b: BigInt| b@) == number_values(ps[j].1.values@),
        decreases rest@.len(),
    {
        assert(i < n);
        let (name, value) = rest.remove(0);
        assert((name, value) == ps[i as int]);
        let argument = Argument { name, lengths: value.lengths, values: as_big_int(value.values) };
        arguments.push(argument);
        i = i + 1;
        proof {
            assert(rest@ =~= ps.subrange(i as int, n as int));
        }
    }
    assert(rest@.len() == n - i);
    arguments
}

/// What runs a subcomponent: where it starts in the graph, its name and
/// indices, whether it runs in parallel, the template instance it runs
/// (header and id), the wires of that instance that are not intermediate,
/// and whether that instance has inputs.
pub struct Trigger {
    pub offset: usize,
    pub component_offset: usize,
    pub component_name: String,
    pub indexed_with: Vec<usize>,
    pub is_parallel: bool,
    pub runs: String,
    pub template_id: usize,
    pub external_wires: Vec<Wire>,
    pub has_inputs: bool,
}

/// What the export of a template gives the circuit: the configuration of
/// its instance (with its arguments, its code and the values of the tags of its signals),
/// and its wires
/// in the order the instance takes them.
pub struct CircuitTemplate {
    pub header: String,
    pub clusters: Vec<TriggerCluster>,
    pub triggers: Vec<Trigger>,
    pub arguments: Vec<Argument>,
    pub components: Vec<Component>,
    pub id: usize,
    pub is_parallel: bool,
    pub has_parallel_sub_cmp: bool,
    pub code: Statement,
    pub name: String,
    pub number_of_components: usize,
    pub signals_to_tags: Vec<(Vec<String>, BigInt)>,
    pub is_extern_c: bool,
    pub wires: Vec<Wire>,
}

/// The direction of a wire.
pub open spec fn wire_xtype(w: Wire) -> SignalType {
    match w {
        Wire::TSignal(s) => s.xtype,
        Wire::TBus(b) => b.xtype,
    }
}

/// Two wires hold the same values.
pub open spec fn same_wire(a: Wire, b: Wire) -> bool {
    match (a, b) {
        (Wire::TSignal(x), Wire::TSignal(y)) => x.name@ == y.name@ && x.lengths@ == y.lengths@ && x.local_id == y.local_id
            && x.dag_local_id == y.dag_local_id && x.xtype == y.xtype && x.size == y.size,
        (Wire::TBus(x), Wire::TBus(y)) => x.name@ == y.name@ && x.lengths@ == y.lengths@ && x.local_id == y.local_id
            && x.dag_local_id == y.dag_local_id && x.bus_id == y.bus_id && x.size == y.size && x.xtype == y.xtype,
        _ => false,
    }
}

/// The wires that are not intermediate, in order.
pub open spec fn external_wires(ws: Seq<Wire>) -> Seq<Wire>
    decreases ws.len(),
{
    if ws.len() == 0 {
        Seq::empty()
    } else {
        external_wires(ws.drop_last()) + if wire_xtype(ws.last()) != SignalType::Intermediate {
            seq![ws.last()]
        } else {
            Seq::empty()
        }
    }
}

/// Some connexion reaches the instance `i`, in parallel (`parallel`) or
/// not.
pub open spec fn reached(cs: Seq<Connexion>, i: int, parallel: bool) -> bool {
    exists|k: int| 0 <= k < cs.len() && #[trigger] cs[k].inspect.goes_to == i && cs[k].inspect.is_parallel == parallel
}

/// The instances after the connexions have marked them: an instance is run
/// in parallel, or not, where some connexion reaches it so; nothing else
/// changes.
pub open spec fn marked(before: Seq<TemplateInstance>, after: Seq<TemplateInstance>, cs: Seq<Connexion>) -> bool {
    &&& after.len() == before.len()
    &&& forall|i: int| 0 <= i < after.len() ==> #[trigger] after[i] == (TemplateInstance {
        is_parallel_component: before[i].is_parallel_component || reached(cs, i, true),
        is_not_parallel_component: before[i].is_not_parallel_component || reached(cs, i, false),
        ..before[i]
    })
}

/// The trigger of a connexion to a subcomponent that runs `instance`.
pub open spec fn trigger_of(t: Trigger, c: Connexion, instance: TemplateInstance) -> bool {
    &&& t.offset == c.dag_offset
    &&& t.component_offset == c.dag_component_offset
    &&& t.component_name@ == c.inspect.name@
    &&& t.indexed_with@ == c.inspect.indexed_with@
    &&& t.is_parallel == (c.inspect.is_parallel || instance.is_parallel)
    &&& t.runs@ == instance.template_header@
    &&& t.template_id == c.inspect.goes_to
    &&& t.external_wires@.len() == external_wires(instance.wires@).len()
    &&& forall|j: int| 0 <= j < t.external_wires@.len() ==> same_wire(#[trigger] t.external_wires@[j], external_wires(instance.wires@)[j])
    &&& t.has_inputs == (instance.number_of_inputs > 0)
}

/// The triggers of the connexions, one for each, in order.
pub open spec fn triggers_ok(ts: Seq<Trigger>, cs: Seq<Connexion>, instances: Seq<TemplateInstance>) -> bool {
    &&& ts.len() == cs.len()
    &&& forall|k: int| 0 <= k < ts.len() ==> trigger_of(#[trigger] ts[k], cs[k], instances[cs[k].inspect.goes_to as int])
}

/// The header of an instance: the template's name, `_`, and its id.
pub open spec fn header_text(name: Seq<char>, id: nat) -> Seq<char> {
    name + "_"@ + decimal_digits(id)
}

/// A copy of a wire.
fn copy_wire(w: &Wire) -> (r: Wire)
    ensures
        same_wire(r, *w),
{
    match w {
        Wire::TSignal(s) => Wire::TSignal(
            Signal {
                name: s.name.clone(),
                lengths: vstd::slice::slice_to_vec(s.lengths.as_slice()),
                local_id: s.local_id,
                dag_local_id: s.dag_local_id,
                xtype: s.xtype,
                size: s.size,
            },
        ),
        Wire::TBus(b) => Wire::TBus(
            Bus {
                name: b.name.clone(),
                lengths: vstd::slice::slice_to_vec(b.lengths.as_slice()),
                local_id: b.local_id,
                dag_local_id: b.dag_local_id,
                bus_id: b.bus_id,
                size: b.size,
                xtype: b.xtype,
            },
        ),
    }
}

/// Copies of the wires that are not intermediate.
fn copy_external_wires(ws: &Vec<Wire>) -> (r: Vec<Wire>)
    ensures
        r@.len() == external_wires(ws@).len(),
        forall|j: int| 0 <= j < r@.len() ==> same_wire(#[trigger] r@[j], external_wires(ws@)[j]),
{
    let mut r: Vec<Wire> = Vec::new();
    let mut i: usize = 0;
    while i < ws.len()
        invariant
            i <= ws.len(),
            r@.len() == external_wires(ws@.subrange(0, i as int)).len(),
            forall|j: int| 0 <= j < r@.len() ==> same_wire(#[trigger] r@[j], external_wires(ws@.subrange(0, i as int))[j]),
        decreases ws.len() - i,
    {
        proof {
            assert(ws@.subrange(0, i + 1).drop_last() =~= ws@.subrange(0, i as int));
        }
        let external = match &ws[i] {
            Wire::TSignal(s) => s.xtype != SignalType::Intermediate,
            Wire::TBus(b) => b.xtype != SignalType::Intermediate,
        };
        if external {
            let w = copy_wire(&ws[i]);
            r.push(w);
        }
        proof {
            let prev = external_wires(ws@.subrange(0, i as int));
            let next = external_wires(ws@.subrange(0, i + 1));
            assert forall|j: int| 0 <= j < r@.len() implies same_wire(#[trigger] r@[j], next[j]) by {
                if j < prev.len() {
                    assert(next[j] == prev[j]);
                }
            }
        }
        i = i + 1;
    }
    proof {
        assert(ws@.subrange(0, i as int) =~= ws@);
    }
    r
}

/// The triggers of the connexions, in order; each connexion marks the
/// instance it reaches as run in parallel, or not.
pub fn build_triggers(instances: &mut Vec<TemplateInstance>, connexions: Vec<Connexion>) -> (r: Vec<Trigger>)
    requires
        forall|k: int| 0 <= k < connexions@.len() ==> #[trigger] connexions@[k].inspect.goes_to < old(instances)@.len(),
    ensures
        marked(old(instances)@, final(instances)@, connexions@),
        triggers_ok(r@, connexions@, final(instances)@),
{
    let ghost start = instances@;
    let ghost cs = connexions@;
    let mut triggers: Vec<Trigger> = Vec::new();
    let mut k: usize = 0;
    while k < connexions.len()
        invariant
            k <= cs.len(),
            cs == connexions@,
            forall|j: int| 0 <= j < cs.len() ==> #[trigger] cs[j].inspect.goes_to < start.len(),
            marked(start, instances@, cs.subrange(0, k as int)),
            triggers@.len() == k,
            forall|j: int| 0 <= j < k ==> trigger_of(#[trigger] triggers@[j], cs[j], instances@[cs[j].inspect.goes_to as int]),
        decreases cs.len() - k,
    {
        let data = &connexions[k].inspect;
        let g = data.goes_to;
        assert(cs[k as int].inspect.goes_to < start.len());
        let ghost before = instances@;
        let parallel = instances[g].is_parallel_component || data.is_parallel;
        let not_parallel = instances[g].is_not_parallel_component || !data.is_parallel;
        instances[g].is_parallel_component = parallel;
        instances[g].is_not_parallel_component = not_parallel;
        proof {
            let pre = cs.subrange(0, k as int);
            let post = cs.subrange(0, k + 1);
            assert forall|i: int| 0 <= i < instances@.len() implies #[trigger] instances@[i] == (TemplateInstance {
                is_parallel_component: start[i].is_parallel_component || reached(post, i, true),
                is_not_parallel_component: start[i].is_not_parallel_component || reached(post, i, false),
                ..start[i]
            }) by {
                assert(before[i] == (TemplateInstance {
                    is_parallel_component: start[i].is_parallel_component || reached(pre, i, true),
                    is_not_parallel_component: start[i].is_not_parallel_component || reached(pre, i, false),
                    ..start[i]
                }));
                assert forall|p: bool| reached(pre, i, p) implies reached(post, i, p) by {
                    let j = choose|j: int| 0 <= j < pre.len() && #[trigger] pre[j].inspect.goes_to == i && pre[j].inspect.is_parallel == p;
                    assert(post[j] == pre[j]);
                }
                assert(post[k as int] == cs[k as int]);
                assert forall|p: bool| reached(post, i, p) implies reached(pre, i, p) || (i == g && data.is_parallel == p) by {
                    let j = choose|j: int| 0 <= j < post.len() && #[trigger] post[j].inspect.goes_to == i && post[j].inspect.is_parallel == p;
                    if j < k {
                        assert(pre[j] == post[j]);
                    }
                }
            }
        }
        let instance = &instances[g];
        let trigger = Trigger {
            offset: connexions[k].dag_offset,
            component_offset: connexions[k].dag_component_offset,
            component_name: data.name.clone(),
            indexed_with: vstd::slice::slice_to_vec(data.indexed_with.as_slice()),
            is_parallel: data.is_parallel || instance.is_parallel,
            runs: instance.template_header.clone(),
            template_id: g,
            external_wires: copy_external_wires(&instance.wires),
            has_inputs: instance.number_of_inputs > 0,
        };
        triggers.push(trigger);
        proof {
            assert forall|j: int| 0 <= j < k + 1 implies trigger_of(#[trigger] triggers@[j], cs[j], instances@[cs[j].inspect.goes_to as int]) by {
                let h = cs[j].inspect.goes_to as int;
                assert(instances@[h].template_header == before[h].template_header);
                assert(instances@[h].wires == before[h].wires);
                assert(instances@[h].is_parallel == before[h].is_parallel);
                assert(instances@[h].number_of_inputs == before[h].number_of_inputs);
            }
        }
        k = k + 1;
    }
    proof {
        assert(cs.subrange(0, k as int) =~= cs);
    }
    triggers
}

/// The component arrays as the circuit knows them.
pub fn build_components(components: Vec<ComponentData>) -> (r: Vec<Component>)
    ensures
        r@.len() == components@.len(),
        forall|i: int| 0 <= i < r@.len() ==> #[trigger] r@[i].name@ == components@[i].name@ && r@[i].lengths@
            == components@[i].length@ && r@[i].is_anonymous == components@[i].is_anonymous,
{
    let mut built: Vec<Component> = Vec::new();
    let mut i: usize = 0;
    while i < components.len()
        invariant
            i <= components@.len(),
            built@.len() == i,
            forall|j: int| 0 <= j < i ==> #[trigger] built@[j].name@ == components@[j].name@ && built@[j].lengths@
                == components@[j].length@ && built@[j].is_anonymous == components@[j].is_anonymous,
        decreases components@.len() - i,
    {
        let c = &components[i];
        let component = Component {
            name: c.name.clone(),
            lengths: vstd::slice::slice_to_vec(c.length.as_slice()),
            is_anonymous: c.is_anonymous,
        };
        let ghost before = built@;
        built.push(component);
        proof {
            assert forall|j: int| 0 <= j < i + 1 implies #[trigger] built@[j].name@ == components@[j].name@ && built@[j].lengths@
                == components@[j].length@ && built@[j].is_anonymous == components@[j].is_anonymous by {
                if j < i {
                    assert(built@[j] == before[j]);
                }
            }
        }
        i = i + 1;
    }
    built
}

impl ExecutedTemplate {
    /// Exports the template as the next instance of the circuit: its
    /// header (`name_id`, with the number of instances so far), the
    /// clusters of its component arrays, the triggers of its connexions
    /// (which mark the instances they reach), its component arrays, and its
    /// wires numbered in order: outputs, public inputs, other inputs,
    /// intermediates.
    pub fn export_to_circuit(self, instances: &mut Vec<TemplateInstance>, buses_info: &Vec<BusInstance>) -> (r: CircuitTemplate)
        requires
            forall|i: int| 0 <= i < self.connexions@.len() ==> #[trigger] self.connexions@[i].inspect.goes_to < old(instances)@.len(),
            forall|i: int| 0 <= i < self.components@.len() ==> occurs(self.connexions@, #[trigger] self.components@[i].name@),
            forall|i: int, j: int|
                0 <= i < j < self.components@.len() ==> #[trigger] self.components@[i].name@ != #[trigger] self.components@[j].name@,
            wires_fit(
                ordered_wires(self.outputs@, self.inputs@, self.intermediates@, self.public_inputs@),
                self.bus_connexions@,
                buses_info@,
            ),
        ensures
            r.header@ == header_text(self.template_name@, old(instances)@.len()),
            clusters_ok(r.clusters@, self.components@, self.connexions@, old(instances)@),
            marked(old(instances)@, final(instances)@, self.connexions@),
            triggers_ok(r.triggers@, self.connexions@, final(instances)@),
            arguments_ok(r.arguments@, self.parameter_instances@),
            r.components@.len() == self.components@.len(),
            forall|i: int| 0 <= i < r.components@.len() ==> #[trigger] r.components@[i].name@ == self.components@[i].name@
                && r.components@[i].lengths@ == self.components@[i].length@ && r.components@[i].is_anonymous
                == self.components@[i].is_anonymous,
            r.id == old(instances)@.len(),
            r.is_parallel == self.is_parallel,
            r.has_parallel_sub_cmp == self.has_parallel_sub_cmp,
            r.code == self.code,
            r.name == self.template_name,
            r.number_of_components == self.number_of_components,
            r.signals_to_tags == self.signal_to_tags,
            r.is_extern_c == self.is_extern_c,
            ({
                let ws = ordered_wires(self.outputs@, self.inputs@, self.intermediates@, self.public_inputs@);
                &&& r.wires@.len() == ws.len()
                &&& forall|i: int| 0 <= i < ws.len() ==> placed(
                    #[trigger] r.wires@[i],
                    ws[i].0,
                    ws[i].1,
                    size_before(ws, i, self.bus_connexions@, buses_info@),
                    self.bus_connexions@,
                    buses_info@,
                )
            }),
    {
        let id = instances.len();
        let mut header = self.template_name.clone();
        header.append("_");
        let digits = usize_decimal(id);
        header.append(digits.as_str());
        let clusters = build_clusters(&self, instances);
        let wires = instance_wires(
            &self.outputs,
            &self.inputs,
            &self.intermediates,
            &self.public_inputs,
            &self.bus_connexions,
            buses_info,
        );
        let triggers = build_triggers(instances, self.connexions);
        let components_out = build_components(self.components);
        let arguments = build_arguments(self.parameter_instances);
        CircuitTemplate {
            header,
            clusters,
            triggers,
            arguments,
            components: components_out,
            id,
            is_parallel: self.is_parallel,
            has_parallel_sub_cmp: self.has_parallel_sub_cmp,
            code: self.code,
            name: self.template_name,
            number_of_components: self.number_of_components,
            signals_to_tags: self.signal_to_tags,
            is_extern_c: self.is_extern_c,
            wires,
        }
    }
}

} // verus!
