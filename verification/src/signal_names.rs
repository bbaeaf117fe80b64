//! The names of the single signals of a template: every element of each
//! signal array, and, for a bus, every signal of every field of every
//! element, down through nested buses.
use crate::executed_template::{
    bus_index, contains_hint, element_names, find_bus, indexed_name, is_hint, reportable, symbol_entries, symbol_kind,
    entry_view, BusConnexion, SignalConfig, State, WireData,
};
use crate::bigint::decimal_digits;
use vstd::prelude::*;

verus! {

/// A bus as executed: its fields, and the buses that its bus fields are
/// connected to.
pub struct ExecutedBus {
    pub fields: Vec<WireData>,
    pub bus_connexions: Vec<BusConnexion>,
}

/// The wire `basic` has a bus connexion, to a bus that exists.
pub open spec fn bus_found(bcs: Seq<BusConnexion>, basic: Seq<char>, buses: Seq<ExecutedBus>) -> bool {
    0 <= bus_index(bcs, basic) && bcs[bus_index(bcs, basic)].goes_to < buses.len()
}

/// The bus that the wire `basic` is connected to.
pub open spec fn bus_of(bcs: Seq<BusConnexion>, basic: Seq<char>, buses: Seq<ExecutedBus>) -> ExecutedBus {
    buses[bcs[bus_index(bcs, basic)].goes_to as int]
}

/// Naming the signals of the bus wire `basic` from dimension `dim` on
/// finds every bus it looks up, and goes no deeper than `fuel` nested
/// buses.
pub open spec fn bus_walk_ok(
    basic: Seq<char>,
    dims: Seq<usize>,
    dim: int,
    bcs: Seq<BusConnexion>,
    buses: Seq<ExecutedBus>,
    fuel: nat,
) -> bool
    decreases fuel, dims.len() - dim, 1nat, 0nat,
{
    &&& bus_found(bcs, basic, buses)
    &&& 0 <= dim <= dims.len()
    &&& dim == dims.len() ==> fields_walk_ok(
        bus_of(bcs, basic, buses).fields@,
        bus_of(bcs, basic, buses).bus_connexions@,
        buses,
        fuel,
        bus_of(bcs, basic, buses).fields.len() as nat,
    )
    &&& dim < dims.len() && dims[dim] > 0 ==> bus_walk_ok(basic, dims, dim + 1, bcs, buses, fuel)
}

/// Naming the signals of the first `k` fields of a bus finds every bus it
/// looks up, and goes no deeper than `fuel` nested buses.
pub open spec fn fields_walk_ok(
    fields: Seq<WireData>,
    bcs: Seq<BusConnexion>,
    buses: Seq<ExecutedBus>,
    fuel: nat,
    k: nat,
) -> bool
    decreases fuel, 0int, 0nat, k,
{
    if k == 0 || k > fields.len() {
        true
    } else {
        &&& fields_walk_ok(fields, bcs, buses, fuel, (k - 1) as nat)
        &&& fields[k - 1].is_bus ==> fuel > 0 && bus_walk_ok(
            fields[k - 1].name@,
            fields[k - 1].length@,
            0,
            bcs,
            buses,
            (fuel - 1) as nat,
        )
    }
}

/// The names of the signals of the bus wire `basic`, named `name` so far,
/// from dimension `dim` on: for each element in row-major order, each field
/// in order, as `element.field` and the names within it.
pub open spec fn bus_leaf_names(
    name: Seq<char>,
    basic: Seq<char>,
    dims: Seq<usize>,
    dim: int,
    bcs: Seq<BusConnexion>,
    buses: Seq<ExecutedBus>,
    fuel: nat,
) -> Seq<Seq<char>>
    decreases fuel, dims.len() - dim, 2nat, 0nat,
{
    if dim < 0 || dim > dims.len() || !bus_found(bcs, basic, buses) {
        Seq::empty()
    } else if dim == dims.len() {
        field_leaf_names(
            name,
            bus_of(bcs, basic, buses).fields@,
            bus_of(bcs, basic, buses).bus_connexions@,
            buses,
            fuel,
            bus_of(bcs, basic, buses).fields.len() as nat,
        )
    } else {
        indexed_bus_leaf_names(name, basic, dims, dim, bcs, buses, fuel, dims[dim] as nat)
    }
}

/// The names of the signals of the elements whose index in dimension `dim`
/// is below `k`.
pub open spec fn indexed_bus_leaf_names(
    name: Seq<char>,
    basic: Seq<char>,
    dims: Seq<usize>,
    dim: int,
    bcs: Seq<BusConnexion>,
    buses: Seq<ExecutedBus>,
    fuel: nat,
    k: nat,
) -> Seq<Seq<char>>
    decreases fuel, dims.len() - dim, 1nat, k,
{
    if dim < 0 || dim >= dims.len() || k == 0 {
        Seq::empty()
    } else {
        indexed_bus_leaf_names(name, basic, dims, dim, bcs, buses, fuel, (k - 1) as nat) + bus_leaf_names(
            name + "["@ + decimal_digits((k - 1) as nat) + "]"@,
            basic,
            dims,
            dim + 1,
            bcs,
            buses,
            fuel,
        )
    }
}

/// The names of the signals of the first `k` fields of one bus element.
pub open spec fn field_leaf_names(
    element: Seq<char>,
    fields: Seq<WireData>,
    bcs: Seq<BusConnexion>,
    buses: Seq<ExecutedBus>,
    fuel: nat,
    k: nat,
) -> Seq<Seq<char>>
    decreases fuel, 0int, 1nat, k,
{
    if k == 0 || k > fields.len() {
        Seq::empty()
    } else {
        let f = fields[k - 1];
        let field_name = element + "."@ + f.name@;
        field_leaf_names(element, fields, bcs, buses, fuel, (k - 1) as nat) + if f.is_bus {
            if fuel == 0 {
                Seq::empty()
            } else {
                bus_leaf_names(field_name, f.name@, f.length@, 0, bcs, buses, (fuel - 1) as nat)
            }
        } else {
            element_names(field_name, f.length@, 0)
        }
    }
}

/// The names as plain values.
pub open spec fn name_views(s: Seq<String>) -> Seq<Seq<char>> {
    s.map_values(|n: String| n@)
}

/// What holds of all fields holds of the first `k`.
proof fn lemma_fields_walk_prefix(fields: Seq<WireData>, bcs: Seq<BusConnexion>, buses: Seq<ExecutedBus>, fuel: nat, k: nat, n: nat)
    requires
        fields_walk_ok(fields, bcs, buses, fuel, n),
        k <= n <= fields.len(),
    ensures
        fields_walk_ok(fields, bcs, buses, fuel, k),
        k < n ==> (fields[k as int].is_bus ==> fuel > 0 && bus_walk_ok(
            fields[k as int].name@,
            fields[k as int].length@,
            0,
            bcs,
            buses,
            (fuel - 1) as nat,
        )),
    decreases n - k,
{
    if k < n {
        lemma_fields_walk_prefix(fields, bcs, buses, fuel, k + 1, n);
    }
}

/// `element.field`.
fn dotted_name(element: &String, field: &String) -> (r: String)
    ensures
        r@ == element@ + "."@ + field@,
{
    let mut s = element.clone();
    s.append(".");
    s.append(field.as_str());
    s
}

/// Appends the names of the elements of a signal array, in row-major
/// order: the signals in the order the circuit lists them.
pub fn generate_ordered_symbols(names: &mut Vec<String>, state: State, dimensions: &Vec<usize>)
    requires
        state.dim <= dimensions.len(),
    ensures
        name_views(final(names)@) == name_views(old(names)@) + element_names(state.name@, dimensions@, state.dim as int),
    decreases dimensions.len() - state.dim,
{
    let ghost start = name_views(names@);
    if state.dim == dimensions.len() {
        names.push(state.name);
        proof {
            assert(name_views(names@) =~= start + element_names(state.name@, dimensions@, state.dim as int));
        }
    } else {
        let ghost dims = dimensions@;
        let ghost dim = state.dim as int;
        let mut index: usize = 0;
        while index < dimensions[state.dim]
            invariant
                dims == dimensions@,
                dim == state.dim,
                0 <= dim < dims.len(),
                index <= dims[dim],
                name_views(names@) == start + crate::executed_template::indexed_names(state.name@, dims, dim, index as nat),
            decreases dims[dim] - index,
        {
            let new_state = State { basic_name: state.basic_name.clone(), name: indexed_name(&state.name, index), dim: state.dim + 1 };
            let ghost sub = element_names(new_state.name@, dims, dim + 1);
            let ghost done = crate::executed_template::indexed_names(state.name@, dims, dim, index as nat);
            generate_ordered_symbols(names, new_state, dimensions);
            proof {
                assert(crate::executed_template::indexed_names(state.name@, dims, dim, (index + 1) as nat) == done + sub);
                assert(start + done + sub =~= start + (done + sub));
            }
            index = index + 1;
        }
    }
}

/// Appends the names of the signals of a bus array: for each element in
/// row-major order, each field of the bus in order, `element.field`, and
/// within a bus field the names of its own signals.
pub(crate) fn generate_ordered_bus_symbols(
    names: &mut Vec<String>,
    state: State,
    dimensions: &Vec<usize>,
    bus_connexions: &Vec<BusConnexion>,
    buses: &Vec<ExecutedBus>,
    Ghost(fuel): Ghost<nat>,
)
    requires
        bus_walk_ok(state.basic_name@, dimensions@, state.dim as int, bus_connexions@, buses@, fuel),
    ensures
        name_views(final(names)@) == name_views(old(names)@) + bus_leaf_names(
            state.name@,
            state.basic_name@,
            dimensions@,
            state.dim as int,
            bus_connexions@,
            buses@,
            fuel,
        ),
    decreases fuel, dimensions.len() - state.dim,
{
    let ghost start = name_views(names@);
    let ghost dims = dimensions@;
    let ghost dim = state.dim as int;
    let found = find_bus(bus_connexions, &state.basic_name);
    let b = match found {
        Some(b) => b,
        None => {
            proof {
                assert(false);
            }
            0
        },
    };
    let bus = &buses[bus_connexions[b].goes_to];
    if state.dim == dimensions.len() {
        let ghost fields = bus.fields@;
        let ghost bcs = bus.bus_connexions@;
        let mut k: usize = 0;
        while k < bus.fields.len()
            invariant
                fields == bus.fields@,
                bcs == bus.bus_connexions@,
                *bus == bus_of(bus_connexions@, state.basic_name@, buses@),
                k <= fields.len(),
                fields_walk_ok(fields, bcs, buses@, fuel, fields.len() as nat),
                name_views(names@) == start + field_leaf_names(state.name@, fields, bcs, buses@, fuel, k as nat),
            decreases fields.len() - k,
        {
            let field = &bus.fields[k];
            let signal_name = dotted_name(&state.name, &field.name);
            let ghost done = field_leaf_names(state.name@, fields, bcs, buses@, fuel, k as nat);
            proof {
                lemma_fields_walk_prefix(fields, bcs, buses@, fuel, k as nat, fields.len() as nat);
            }
            if field.is_bus {
                let sub_state = State { basic_name: field.name.clone(), name: signal_name, dim: 0 };
                generate_ordered_bus_symbols(names, sub_state, &field.length, &bus.bus_connexions, buses, Ghost((fuel - 1) as nat));
            } else {
                let sub_state = State { basic_name: field.name.clone(), name: signal_name, dim: 0 };
                generate_ordered_symbols(names, sub_state, &field.length);
            }
            proof {
                let piece = if fields[k as int].is_bus {
                    bus_leaf_names(state.name@ + "."@ + fields[k as int].name@, fields[k as int].name@, fields[k as int].length@, 0, bcs, buses@, (fuel - 1) as nat)
                } else {
                    element_names(state.name@ + "."@ + fields[k as int].name@, fields[k as int].length@, 0)
                };
                assert(field_leaf_names(state.name@, fields, bcs, buses@, fuel, (k + 1) as nat) == done + piece);
                assert(start + done + piece =~= start + (done + piece));
            }
            k = k + 1;
        }
    } else {
        let mut index: usize = 0;
        while index < dimensions[state.dim]
            invariant
                dims == dimensions@,
                dim == state.dim,
                0 <= dim < dims.len(),
                index <= dims[dim],
                bus_walk_ok(state.basic_name@, dims, dim, bus_connexions@, buses@, fuel),
                name_views(names@) == start + indexed_bus_leaf_names(
                    state.name@,
                    state.basic_name@,
                    dims,
                    dim,
                    bus_connexions@,
                    buses@,
                    fuel,
                    index as nat,
                ),
            decreases dims[dim] - index,
        {
            let new_state = State { basic_name: state.basic_name.clone(), name: indexed_name(&state.name, index), dim: state.dim + 1 };
            let ghost done = indexed_bus_leaf_names(state.name@, state.basic_name@, dims, dim, bus_connexions@, buses@, fuel, index as nat);
            let ghost sub = bus_leaf_names(new_state.name@, state.basic_name@, dims, dim + 1, bus_connexions@, buses@, fuel);
            generate_ordered_bus_symbols(names, new_state, dimensions, bus_connexions, buses, Ghost(fuel));
            proof {
                assert(indexed_bus_leaf_names(state.name@, state.basic_name@, dims, dim, bus_connexions@, buses@, fuel, (index + 1) as nat) == done + sub);
                assert(start + done + sub =~= start + (done + sub));
            }
            index = index + 1;
        }
    }
}

/// The names of the signals of a bus array, following nested buses at most
/// as deep as there are buses (as deep as any chain of nested buses goes
/// when no bus contains itself).
pub open spec fn bus_signal_names(
    name: Seq<char>,
    basic: Seq<char>,
    dims: Seq<usize>,
    dim: int,
    bcs: Seq<BusConnexion>,
    buses: Seq<ExecutedBus>,
) -> Seq<Seq<char>> {
    bus_leaf_names(name, basic, dims, dim, bcs, buses, buses.len())
}

/// Naming the signals of a bus array finds every bus it looks up, and no
/// chain of nested buses is longer than the number of buses (so none
/// contains itself).
pub open spec fn bus_names_resolve(
    basic: Seq<char>,
    dims: Seq<usize>,
    dim: int,
    bcs: Seq<BusConnexion>,
    buses: Seq<ExecutedBus>,
) -> bool {
    bus_walk_ok(basic, dims, dim, bcs, buses, buses.len())
}

/// The kind of a signal in the report.
fn kind_of(signal_type: usize, hinted: bool) -> (r: u8)
    ensures
        r == symbol_kind(signal_type, hinted),
{
    if signal_type == 1 {
        1
    } else if signal_type == 2 {
        2
    } else if signal_type == 3 {
        if hinted { 4 } else { 3 }
    } else {
        if hinted { 6 } else { 5 }
    }
}

/// Appends a report entry for every signal of a bus array: its full name
/// (`element.field`, down through nested buses) and its kind.
pub fn insert_bus_symbols(
    result: &mut Vec<(String, u8)>,
    hints: &Vec<String>,
    state: State,
    config: &SignalConfig,
    bus_connexions: &Vec<BusConnexion>,
    buses: &Vec<ExecutedBus>,
)
    requires
        bus_names_resolve(state.basic_name@, config.dimensions@, state.dim as int, bus_connexions@, buses@),
        forall|i: int| 0 <= i < bus_signal_names(state.name@, state.basic_name@, config.dimensions@, state.dim as int, bus_connexions@, buses@).len()
            ==> reportable(
            config.signal_type,
            #[trigger] is_hint(hints@, bus_signal_names(state.name@, state.basic_name@, config.dimensions@, state.dim as int, bus_connexions@, buses@)[i]),
        ),
    ensures
        final(result)@.map_values(|e: (String, u8)| entry_view(e)) == old(result)@.map_values(|e: (String, u8)| entry_view(e))
            + symbol_entries(
            bus_signal_names(state.name@, state.basic_name@, config.dimensions@, state.dim as int, bus_connexions@, buses@),
            hints@,
            config.signal_type,
        ),
{
    let ghost all = bus_signal_names(state.name@, state.basic_name@, config.dimensions@, state.dim as int, bus_connexions@, buses@);
    let ghost start = result@.map_values(|e: (String, u8)| entry_view(e));
    let mut names: Vec<String> = Vec::new();
    generate_ordered_bus_symbols(&mut names, state, &config.dimensions, bus_connexions, buses, Ghost(buses.len() as nat));
    proof {
        assert(name_views(names@) =~= all);
    }
    let mut i: usize = 0;
    while i < names.len()
        invariant
            i <= names.len(),
            name_views(names@) == all,
            result@.map_values(|e: (String, u8)| entry_view(e)) == start + symbol_entries(all.subrange(0, i as int), hints@, config.signal_type),
        decreases names.len() - i,
    {
        let hinted = contains_hint(hints, &names[i]);
        let kind = kind_of(config.signal_type, hinted);
        let ghost before = result@;
        let name = names[i].clone();
        result.push((name, kind));
        proof {
            assert(all[i as int] == names@[i as int]@);
            assert(result@ == before.push((name, kind)));
            assert(entry_view((name, kind)) == (all[i as int], symbol_kind(config.signal_type, is_hint(hints@, all[i as int]))));
            assert(result@.map_values(|e: (String, u8)| entry_view(e)) =~= before.map_values(|e: (String, u8)| entry_view(e)).push(entry_view((name, kind))));
            assert(symbol_entries(all.subrange(0, i + 1), hints@, config.signal_type) =~= symbol_entries(all.subrange(0, i as int), hints@, config.signal_type).push(entry_view((name, kind))));
            assert(all.subrange(0, i + 1) =~= all.subrange(0, i as int).push(all[i as int]));
            assert(result@.map_values(|e: (String, u8)| entry_view(e)) =~= start + symbol_entries(all.subrange(0, i + 1), hints@, config.signal_type));
        }
        i = i + 1;
    }
    proof {
        assert(all.subrange(0, i as int) =~= all);
    }
}

} // verus!
