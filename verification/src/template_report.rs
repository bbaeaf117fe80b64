//! What an executed template reports of itself: every single signal with
//! its kind, in the order the graph of the circuit receives them, and the
//! JSON that closes the template's entry in the report.
use crate::executed_template::{
    contains_hint, contains_name, element_names, find_bus, ParameterValue, entry_view, inputs_where, insert_symbols, is_hint, is_public, reportable, symbol_kind,
    symbol_entries, BusConnexion, ExecutedTemplate, SignalConfig, State, WireData,
};
use crate::name_map::{entries_map, insert_entry, keys_increasing, lemma_entries_listing, ordered_listing, plain_entries};
use crate::signal_names::{
    bus_found, bus_of, bus_walk_ok, fields_walk_ok, bus_names_resolve, bus_signal_names, generate_ordered_bus_symbols, generate_ordered_symbols, insert_bus_symbols, name_views,
    ExecutedBus,
};
use crate::ast::SignalType;
use crate::algebra::{ArithmeticExpression, HintExpression};
use crate::bigint::decimal_digits;
use crate::text::{constraint_json, expression_text, hint_json, usize_decimal};
use vstd::prelude::*;

verus! {

/// The names of the single signals of a wire: the elements of a signal
/// array, or the signals of the elements of a bus array.
pub open spec fn wire_names(w: WireData, bcs: Seq<BusConnexion>, buses: Seq<ExecutedBus>) -> Seq<Seq<char>> {
    if w.is_bus {
        bus_signal_names(w.name@, w.name@, w.length@, 0, bcs, buses)
    } else {
        element_names(w.name@, w.length@, 0)
    }
}

/// The signals of a wire can be reported with kind `signal_type`: its
/// buses are found, and no input is a hint.
pub open spec fn wire_ok(w: WireData, signal_type: usize, hints: Seq<String>, bcs: Seq<BusConnexion>, buses: Seq<ExecutedBus>) -> bool {
    &&& w.is_bus ==> bus_names_resolve(w.name@, w.length@, 0, bcs, buses)
    &&& forall|i: int| 0 <= i < wire_names(w, bcs, buses).len() ==> reportable(
        signal_type,
        #[trigger] is_hint(hints, wire_names(w, bcs, buses)[i]),
    )
}

/// The report entries of a group of wires of one kind, in order.
pub open spec fn group_entries(
    ws: Seq<WireData>,
    signal_type: usize,
    hints: Seq<String>,
    bcs: Seq<BusConnexion>,
    buses: Seq<ExecutedBus>,
) -> Seq<(Seq<char>, u8)>
    decreases ws.len(),
{
    if ws.len() == 0 {
        Seq::empty()
    } else {
        group_entries(ws.drop_last(), signal_type, hints, bcs, buses) + symbol_entries(
            wire_names(ws.last(), bcs, buses),
            hints,
            signal_type,
        )
    }
}

/// The report entries of a template, in the order they are made: outputs
/// (kind 5, or 6 for a hint), public inputs (1), other inputs (2),
/// intermediates (3, or 4 for a hint).
pub open spec fn report_entries(tmp: ExecutedTemplate, hints: Seq<String>, buses: Seq<ExecutedBus>) -> Seq<(Seq<char>, u8)> {
    let bcs = tmp.bus_connexions@;
    group_entries(tmp.outputs@, 5, hints, bcs, buses) + group_entries(
        inputs_where(tmp.inputs@, tmp.public_inputs@, true),
        1,
        hints,
        bcs,
        buses,
    ) + group_entries(inputs_where(tmp.inputs@, tmp.public_inputs@, false), 2, hints, bcs, buses) + group_entries(
        tmp.intermediates@,
        3,
        hints,
        bcs,
        buses,
    )
}

/// The kind of report of an input.
pub open spec fn input_kind(public: Seq<String>, w: WireData) -> usize {
    if is_public(public, w.name@) {
        1
    } else {
        2
    }
}

/// Every wire of the template can be reported.
pub open spec fn report_ok(tmp: ExecutedTemplate, hints: Seq<String>, buses: Seq<ExecutedBus>) -> bool {
    let bcs = tmp.bus_connexions@;
    &&& forall|i: int| 0 <= i < tmp.outputs@.len() ==> wire_ok(#[trigger] tmp.outputs@[i], 5, hints, bcs, buses)
    &&& forall|i: int| 0 <= i < tmp.inputs@.len() ==> wire_ok(
        #[trigger] tmp.inputs@[i],
        input_kind(tmp.public_inputs@, tmp.inputs@[i]),
        hints,
        bcs,
        buses,
    )
    &&& forall|i: int| 0 <= i < tmp.intermediates@.len() ==> wire_ok(#[trigger] tmp.intermediates@[i], 3, hints, bcs, buses)
}

/// The map `m` after inserting the entries in order: a later entry of a
/// name replaces an earlier one.
pub open spec fn inserted_all(m: Map<Seq<char>, u8>, es: Seq<(Seq<char>, u8)>) -> Map<Seq<char>, u8>
    decreases es.len(),
{
    if es.len() == 0 {
        m
    } else {
        inserted_all(m, es.drop_last()).insert(es.last().0, es.last().1)
    }
}

/// The dimensions, copied.
fn copy_dimensions(v: &Vec<usize>) -> (r: Vec<usize>)
    ensures
        r@ == v@,
{
    vstd::slice::slice_to_vec(v.as_slice())
}

/// Appends the report entries of one wire.
fn insert_wire(
    entries: &mut Vec<(String, u8)>,
    w: &WireData,
    signal_type: usize,
    is_public: bool,
    hints: &Vec<String>,
    bcs: &Vec<BusConnexion>,
    buses: &Vec<ExecutedBus>,
)
    requires
        wire_ok(*w, signal_type, hints@, bcs@, buses@),
    ensures
        final(entries)@.map_values(|e: (String, u8)| entry_view(e)) == old(entries)@.map_values(|e: (String, u8)| entry_view(e))
            + symbol_entries(wire_names(*w, bcs@, buses@), hints@, signal_type),
{
    let state = State { basic_name: w.name.clone(), name: w.name.clone(), dim: 0 };
    let config = SignalConfig { is_public, signal_type, dimensions: copy_dimensions(&w.length) };
    let ghost names = wire_names(*w, bcs@, buses@);
    assert forall|i: int| 0 <= i < names.len() implies reportable(signal_type, #[trigger] is_hint(hints@, names[i])) by {
        assert(reportable(signal_type, is_hint(hints@, wire_names(*w, bcs@, buses@)[i])));
    }
    if w.is_bus {
        insert_bus_symbols(entries, hints, state, &config, bcs, buses);
    } else {
        insert_symbols(entries, hints, state, &config);
    }
}

/// The group entries of the first `i + 1` wires.
proof fn lemma_group_step(ws: Seq<WireData>, i: int, signal_type: usize, hints: Seq<String>, bcs: Seq<BusConnexion>, buses: Seq<ExecutedBus>)
    requires
        0 <= i < ws.len(),
    ensures
        group_entries(ws.subrange(0, i + 1), signal_type, hints, bcs, buses) == group_entries(ws.subrange(0, i), signal_type, hints, bcs, buses)
            + symbol_entries(wire_names(ws[i], bcs, buses), hints, signal_type),
{
    assert(ws.subrange(0, i + 1).drop_last() =~= ws.subrange(0, i));
}

/// The inputs of one kind among the first `i + 1`.
proof fn lemma_inputs_where_step(ws: Seq<WireData>, i: int, public: Seq<String>, want: bool)
    requires
        0 <= i < ws.len(),
    ensures
        inputs_where(ws.subrange(0, i + 1), public, want) == if is_public(public, ws[i].name@) == want {
            inputs_where(ws.subrange(0, i), public, want).push(ws[i])
        } else {
            inputs_where(ws.subrange(0, i), public, want)
        },
{
    assert(ws.subrange(0, i + 1).drop_last() =~= ws.subrange(0, i));
}

impl ExecutedTemplate {
    /// Appends the report entries of the wires of one group, in order.
    fn insert_group(
        &self,
        entries: &mut Vec<(String, u8)>,
        ws: &Vec<WireData>,
        signal_type: usize,
        hints: &Vec<String>,
        buses_info: &Vec<ExecutedBus>,
    )
        requires
            forall|i: int| 0 <= i < ws@.len() ==> wire_ok(#[trigger] ws@[i], signal_type, hints@, self.bus_connexions@, buses_info@),
        ensures
            final(entries)@.map_values(|e: (String, u8)| entry_view(e)) == old(entries)@.map_values(|e: (String, u8)| entry_view(e))
                + group_entries(ws@, signal_type, hints@, self.bus_connexions@, buses_info@),
    {
        let ghost start = entries@.map_values(|e: (String, u8)| entry_view(e));
        let ghost bcs = self.bus_connexions@;
        let mut i: usize = 0;
        while i < ws.len()
            invariant
                i <= ws.len(),
                bcs == self.bus_connexions@,
                forall|j: int| 0 <= j < ws@.len() ==> wire_ok(#[trigger] ws@[j], signal_type, hints@, bcs, buses_info@),
                entries@.map_values(|e: (String, u8)| entry_view(e)) == start + group_entries(
                    ws@.subrange(0, i as int),
                    signal_type,
                    hints@,
                    bcs,
                    buses_info@,
                ),
            decreases ws.len() - i,
        {
            proof {
                assert(wire_ok(ws@[i as int], signal_type, hints@, bcs, buses_info@));
                lemma_group_step(ws@, i as int, signal_type, hints@, bcs, buses_info@);
            }
            let ghost done = group_entries(ws@.subrange(0, i as int), signal_type, hints@, bcs, buses_info@);
            insert_wire(entries, &ws[i], signal_type, false, hints, &self.bus_connexions, buses_info);
            proof {
                let piece = symbol_entries(wire_names(ws@[i as int], bcs, buses_info@), hints@, signal_type);
                assert(start + done + piece =~= start + (done + piece));
            }
            i = i + 1;
        }
        proof {
            assert(ws@.subrange(0, i as int) =~= ws@);
        }
    }

    /// Appends the report entries of the public inputs (`want`) or of the
    /// other inputs (`!want`), in order.
    fn insert_inputs(
        &self,
        entries: &mut Vec<(String, u8)>,
        want: bool,
        hints: &Vec<String>,
        buses_info: &Vec<ExecutedBus>,
    )
        requires
            forall|i: int| 0 <= i < self.inputs@.len() ==> wire_ok(
                #[trigger] self.inputs@[i],
                input_kind(self.public_inputs@, self.inputs@[i]),
                hints@,
                self.bus_connexions@,
                buses_info@,
            ),
        ensures
            final(entries)@.map_values(|e: (String, u8)| entry_view(e)) == old(entries)@.map_values(|e: (String, u8)| entry_view(e))
                + group_entries(
                inputs_where(self.inputs@, self.public_inputs@, want),
                if want { 1 } else { 2 },
                hints@,
                self.bus_connexions@,
                buses_info@,
            ),
    {
        let ghost start = entries@.map_values(|e: (String, u8)| entry_view(e));
        let ghost bcs = self.bus_connexions@;
        let ghost public = self.public_inputs@;
        let ghost ws = self.inputs@;
        let signal_type: usize = if want { 1 } else { 2 };
        let mut i: usize = 0;
        while i < self.inputs.len()
            invariant
                i <= ws.len(),
                bcs == self.bus_connexions@,
                public == self.public_inputs@,
                ws == self.inputs@,
                signal_type == if want { 1usize } else { 2usize },
                forall|j: int| 0 <= j < ws.len() ==> wire_ok(#[trigger] ws[j], input_kind(public, ws[j]), hints@, bcs, buses_info@),
                entries@.map_values(|e: (String, u8)| entry_view(e)) == start + group_entries(
                    inputs_where(ws.subrange(0, i as int), public, want),
                    signal_type,
                    hints@,
                    bcs,
                    buses_info@,
                ),
            decreases ws.len() - i,
        {
            let w = &self.inputs[i];
            let ghost done_ws = inputs_where(ws.subrange(0, i as int), public, want);
            let ghost done = group_entries(done_ws, signal_type, hints@, bcs, buses_info@);
            proof {
                lemma_inputs_where_step(ws, i as int, public, want);
                assert(wire_ok(ws[i as int], input_kind(public, ws[i as int]), hints@, bcs, buses_info@));
            }
            let public_input = contains_name(&self.public_inputs, &w.name);
            if public_input == want {
                insert_wire(entries, w, signal_type, public_input, hints, &self.bus_connexions, buses_info);
                proof {
                    let piece = symbol_entries(wire_names(ws[i as int], bcs, buses_info@), hints@, signal_type);
                    assert(done_ws.push(ws[i as int]).drop_last() =~= done_ws);
                    assert(start + done + piece =~= start + (done + piece));
                }
            }
            i = i + 1;
        }
        proof {
            assert(ws.subrange(0, i as int) =~= ws);
        }
    }

    /// Enters every single signal of the template into the report map
    /// `result`, with its kind: outputs, public inputs, other inputs,
    /// intermediates, in that order, so a later entry of a name replaces an
    /// earlier one.
    pub fn insert_wires(&self, result: &mut Vec<(String, u8)>, hints: &Vec<String>, buses_info: &Vec<ExecutedBus>)
        requires
            keys_increasing(old(result)@),
            report_ok(*self, hints@, buses_info@),
        ensures
            keys_increasing(final(result)@),
            entries_map(final(result)@) == inserted_all(entries_map(old(result)@), report_entries(*self, hints@, buses_info@)),
    {
        let ghost bcs = self.bus_connexions@;
        let ghost buses = buses_info@;
        let ghost all = report_entries(*self, hints@, buses);
        let mut entries: Vec<(String, u8)> = Vec::new();
        proof {
            assert(entries@.map_values(|e: (String, u8)| entry_view(e)) =~= Seq::<(Seq<char>, u8)>::empty());
        }
        self.insert_group(&mut entries, &self.outputs, 5, hints, buses_info);
        let ghost g1 = group_entries(self.outputs@, 5, hints@, bcs, buses);
        self.insert_inputs(&mut entries, true, hints, buses_info);
        let ghost g2 = group_entries(inputs_where(self.inputs@, self.public_inputs@, true), 1, hints@, bcs, buses);
        self.insert_inputs(&mut entries, false, hints, buses_info);
        let ghost g3 = group_entries(inputs_where(self.inputs@, self.public_inputs@, false), 2, hints@, bcs, buses);
        self.insert_group(&mut entries, &self.intermediates, 3, hints, buses_info);
        let ghost g4 = group_entries(self.intermediates@, 3, hints@, bcs, buses);
        proof {
            assert(Seq::<(Seq<char>, u8)>::empty() + g1 + g2 + g3 + g4 =~= all);
        }
        let ghost m0 = entries_map(result@);
        let mut i: usize = 0;
        while i < entries.len()
            invariant
                i <= entries.len(),
                entries@.map_values(|e: (String, u8)| entry_view(e)) == all,
                keys_increasing(result@),
                entries_map(result@) == inserted_all(m0, all.subrange(0, i as int)),
            decreases entries.len() - i,
        {
            let key = entries[i].0.clone();
            let kind = entries[i].1;
            proof {
                assert(all[i as int] == entry_view(entries@[i as int]));
                assert(all.subrange(0, i + 1).drop_last() =~= all.subrange(0, i as int));
            }
            insert_entry(result, key, kind);
            i = i + 1;
        }
        proof {
            assert(all.subrange(0, i as int) =~= all);
        }
    }
}

/// The word of a kind of signal in the report (kinds are 1 to 6).
pub open spec fn xtype_name(kind: u8) -> Seq<char> {
    if kind == 1 {
        "input_public"@
    } else if kind == 2 {
        "input"@
    } else if kind == 3 {
        "derived"@
    } else if kind == 4 {
        "hint"@
    } else if kind == 5 {
        "output"@
    } else {
        "output_hint"@
    }
}

/// `"key": "value"`.
pub open spec fn quoted_pair(key: Seq<char>, value: Seq<char>) -> Seq<char> {
    "\""@ + key + "\": \""@ + value + "\""@
}

/// The lines with `sep` between each two.
pub open spec fn joined(lines: Seq<Seq<char>>, sep: Seq<char>) -> Seq<char>
    decreases lines.len(),
{
    if lines.len() == 0 {
        Seq::empty()
    } else if lines.len() == 1 {
        lines[0]
    } else {
        joined(lines.drop_last(), sep) + sep + lines.last()
    }
}

/// One line for each signal: its name and the word of its kind.
pub open spec fn signal_lines(es: Seq<(Seq<char>, u8)>) -> Seq<Seq<char>> {
    es.map_values(|e: (Seq<char>, u8)| quoted_pair(e.0, xtype_name(e.1)))
}

/// One line for each subcomponent: its name and the report name of the
/// template it runs.
pub open spec fn subcomponent_lines(es: Seq<(Seq<char>, usize)>, templates: Seq<ExecutedTemplate>) -> Seq<Seq<char>> {
    es.map_values(|e: (Seq<char>, usize)| quoted_pair(e.0, templates[e.1 as int].report_name@))
}

/// The JSON that closes the entry of a template in the report: the end of
/// its instructions, its signals with their kinds and its subcomponents
/// with the templates they run, each list in increasing order of names.
pub open spec fn closing_json(
    signals: Seq<(Seq<char>, u8)>,
    subcomponents: Seq<(Seq<char>, usize)>,
    templates: Seq<ExecutedTemplate>,
) -> Seq<char> {
    "\n],\n\"signals\": {\n"@ + joined(signal_lines(signals), ",\n"@) + "\n},\n\"subcomponents\": {"@ + (if subcomponents.len()
        == 0 {
        "}\n"@
    } else {
        "\n"@ + joined(subcomponent_lines(subcomponents, templates), ", \n"@) + "\n}\n"@
    }) + "}\n"@
}

/// The word of a kind of signal in the report.
fn xtype_text(kind: u8) -> (r: &'static str)
    ensures
        r@ == xtype_name(kind),
{
    if kind == 1 {
        "input_public"
    } else if kind == 2 {
        "input"
    } else if kind == 3 {
        "derived"
    } else if kind == 4 {
        "hint"
    } else if kind == 5 {
        "output"
    } else {
        "output_hint"
    }
}

/// Appends `"key": "value"`.
fn push_quoted_pair(text: &mut String, key: &String, value: &str)
    ensures
        final(text)@ == old(text)@ + quoted_pair(key@, value@),
{
    text.append("\"");
    text.append(key.as_str());
    text.append("\": \"");
    text.append(value);
    text.append("\"");
    proof {
        assert(text@ =~= old(text)@ + quoted_pair(key@, value@));
    }
}

/// Joining one more line.
proof fn lemma_joined_push(lines: Seq<Seq<char>>, line: Seq<char>, sep: Seq<char>)
    ensures
        joined(lines.push(line), sep) == if lines.len() == 0 {
            line
        } else {
            joined(lines, sep) + sep + line
        },
{
    assert(lines.push(line).drop_last() =~= lines);
}

/// The signal lines, joined.
fn signals_text(signals: &Vec<(String, u8)>) -> (r: String)
    ensures
        r@ == joined(signal_lines(plain_entries(signals@)), ",\n"@),
{
    let ghost lines = signal_lines(plain_entries(signals@));
    let mut text = String::new();
    let mut i: usize = 0;
    while i < signals.len()
        invariant
            i <= signals.len(),
            lines == signal_lines(plain_entries(signals@)),
            text@ == joined(lines.subrange(0, i as int), ",\n"@),
        decreases signals.len() - i,
    {
        let ghost before = text@;
        if i > 0 {
            text.append(",\n");
        }
        let value = xtype_text(signals[i].1);
        push_quoted_pair(&mut text, &signals[i].0, value);
        proof {
            assert(lines.subrange(0, i + 1) =~= lines.subrange(0, i as int).push(lines[i as int]));
            lemma_joined_push(lines.subrange(0, i as int), lines[i as int], ",\n"@);
            assert(text@ =~= joined(lines.subrange(0, i + 1), ",\n"@));
        }
        i = i + 1;
    }
    proof {
        assert(lines.subrange(0, i as int) =~= lines);
    }
    text
}

/// The subcomponent lines, joined.
fn subcomponents_text(subcomponents: &Vec<(String, usize)>, templates: &Vec<ExecutedTemplate>) -> (r: String)
    requires
        forall|i: int| 0 <= i < subcomponents@.len() ==> #[trigger] subcomponents@[i].1 < templates@.len(),
    ensures
        r@ == joined(subcomponent_lines(plain_entries(subcomponents@), templates@), ", \n"@),
{
    let ghost lines = subcomponent_lines(plain_entries(subcomponents@), templates@);
    let mut text = String::new();
    let mut i: usize = 0;
    while i < subcomponents.len()
        invariant
            i <= subcomponents.len(),
            forall|j: int| 0 <= j < subcomponents@.len() ==> #[trigger] subcomponents@[j].1 < templates@.len(),
            lines == subcomponent_lines(plain_entries(subcomponents@), templates@),
            text@ == joined(lines.subrange(0, i as int), ", \n"@),
        decreases subcomponents.len() - i,
    {
        if i > 0 {
            text.append(", \n");
        }
        let node_pointer = subcomponents[i].1;
        assert(subcomponents@[i as int].1 < templates@.len());
        push_quoted_pair(&mut text, &subcomponents[i].0, templates[node_pointer].report_name.as_str());
        proof {
            assert(lines.subrange(0, i + 1) =~= lines.subrange(0, i as int).push(lines[i as int]));
            lemma_joined_push(lines.subrange(0, i as int), lines[i as int], ", \n"@);
            assert(text@ =~= joined(lines.subrange(0, i + 1), ", \n"@));
        }
        i = i + 1;
    }
    proof {
        assert(lines.subrange(0, i as int) =~= lines);
    }
    text
}

impl ExecutedTemplate {
    /// The text that closes the entry of the template in the JSON report,
    /// written after its instructions: its signals with their kinds (the
    /// hints among them told apart) and its subcomponents with the report
    /// names of the templates they run. The hints and the subcomponent
    /// declarations are dropped afterwards, being no longer needed.
    pub fn export_json_after(&mut self, templates_info: &Vec<ExecutedTemplate>, buses_info: &Vec<ExecutedBus>) -> (r: String)
        requires
            report_ok(*old(self), old(self).hints@, buses_info@),
            keys_increasing(old(self).subcomponent_declarations@),
            forall|i: int| 0 <= i < old(self).subcomponent_declarations@.len() ==> #[trigger] old(self).subcomponent_declarations@[i].1
                < templates_info@.len(),
        ensures
            r@ == closing_json(
                ordered_listing(inserted_all(Map::empty(), report_entries(*old(self), old(self).hints@, buses_info@))),
                plain_entries(old(self).subcomponent_declarations@),
                templates_info@,
            ),
            final(self).hints@.len() == 0,
            final(self).subcomponent_declarations@.len() == 0,
            *final(self) == (ExecutedTemplate {
                hints: final(self).hints,
                subcomponent_declarations: final(self).subcomponent_declarations,
                ..*old(self)
            }),
    {
        let mut signals: Vec<(String, u8)> = Vec::new();
        proof {
            assert(entries_map(signals@) =~= Map::<Seq<char>, u8>::empty());
        }
        self.insert_wires(&mut signals, &self.hints, buses_info);
        proof {
            lemma_entries_listing(signals@);
        }
        self.hints = Vec::new();
        let mut text = String::new();
        text.append("\n],\n\"signals\": {\n");
        let lines = signals_text(&signals);
        text.append(lines.as_str());
        text.append("\n},\n\"subcomponents\": {");
        if self.subcomponent_declarations.len() == 0 {
            text.append("}\n");
        } else {
            text.append("\n");
            let subs = subcomponents_text(&self.subcomponent_declarations, templates_info);
            text.append(subs.as_str());
            text.append("\n}\n");
        }
        text.append("}\n");
        self.subcomponent_declarations = Vec::new();
        proof {
            let listing = ordered_listing(inserted_all(Map::empty(), report_entries(*old(self), old(self).hints@, buses_info@)));
            assert(plain_entries(signals@) == listing);
            assert(text@ =~= closing_json(listing, plain_entries(old(self).subcomponent_declarations@), templates_info@));
        }
        text
    }
}

/// The names of the single signals of the wires, wire after wire.
pub open spec fn names_of(ws: Seq<WireData>, bcs: Seq<BusConnexion>, buses: Seq<ExecutedBus>) -> Seq<Seq<char>>
    decreases ws.len(),
{
    if ws.len() == 0 {
        Seq::empty()
    } else {
        names_of(ws.drop_last(), bcs, buses) + wire_names(ws.last(), bcs, buses)
    }
}

/// Every bus among the wires can be followed down to its signals.
pub open spec fn wires_resolve(ws: Seq<WireData>, bcs: Seq<BusConnexion>, buses: Seq<ExecutedBus>) -> bool {
    forall|i: int| 0 <= i < ws.len() && (#[trigger] ws[i]).is_bus ==> bus_names_resolve(ws[i].name@, ws[i].length@, 0, bcs, buses)
}

/// Signals of one kind, as the graph of the circuit receives them: name,
/// kind, and whether it is a public input.
pub open spec fn tagged_names(names: Seq<Seq<char>>, t: SignalType, public: bool) -> Seq<(Seq<char>, SignalType, bool)> {
    names.map_values(|n: Seq<char>| (n, t, public))
}

/// The single signals of a template as the graph of the circuit receives
/// them: outputs, public inputs, other inputs, intermediates.
pub open spec fn graph_wires(tmp: ExecutedTemplate, buses: Seq<ExecutedBus>) -> Seq<(Seq<char>, SignalType, bool)> {
    let bcs = tmp.bus_connexions@;
    tagged_names(names_of(tmp.outputs@, bcs, buses), SignalType::Output, false) + tagged_names(
        names_of(inputs_where(tmp.inputs@, tmp.public_inputs@, true), bcs, buses),
        SignalType::Input,
        true,
    ) + tagged_names(names_of(inputs_where(tmp.inputs@, tmp.public_inputs@, false), bcs, buses), SignalType::Input, false)
        + tagged_names(names_of(tmp.intermediates@, bcs, buses), SignalType::Intermediate, false)
}

/// A signal of the graph as plain values.
pub open spec fn graph_view(e: (String, SignalType, bool)) -> (Seq<char>, SignalType, bool) {
    (e.0@, e.1, e.2)
}

/// Appends the names of the single signals of one wire.
fn push_wire_names(names: &mut Vec<String>, w: &WireData, bcs: &Vec<BusConnexion>, buses: &Vec<ExecutedBus>)
    requires
        w.is_bus ==> bus_names_resolve(w.name@, w.length@, 0, bcs@, buses@),
    ensures
        name_views(final(names)@) == name_views(old(names)@) + wire_names(*w, bcs@, buses@),
{
    let state = State { basic_name: w.name.clone(), name: w.name.clone(), dim: 0 };
    if w.is_bus {
        generate_ordered_bus_symbols(names, state, &w.length, bcs, buses, Ghost(buses.len() as nat));
    } else {
        generate_ordered_symbols(names, state, &w.length);
    }
}

/// The names of the first `i + 1` wires.
proof fn lemma_names_step(ws: Seq<WireData>, i: int, bcs: Seq<BusConnexion>, buses: Seq<ExecutedBus>)
    requires
        0 <= i < ws.len(),
    ensures
        names_of(ws.subrange(0, i + 1), bcs, buses) == names_of(ws.subrange(0, i), bcs, buses) + wire_names(ws[i], bcs, buses),
{
    assert(ws.subrange(0, i + 1).drop_last() =~= ws.subrange(0, i));
}

/// Appends the names of the single signals of the wires, wire after wire.
fn push_names(names: &mut Vec<String>, ws: &Vec<WireData>, bcs: &Vec<BusConnexion>, buses: &Vec<ExecutedBus>)
    requires
        wires_resolve(ws@, bcs@, buses@),
    ensures
        name_views(final(names)@) == name_views(old(names)@) + names_of(ws@, bcs@, buses@),
{
    let ghost start = name_views(names@);
    let mut i: usize = 0;
    while i < ws.len()
        invariant
            i <= ws.len(),
            wires_resolve(ws@, bcs@, buses@),
            name_views(names@) == start + names_of(ws@.subrange(0, i as int), bcs@, buses@),
        decreases ws.len() - i,
    {
        proof {
            lemma_names_step(ws@, i as int, bcs@, buses@);
            assert(ws@[i as int].is_bus ==> bus_names_resolve(ws@[i as int].name@, ws@[i as int].length@, 0, bcs@, buses@));
        }
        let ghost done = names_of(ws@.subrange(0, i as int), bcs@, buses@);
        push_wire_names(names, &ws[i], bcs, buses);
        proof {
            let piece = wire_names(ws@[i as int], bcs@, buses@);
            assert(start + done + piece =~= start + (done + piece));
        }
        i = i + 1;
    }
    proof {
        assert(ws@.subrange(0, i as int) =~= ws@);
    }
}

/// Appends the names, each with the kind `t` and publicity `public`.
fn push_tagged(out: &mut Vec<(String, SignalType, bool)>, names: Vec<String>, t: SignalType, public: bool)
    ensures
        final(out)@.map_values(|e: (String, SignalType, bool)| graph_view(e)) == old(out)@.map_values(
            |e: (String, SignalType, bool)| graph_view(e),
        ) + tagged_names(name_views(names@), t, public),
{
    let ghost start = out@.map_values(|e: (String, SignalType, bool)| graph_view(e));
    let ghost all = name_views(names@);
    let mut i: usize = 0;
    while i < names.len()
        invariant
            i <= names.len(),
            all == name_views(names@),
            out@.map_values(|e: (String, SignalType, bool)| graph_view(e)) == start + tagged_names(all.subrange(0, i as int), t, public),
        decreases names.len() - i,
    {
        let ghost before = out@;
        let name = names[i].clone();
        out.push((name, t, public));
        proof {
            assert(out@ == before.push((name, t, public)));
            assert(out@.map_values(|e: (String, SignalType, bool)| graph_view(e)) =~= before.map_values(
                |e: (String, SignalType, bool)| graph_view(e),
            ).push(graph_view((name, t, public))));
            assert(tagged_names(all.subrange(0, i + 1), t, public) =~= tagged_names(all.subrange(0, i as int), t, public).push(
                graph_view((name, t, public)),
            ));
        }
        i = i + 1;
    }
    proof {
        assert(all.subrange(0, i as int) =~= all);
    }
}

impl ExecutedTemplate {
    /// Appends the names of the single signals of the template in the
    /// order they were declared: the ordered signals of the graph of the
    /// circuit.
    pub fn build_ordered_signals(&self, ordered: &mut Vec<String>, buses_info: &Vec<ExecutedBus>)
        requires
            wires_resolve(self.ordered_signals@, self.bus_connexions@, buses_info@),
        ensures
            name_views(final(ordered)@) == name_views(old(ordered)@) + names_of(self.ordered_signals@, self.bus_connexions@, buses_info@),
    {
        push_names(ordered, &self.ordered_signals, &self.bus_connexions, buses_info);
    }

    /// Appends the names of the single signals of the public inputs
    /// (`want`) or of the other inputs (`!want`), in order.
    fn push_input_names(&self, names: &mut Vec<String>, want: bool, buses_info: &Vec<ExecutedBus>)
        requires
            wires_resolve(self.inputs@, self.bus_connexions@, buses_info@),
        ensures
            name_views(final(names)@) == name_views(old(names)@) + names_of(
                inputs_where(self.inputs@, self.public_inputs@, want),
                self.bus_connexions@,
                buses_info@,
            ),
    {
        let ghost start = name_views(names@);
        let ghost bcs = self.bus_connexions@;
        let ghost ws = self.inputs@;
        let ghost public = self.public_inputs@;
        let mut i: usize = 0;
        while i < self.inputs.len()
            invariant
                i <= ws.len(),
                ws == self.inputs@,
                bcs == self.bus_connexions@,
                public == self.public_inputs@,
                wires_resolve(ws, bcs, buses_info@),
                name_views(names@) == start + names_of(inputs_where(ws.subrange(0, i as int), public, want), bcs, buses_info@),
            decreases ws.len() - i,
        {
            let w = &self.inputs[i];
            let ghost done_ws = inputs_where(ws.subrange(0, i as int), public, want);
            let ghost done = names_of(done_ws, bcs, buses_info@);
            proof {
                lemma_inputs_where_step(ws, i as int, public, want);
                assert(ws[i as int].is_bus ==> bus_names_resolve(ws[i as int].name@, ws[i as int].length@, 0, bcs, buses_info@));
            }
            if contains_name(&self.public_inputs, &w.name) == want {
                push_wire_names(names, w, &self.bus_connexions, buses_info);
                proof {
                    let piece = wire_names(ws[i as int], bcs, buses_info@);
                    assert(done_ws.push(ws[i as int]).drop_last() =~= done_ws);
                    assert(start + done + piece =~= start + (done + piece));
                }
            }
            i = i + 1;
        }
        proof {
            assert(ws.subrange(0, i as int) =~= ws);
        }
    }

    /// The single signals of the template as the graph of the circuit
    /// receives them, each with its kind and whether it is a public input:
    /// outputs, public inputs, other inputs, intermediates.
    pub fn build_wires(&self, buses_info: &Vec<ExecutedBus>) -> (r: Vec<(String, SignalType, bool)>)
        requires
            wires_resolve(self.outputs@, self.bus_connexions@, buses_info@),
            wires_resolve(self.inputs@, self.bus_connexions@, buses_info@),
            wires_resolve(self.intermediates@, self.bus_connexions@, buses_info@),
        ensures
            r@.map_values(|e: (String, SignalType, bool)| graph_view(e)) == graph_wires(*self, buses_info@),
    {
        let ghost bcs = self.bus_connexions@;
        let ghost buses = buses_info@;
        let mut out: Vec<(String, SignalType, bool)> = Vec::new();
        proof {
            assert(out@.map_values(|e: (String, SignalType, bool)| graph_view(e)) =~= Seq::<(Seq<char>, SignalType, bool)>::empty());
        }
        let mut names: Vec<String> = Vec::new();
        push_names(&mut names, &self.outputs, &self.bus_connexions, buses_info);
        proof {
            assert(name_views(names@) =~= names_of(self.outputs@, bcs, buses));
        }
        push_tagged(&mut out, names, SignalType::Output, false);
        let mut names: Vec<String> = Vec::new();
        self.push_input_names(&mut names, true, buses_info);
        proof {
            assert(name_views(names@) =~= names_of(inputs_where(self.inputs@, self.public_inputs@, true), bcs, buses));
        }
        push_tagged(&mut out, names, SignalType::Input, true);
        let mut names: Vec<String> = Vec::new();
        self.push_input_names(&mut names, false, buses_info);
        proof {
            assert(name_views(names@) =~= names_of(inputs_where(self.inputs@, self.public_inputs@, false), bcs, buses));
        }
        push_tagged(&mut out, names, SignalType::Input, false);
        let mut names: Vec<String> = Vec::new();
        push_names(&mut names, &self.intermediates, &self.bus_connexions, buses_info);
        proof {
            assert(name_views(names@) =~= names_of(self.intermediates@, bcs, buses));
        }
        push_tagged(&mut out, names, SignalType::Intermediate, false);
        proof {
            let g1 = tagged_names(names_of(self.outputs@, bcs, buses), SignalType::Output, false);
            let g2 = tagged_names(names_of(inputs_where(self.inputs@, self.public_inputs@, true), bcs, buses), SignalType::Input, true);
            let g3 = tagged_names(names_of(inputs_where(self.inputs@, self.public_inputs@, false), bcs, buses), SignalType::Input, false);
            let g4 = tagged_names(names_of(self.intermediates@, bcs, buses), SignalType::Intermediate, false);
            assert(Seq::<(Seq<char>, SignalType, bool)>::empty() + g1 + g2 + g3 + g4 =~= graph_wires(*self, buses));
        }
        out
    }
}

/// `true` or `false`.
pub open spec fn bool_text(b: bool) -> Seq<char> {
    if b {
        "true"@
    } else {
        "false"@
    }
}

/// One line for each parameter: `"name": value`.
pub open spec fn parameter_lines(ps: Seq<(String, ParameterValue)>) -> Seq<Seq<char>> {
    ps.map_values(|p: (String, ParameterValue)| "\""@ + p.0@ + "\": "@ + p.1.text@)
}

/// The JSON that opens the entry of a template in the report: its name,
/// its parameters with their values, whether it runs in parallel, and the
/// start of its instructions.
pub open spec fn opening_json(name: Seq<char>, parameters: Seq<(String, ParameterValue)>, is_parallel: bool) -> Seq<char> {
    "{\n"@ + "\"id\": \""@ + name + "\",\n"@ + "\"parameters\": {"@ + (if parameters.len() == 0 {
        Seq::empty()
    } else {
        "\n"@ + joined(parameter_lines(parameters), ",\n"@) + "\n"@
    }) + "},\n"@ + "\"is_parallel\" : "@ + bool_text(is_parallel) + ",\n"@ + "\"instructions\": [\n"@
}

/// A statement of the report: nothing goes before the first of its block,
/// `,` and a line break before the others.
pub open spec fn statement_text(first: bool, body: Seq<char>) -> Seq<char> {
    (if first {
        Seq::empty()
    } else {
        ",\n"@
    }) + body
}

/// What writing a statement does to the flags of the report: the
/// innermost block has a statement from then on.
pub open spec fn after_statement(flags: Seq<bool>) -> Seq<bool> {
    flags.drop_last().push(false)
}

/// The flags of the report of a new template (`seq![true]`) after `k`
/// statements.
pub open spec fn flags_after(k: nat) -> Seq<bool>
    decreases k,
{
    if k == 0 {
        seq![true]
    } else {
        after_statement(flags_after((k - 1) as nat))
    }
}

/// The statements of a template's report form one comma-separated list:
/// a new template has the flags `seq![true]`, every statement writer
/// (`instr_block`, `instr_var_declaration`, `instr_intermediate`,
/// `instr_assign_signal`, `instr_hint_signal`, `instr_constrain_equal`,
/// `instr_assign_var`) turns the flags `f` into `after_statement(f)`, and
/// after `k` statements the next one is preceded by `,` and a line break
/// exactly when `k > 0`.
pub proof fn law_statements_comma_separated(k: nat, body: Seq<char>)
    ensures
        flags_after(k).len() == 1,
        flags_after(k).last() == (k == 0),
        statement_text(flags_after(k).last(), body) == if k == 0 {
            body
        } else {
            ",\n"@ + body
        },
    decreases k,
{
    if k > 0 {
        law_statements_comma_separated((k - 1) as nat, body);
    }
    if k == 0 {
        assert(Seq::<char>::empty() + body =~= body);
    }
}

/// A list of numbers as Rust debug-prints it: `[1, 2, 3]`.
pub open spec fn number_list_text(s: Seq<usize>) -> Seq<char> {
    "["@ + joined(s.map_values(|d: usize| decimal_digits(d as nat)), ", "@) + "]"@
}

/// `true` or `false`.
fn bool_str(b: bool) -> (r: &'static str)
    ensures
        r@ == bool_text(b),
{
    if b {
        "true"
    } else {
        "false"
    }
}

/// `[1, 2, 3]`.
fn number_list(s: &[usize]) -> (r: String)
    ensures
        r@ == number_list_text(s@),
{
    let ghost lines = s@.map_values(|d: usize| decimal_digits(d as nat));
    let mut text = String::new();
    let mut i: usize = 0;
    while i < s.len()
        invariant
            i <= s@.len(),
            lines == s@.map_values(|d: usize| decimal_digits(d as nat)),
            text@ == joined(lines.subrange(0, i as int), ", "@),
        decreases s@.len() - i,
    {
        if i > 0 {
            text.append(", ");
        }
        let digits = usize_decimal(s[i]);
        text.append(digits.as_str());
        proof {
            assert(lines.subrange(0, i + 1) =~= lines.subrange(0, i as int).push(lines[i as int]));
            lemma_joined_push(lines.subrange(0, i as int), lines[i as int], ", "@);
            assert(text@ =~= joined(lines.subrange(0, i + 1), ", "@));
        }
        i = i + 1;
    }
    proof {
        assert(lines.subrange(0, i as int) =~= lines);
    }
    let mut r = String::from_str("[");
    r.append(text.as_str());
    r.append("]");
    r
}

/// The parameter lines, joined.
fn parameters_text(parameters: &Vec<(String, ParameterValue)>) -> (r: String)
    ensures
        r@ == joined(parameter_lines(parameters@), ",\n"@),
{
    let ghost lines = parameter_lines(parameters@);
    let mut text = String::new();
    let mut i: usize = 0;
    while i < parameters.len()
        invariant
            i <= parameters.len(),
            lines == parameter_lines(parameters@),
            text@ == joined(lines.subrange(0, i as int), ",\n"@),
        decreases parameters.len() - i,
    {
        if i > 0 {
            text.append(",\n");
        }
        let ghost before = text@;
        text.append("\"");
        text.append(parameters[i].0.as_str());
        text.append("\": ");
        text.append(parameters[i].1.text.as_str());
        proof {
            assert(text@ =~= before + lines[i as int]);
            assert(lines.subrange(0, i + 1) =~= lines.subrange(0, i as int).push(lines[i as int]));
            lemma_joined_push(lines.subrange(0, i as int), lines[i as int], ",\n"@);
            assert(text@ =~= joined(lines.subrange(0, i + 1), ",\n"@));
        }
        i = i + 1;
    }
    proof {
        assert(lines.subrange(0, i as int) =~= lines);
    }
    text
}

impl ExecutedTemplate {
    /// The text that opens the entry of the template in the JSON report:
    /// its name, its parameters with their values in the order they are
    /// kept, whether it runs in parallel, and the start of its
    /// instructions.
    pub fn export_json_before(&self) -> (r: String)
        ensures
            r@ == opening_json(self.template_name@, self.parameter_instances@, self.is_parallel),
    {
        let mut text = String::from_str("{\n");
        text.append("\"id\": \"");
        text.append(self.template_name.as_str());
        text.append("\",\n");
        text.append("\"parameters\": {");
        if self.parameter_instances.len() > 0 {
            text.append("\n");
            let lines = parameters_text(&self.parameter_instances);
            text.append(lines.as_str());
            text.append("\n");
        }
        text.append("},\n");
        text.append("\"is_parallel\" : ");
        text.append(bool_str(self.is_parallel));
        text.append(",\n");
        text.append("\"instructions\": [\n");
        proof {
            assert(text@ =~= opening_json(self.template_name@, self.parameter_instances@, self.is_parallel));
        }
        text
    }

    /// What goes before the next statement of the report: nothing for the
    /// first of its block, `,` and a line break otherwise; the block has a
    /// statement from then on.
    fn statement_separator(&mut self) -> (r: &'static str)
        requires
            old(self).json_first_statement@.len() > 0,
        ensures
            r@ == statement_text(old(self).json_first_statement@.last(), Seq::empty()),
            final(self).json_first_statement@ == after_statement(old(self).json_first_statement@),
            *final(self) == (ExecutedTemplate { json_first_statement: final(self).json_first_statement, ..*old(self) }),
    {
        let n = self.json_first_statement.len();
        if self.json_first_statement[n - 1] {
            self.json_first_statement.pop();
            self.json_first_statement.push(false);
            proof {
                reveal_strlit("");
                assert(""@ =~= statement_text(true, Seq::<char>::empty()));
            }
            ""
        } else {
            proof {
                assert(old(self).json_first_statement@.drop_last().push(false) =~= old(self).json_first_statement@);
                assert(",\n"@ =~= statement_text(false, Seq::<char>::empty()));
            }
            ",\n"
        }
    }

    /// The statement of the report that enters (`enter`) or leaves a block.
    pub fn instr_block(&mut self, enter: bool) -> (r: String)
        requires
            old(self).json_first_statement@.len() > 0,
        ensures
            r@ == statement_text(
                old(self).json_first_statement@.last(),
                "{\"$\": \"Stmt\", \"@\": \"Block\", \"enter\": "@ + bool_text(enter) + "}"@,
            ),
            final(self).json_first_statement@ == after_statement(old(self).json_first_statement@),
            *final(self) == (ExecutedTemplate { json_first_statement: final(self).json_first_statement, ..*old(self) }),
    {
        let mut text = String::from_str(self.statement_separator());
        text.append("{\"$\": \"Stmt\", \"@\": \"Block\", \"enter\": ");
        text.append(bool_str(enter));
        text.append("}");
        proof {
            assert(text@ =~= statement_text(
                old(self).json_first_statement@.last(),
                "{\"$\": \"Stmt\", \"@\": \"Block\", \"enter\": "@ + bool_text(enter) + "}"@,
            ));
        }
        text
    }

    /// The statement of the report that declares a variable with its
    /// dimensions.
    pub fn instr_var_declaration(&mut self, var_name: &String, dimensions: &[usize]) -> (r: String)
        requires
            old(self).json_first_statement@.len() > 0,
        ensures
            r@ == statement_text(
                old(self).json_first_statement@.last(),
                "{\"$\": \"Stmt\", \"@\": \"VarDeclaration\", \"symbol\": \""@ + var_name@ + "\", \"dimensions\": "@
                    + number_list_text(dimensions@) + "}"@,
            ),
            final(self).json_first_statement@ == after_statement(old(self).json_first_statement@),
            *final(self) == (ExecutedTemplate { json_first_statement: final(self).json_first_statement, ..*old(self) }),
    {
        let mut text = String::from_str(self.statement_separator());
        text.append("{\"$\": \"Stmt\", \"@\": \"VarDeclaration\", \"symbol\": \"");
        text.append(var_name.as_str());
        text.append("\", \"dimensions\": ");
        let list = number_list(dimensions);
        text.append(list.as_str());
        text.append("}");
        proof {
            assert(text@ =~= statement_text(
                old(self).json_first_statement@.last(),
                "{\"$\": \"Stmt\", \"@\": \"VarDeclaration\", \"symbol\": \""@ + var_name@ + "\", \"dimensions\": "@
                    + number_list_text(dimensions@) + "}"@,
            ));
        }
        text
    }

    /// The statement of the report that gives an intermediate value its
    /// expression.
    pub fn instr_intermediate(&mut self, intermediate_id: &String, value: &HintExpression) -> (r: String)
        requires
            old(self).json_first_statement@.len() > 0,
        ensures
            r@ == statement_text(
                old(self).json_first_statement@.last(),
                "{\"$\": \"Stmt\", \"@\": \"AssignIntermediate\", \"intermediate\": \""@ + intermediate_id@ + "\", \"expr\": "@
                    + hint_json(value@) + "}"@,
            ),
            final(self).json_first_statement@ == after_statement(old(self).json_first_statement@),
            *final(self) == (ExecutedTemplate { json_first_statement: final(self).json_first_statement, ..*old(self) }),
    {
        let mut text = String::from_str(self.statement_separator());
        text.append("{\"$\": \"Stmt\", \"@\": \"AssignIntermediate\", \"intermediate\": \"");
        text.append(intermediate_id.as_str());
        text.append("\", \"expr\": ");
        let expr = value.to_json();
        text.append(expr.as_str());
        text.append("}");
        proof {
            assert(text@ =~= statement_text(
                old(self).json_first_statement@.last(),
                "{\"$\": \"Stmt\", \"@\": \"AssignIntermediate\", \"intermediate\": \""@ + intermediate_id@ + "\", \"expr\": "@
                    + hint_json(value@) + "}"@,
            ));
        }
        text
    }
}

impl ExecutedTemplate {
    /// The statement of the report that assigns an expression to a signal:
    /// the signal as written, its expression, the value assigned and its
    /// expression.
    pub fn instr_assign_signal(&mut self, symbol: &ArithmeticExpression, expr: &ArithmeticExpression) -> (r: String)
        requires
            old(self).json_first_statement@.len() > 0,
            !(expr.model() is NonQuadratic),
        ensures
            r@ == statement_text(
                old(self).json_first_statement@.last(),
                "{\"$\": \"Stmt\", \"@\": \"AssignSignal\", \"symbol\": \""@ + expression_text(symbol.model())
                    + "\", \"sym_expr\": "@ + hint_json(symbol.hint()) + ", \"value\": "@ + constraint_json(expr.model())
                    + ", \"expr\": "@ + hint_json(expr.hint()) + "}"@,
            ),
            final(self).json_first_statement@ == after_statement(old(self).json_first_statement@),
            *final(self) == (ExecutedTemplate { json_first_statement: final(self).json_first_statement, ..*old(self) }),
    {
        let mut text = String::from_str(self.statement_separator());
        text.append("{\"$\": \"Stmt\", \"@\": \"AssignSignal\", \"symbol\": \"");
        let name = symbol.to_string();
        text.append(name.as_str());
        text.append("\", \"sym_expr\": ");
        let sym_expr = symbol.to_json(true);
        text.append(sym_expr.as_str());
        text.append(", \"value\": ");
        let value = expr.to_json(false);
        text.append(value.as_str());
        text.append(", \"expr\": ");
        let hint = expr.to_json(true);
        text.append(hint.as_str());
        text.append("}");
        proof {
            assert(text@ =~= statement_text(
                old(self).json_first_statement@.last(),
                "{\"$\": \"Stmt\", \"@\": \"AssignSignal\", \"symbol\": \""@ + expression_text(symbol.model())
                    + "\", \"sym_expr\": "@ + hint_json(symbol.hint()) + ", \"value\": "@ + constraint_json(expr.model())
                    + ", \"expr\": "@ + hint_json(expr.hint()) + "}"@,
            ));
        }
        text
    }

    /// The statement of the report that gives a signal a hint: the signal
    /// by its name, its expression and the hinted expression. The name joins
    /// the hints of the template, so the report lists the signal as a hint.
    /// (Signals of expressions are numbered here, so the caller gives the
    /// name the signal has among the template's signals, `out[1]` say.)
    pub fn instr_hint_signal(&mut self, symbol: &ArithmeticExpression, signal_name: &String, expr: &ArithmeticExpression) -> (r: String)
        requires
            old(self).json_first_statement@.len() > 0,
            symbol.model() is Signal,
        ensures
            r@ == statement_text(
                old(self).json_first_statement@.last(),
                "{\"$\": \"Stmt\", \"@\": \"HintSignal\", \"symbol\": \""@ + signal_name@ + "\", \"sym_expr\": "@ + hint_json(
                    symbol.hint(),
                ) + ", \"expr\": "@ + hint_json(expr.hint()) + "}"@,
            ),
            final(self).hints@ == old(self).hints@.push(*signal_name),
            is_hint(final(self).hints@, signal_name@),
            final(self).json_first_statement@ == after_statement(old(self).json_first_statement@),
            *final(self) == (ExecutedTemplate {
                json_first_statement: final(self).json_first_statement,
                hints: final(self).hints,
                ..*old(self)
            }),
    {
        let mut text = String::from_str(self.statement_separator());
        text.append("{\"$\": \"Stmt\", \"@\": \"HintSignal\", \"symbol\": \"");
        text.append(signal_name.as_str());
        text.append("\", \"sym_expr\": ");
        let sym_expr = symbol.to_json(true);
        text.append(sym_expr.as_str());
        text.append(", \"expr\": ");
        let hint = expr.to_json(true);
        text.append(hint.as_str());
        text.append("}");
        self.hints.push(signal_name.clone());
        proof {
            assert(self.hints@.last()@ == signal_name@);
            assert(self.hints@[self.hints@.len() - 1]@ == signal_name@);
            assert(text@ =~= statement_text(
                old(self).json_first_statement@.last(),
                "{\"$\": \"Stmt\", \"@\": \"HintSignal\", \"symbol\": \""@ + signal_name@ + "\", \"sym_expr\": "@ + hint_json(
                    symbol.hint(),
                ) + ", \"expr\": "@ + hint_json(expr.hint()) + "}"@,
            ));
        }
        text
    }

    /// The statement of the report that constrains two expressions to be
    /// equal: both values and both expressions.
    pub fn instr_constrain_equal(&mut self, left: &ArithmeticExpression, right: &ArithmeticExpression) -> (r: String)
        requires
            old(self).json_first_statement@.len() > 0,
            !(left.model() is NonQuadratic),
            !(right.model() is NonQuadratic),
        ensures
            r@ == statement_text(
                old(self).json_first_statement@.last(),
                "{\"$\": \"Stmt\", \"@\": \"ConstrainEqual\", \"left_value\": "@ + constraint_json(left.model())
                    + ", \"right_value\": "@ + constraint_json(right.model()) + ", \"left_expr\": "@ + hint_json(left.hint())
                    + ", \"right_expr\": "@ + hint_json(right.hint()) + "}"@,
            ),
            final(self).json_first_statement@ == after_statement(old(self).json_first_statement@),
            *final(self) == (ExecutedTemplate { json_first_statement: final(self).json_first_statement, ..*old(self) }),
    {
        let mut text = String::from_str(self.statement_separator());
        text.append("{\"$\": \"Stmt\", \"@\": \"ConstrainEqual\", \"left_value\": ");
        let lv = left.to_json(false);
        text.append(lv.as_str());
        text.append(", \"right_value\": ");
        let rv = right.to_json(false);
        text.append(rv.as_str());
        text.append(", \"left_expr\": ");
        let le = left.to_json(true);
        text.append(le.as_str());
        text.append(", \"right_expr\": ");
        let re = right.to_json(true);
        text.append(re.as_str());
        text.append("}");
        proof {
            assert(text@ =~= statement_text(
                old(self).json_first_statement@.last(),
                "{\"$\": \"Stmt\", \"@\": \"ConstrainEqual\", \"left_value\": "@ + constraint_json(left.model())
                    + ", \"right_value\": "@ + constraint_json(right.model()) + ", \"left_expr\": "@ + hint_json(left.hint())
                    + ", \"right_expr\": "@ + hint_json(right.hint()) + "}"@,
            ));
        }
        text
    }

    /// The statement of the report that assigns an expression to a
    /// variable: the variable as written, its expression and the assigned
    /// expression.
    pub fn instr_assign_var(&mut self, symbol: &ArithmeticExpression, expr: &ArithmeticExpression) -> (r: String)
        requires
            old(self).json_first_statement@.len() > 0,
        ensures
            r@ == statement_text(
                old(self).json_first_statement@.last(),
                "{\"$\": \"Stmt\", \"@\": \"AssignVar\", \"symbol\": \""@ + expression_text(symbol.model())
                    + "\", \"sym_expr\": "@ + hint_json(symbol.hint()) + ", \"expr\": "@ + hint_json(expr.hint()) + "}"@,
            ),
            final(self).json_first_statement@ == after_statement(old(self).json_first_statement@),
            *final(self) == (ExecutedTemplate { json_first_statement: final(self).json_first_statement, ..*old(self) }),
    {
        let mut text = String::from_str(self.statement_separator());
        text.append("{\"$\": \"Stmt\", \"@\": \"AssignVar\", \"symbol\": \"");
        let name = symbol.to_string();
        text.append(name.as_str());
        text.append("\", \"sym_expr\": ");
        let sym_expr = symbol.to_json(true);
        text.append(sym_expr.as_str());
        text.append(", \"expr\": ");
        let hint = expr.to_json(true);
        text.append(hint.as_str());
        text.append("}");
        proof {
            assert(text@ =~= statement_text(
                old(self).json_first_statement@.last(),
                "{\"$\": \"Stmt\", \"@\": \"AssignVar\", \"symbol\": \""@ + expression_text(symbol.model())
                    + "\", \"sym_expr\": "@ + hint_json(symbol.hint()) + ", \"expr\": "@ + hint_json(expr.hint()) + "}"@,
            ));
        }
        text
    }
}

/// Whether naming the signals of the bus wire `basic` from dimension `dim`
/// on finds every bus it looks up within `fuel` nested buses.
fn bus_walk_check(
    basic: &String,
    dims: &Vec<usize>,
    dim: usize,
    bcs: &Vec<BusConnexion>,
    buses: &Vec<ExecutedBus>,
    fuel: usize,
) -> (r: bool)
    requires
        dim <= dims.len(),
    ensures
        r == bus_walk_ok(basic@, dims@, dim as int, bcs@, buses@, fuel as nat),
    decreases fuel, dims.len() - dim,
{
    let b = match find_bus(bcs, basic) {
        Some(b) => b,
        None => {
            return false;
        },
    };
    if bcs[b].goes_to >= buses.len() {
        return false;
    }
    let bus = &buses[bcs[b].goes_to];
    proof {
        assert(bus_found(bcs@, basic@, buses@));
        assert(*bus == bus_of(bcs@, basic@, buses@));
    }
    if dim == dims.len() {
        let ghost fields = bus.fields@;
        let ghost inner = bus.bus_connexions@;
        let mut ok = true;
        let mut k: usize = 0;
        while k < bus.fields.len()
            invariant
                fields == bus.fields@,
                inner == bus.bus_connexions@,
                k <= fields.len(),
                ok == fields_walk_ok(fields, inner, buses@, fuel as nat, k as nat),
            decreases fields.len() - k,
        {
            let field = &bus.fields[k];
            let field_ok = if field.is_bus {
                if fuel == 0 {
                    false
                } else {
                    bus_walk_check(&field.name, &field.length, 0, &bus.bus_connexions, buses, fuel - 1)
                }
            } else {
                true
            };
            ok = ok && field_ok;
            k = k + 1;
        }
        ok
    } else if dims[dim] > 0 {
        bus_walk_check(basic, dims, dim + 1, bcs, buses, fuel)
    } else {
        true
    }
}

/// Whether a signal of kind `signal_type` that is a hint (`hinted`) can be
/// reported.
fn reportable_check(signal_type: usize, hinted: bool) -> (r: bool)
    ensures
        r == reportable(signal_type, hinted),
{
    ((signal_type == 1 || signal_type == 2) && !hinted) || signal_type == 3 || signal_type == 5
}

/// Whether the signals of a wire can be reported with kind `signal_type`.
fn wire_check(w: &WireData, signal_type: usize, hints: &Vec<String>, bcs: &Vec<BusConnexion>, buses: &Vec<ExecutedBus>) -> (r: bool)
    ensures
        r == wire_ok(*w, signal_type, hints@, bcs@, buses@),
{
    if w.is_bus && !bus_walk_check(&w.name, &w.length, 0, bcs, buses, buses.len()) {
        return false;
    }
    let mut names: Vec<String> = Vec::new();
    push_wire_names(&mut names, w, bcs, buses);
    let ghost all = wire_names(*w, bcs@, buses@);
    proof {
        assert(name_views(names@) =~= all);
    }
    let mut i: usize = 0;
    while i < names.len()
        invariant
            i <= names.len(),
            name_views(names@) == all,
            all == wire_names(*w, bcs@, buses@),
            forall|j: int| 0 <= j < i ==> reportable(signal_type, #[trigger] is_hint(hints@, all[j])),
        decreases names.len() - i,
    {
        let hinted = contains_hint(hints, &names[i]);
        proof {
            assert(all[i as int] == names@[i as int]@);
        }
        if !reportable_check(signal_type, hinted) {
            proof {
                assert(!reportable(signal_type, is_hint(hints@, wire_names(*w, bcs@, buses@)[i as int])));
            }
            return false;
        }
        i = i + 1;
    }
    true
}

impl ExecutedTemplate {
    /// Whether every wire of the template can be reported: its buses are
    /// found (and none contains itself), and no input is a hint.
    pub fn report_ready(&self, hints: &Vec<String>, buses_info: &Vec<ExecutedBus>) -> (r: bool)
        ensures
            r == report_ok(*self, hints@, buses_info@),
    {
        let ghost bcs = self.bus_connexions@;
        let mut i: usize = 0;
        while i < self.outputs.len()
            invariant
                i <= self.outputs@.len(),
                bcs == self.bus_connexions@,
                forall|j: int| 0 <= j < i ==> wire_ok(#[trigger] self.outputs@[j], 5, hints@, bcs, buses_info@),
            decreases self.outputs@.len() - i,
        {
            if !wire_check(&self.outputs[i], 5, hints, &self.bus_connexions, buses_info) {
                return false;
            }
            i = i + 1;
        }
        let mut i: usize = 0;
        while i < self.inputs.len()
            invariant
                i <= self.inputs@.len(),
                bcs == self.bus_connexions@,
                forall|j: int| 0 <= j < i ==> wire_ok(
                    #[trigger] self.inputs@[j],
                    input_kind(self.public_inputs@, self.inputs@[j]),
                    hints@,
                    bcs,
                    buses_info@,
                ),
            decreases self.inputs@.len() - i,
        {
            let kind: usize = if contains_name(&self.public_inputs, &self.inputs[i].name) { 1 } else { 2 };
            if !wire_check(&self.inputs[i], kind, hints, &self.bus_connexions, buses_info) {
                return false;
            }
            i = i + 1;
        }
        let mut i: usize = 0;
        while i < self.intermediates.len()
            invariant
                i <= self.intermediates@.len(),
                bcs == self.bus_connexions@,
                forall|j: int| 0 <= j < i ==> wire_ok(#[trigger] self.intermediates@[j], 3, hints@, bcs, buses_info@),
            decreases self.intermediates@.len() - i,
        {
            if !wire_check(&self.intermediates[i], 3, hints, &self.bus_connexions, buses_info) {
                return false;
            }
            i = i + 1;
        }
        true
    }
}

/// `s` starts with `t`.
pub open spec fn starts_with(s: Seq<char>, t: Seq<char>) -> bool {
    t.len() <= s.len() && s.subrange(0, t.len() as int) == t
}

/// `s` ends with `t`.
pub open spec fn ends_with(s: Seq<char>, t: Seq<char>) -> bool {
    t.len() <= s.len() && s.subrange(s.len() - t.len(), s.len() as int) == t
}

/// The words of the report tell the kinds of signals apart: the six kinds
/// get six different words.
pub proof fn law_report_words_distinct(k1: u8, k2: u8)
    requires
        1 <= k1 <= 6,
        1 <= k2 <= 6,
        k1 != k2,
    ensures
        xtype_name(k1) != xtype_name(k2),
{
    reveal_strlit("input_public");
    reveal_strlit("input");
    reveal_strlit("derived");
    reveal_strlit("hint");
    reveal_strlit("output");
    reveal_strlit("output_hint");
    assert(xtype_name(k1).len() != xtype_name(k2).len());
}

/// The word of a reported signal says what it is: it ends with `hint`
/// exactly when the signal is a hint; an output's word starts with
/// `output`, an input's with `input`, and only a public input's ends with
/// `public`; an intermediate's word starts with neither.
pub proof fn law_report_word_meaning(t: usize, hinted: bool)
    requires
        reportable(t, hinted),
    ensures
        ends_with(xtype_name(symbol_kind(t, hinted)), "hint"@) <==> hinted,
        ends_with(xtype_name(symbol_kind(t, hinted)), "public"@) <==> t == 1,
        t == 5 ==> starts_with(xtype_name(symbol_kind(t, hinted)), "output"@),
        t == 1 || t == 2 ==> starts_with(xtype_name(symbol_kind(t, hinted)), "input"@),
        t == 3 ==> !starts_with(xtype_name(symbol_kind(t, hinted)), "input"@) && !starts_with(
            xtype_name(symbol_kind(t, hinted)),
            "output"@,
        ),
{
    reveal_strlit("input_public");
    reveal_strlit("input");
    reveal_strlit("derived");
    reveal_strlit("hint");
    reveal_strlit("output");
    reveal_strlit("output_hint");
    reveal_strlit("public");
    let w = xtype_name(symbol_kind(t, hinted));
    if t == 1 {
        assert(w.subrange(w.len() - 6, w.len() as int) =~= "public"@);
        assert(w.subrange(0, 5) =~= "input"@);
        assert(w.subrange(w.len() - 4, w.len() as int) != "hint"@) by {
            assert(w.subrange(w.len() - 4, w.len() as int)[0] != "hint"@[0]);
        }
    } else if t == 2 {
        assert(w.subrange(0, 5) =~= "input"@);
        assert(w.subrange(w.len() - 4, w.len() as int) != "hint"@) by {
            assert(w.subrange(w.len() - 4, w.len() as int)[0] != "hint"@[0]);
        }
    } else if t == 3 {
        if hinted {
            assert(w.subrange(w.len() - 4, w.len() as int) =~= "hint"@);
        } else {
            assert(w.subrange(w.len() - 4, w.len() as int) != "hint"@) by {
                assert(w.subrange(w.len() - 4, w.len() as int)[0] != "hint"@[0]);
            }
            assert(w.subrange(w.len() - 6, w.len() as int) != "public"@) by {
                assert(w.subrange(w.len() - 6, w.len() as int)[0] != "public"@[0]);
            }
            assert(w.subrange(0, 5) != "input"@) by {
                assert(w.subrange(0, 5)[0] != "input"@[0]);
            }
            assert(w.subrange(0, 6) != "output"@) by {
                assert(w.subrange(0, 6)[0] != "output"@[0]);
            }
        }
    } else {
        assert(w.subrange(0, 6) =~= "output"@);
        if hinted {
            assert(w.subrange(w.len() - 4, w.len() as int) =~= "hint"@);
            assert(w.subrange(w.len() - 6, w.len() as int) != "public"@) by {
                assert(w.subrange(w.len() - 6, w.len() as int)[0] != "public"@[0]);
            }
        } else {
            assert(w.subrange(w.len() - 4, w.len() as int) != "hint"@) by {
                assert(w.subrange(w.len() - 4, w.len() as int)[0] != "hint"@[0]);
            }
            assert(w.subrange(w.len() - 6, w.len() as int) != "public"@) by {
                assert(w.subrange(w.len() - 6, w.len() as int)[0] != "public"@[0]);
            }
        }
    }
}

} // verus!
