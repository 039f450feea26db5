//! The lowered system is square: a circuit has as many unknowns as equations.

use super::{
    current_names, current_unknown, device_equation, device_equations, equations_of, ground_equation,
    node_currents, node_equations, requests_of, unknowns_of, voltage_unknown, NamedEquation,
};
use crate::la::{intern, intern_all, lemma_intern, lemma_intern_all};
use crate::netlist::device::DeviceModel;
use crate::netlist::netlist::{device_names, nodes_of, terminals_of};
use crate::netlist::nodename::ground_name;
use vstd::prelude::*;
use vstd::seq_lib::{
    lemma_no_dup_in_concat, lemma_seq_concat_contains_all_elements, lemma_seq_contains_after_push,
};

verus! {

/// A table holds the names that it held and those that were asked for, and no others.
pub proof fn lemma_intern_all_contains(table: Seq<Seq<char>>, requests: Seq<Seq<char>>, x: Seq<char>)
    ensures
        intern_all(table, requests).contains(x) <==> table.contains(x) || requests.contains(x),
    decreases requests.len(),
{
    broadcast use lemma_seq_contains_after_push;

    if requests.len() > 0 {
        lemma_intern_all_contains(table, requests.drop_last(), x);
        assert(requests =~= requests.drop_last().push(requests.last()));
    }
}

/// A voltage and a current never share a name, and different nodes, or devices, give
/// different names.
pub proof fn lemma_unknown_names(a: Seq<char>, b: Seq<char>)
    ensures
        voltage_unknown(a) != current_unknown(b),
        voltage_unknown(a) == voltage_unknown(b) ==> a == b,
        current_unknown(a) == current_unknown(b) ==> a == b,
{
    assert(voltage_unknown(a)[0] == 'V');
    assert(current_unknown(b)[0] == 'I');
    assert(voltage_unknown(a).skip(2) =~= a);
    assert(voltage_unknown(b).skip(2) =~= b);
    assert(current_unknown(a).skip(2) =~= a);
    assert(current_unknown(b).skip(2) =~= b);
}

/// What an equation asks for is asked for by the list that holds it.
proof fn lemma_request_is_listed(equations: Seq<NamedEquation>, i: int, x: Seq<char>)
    requires
        0 <= i < equations.len(),
        equations[i].requests().contains(x),
    ensures
        requests_of(equations).contains(x),
    decreases equations.len(),
{
    broadcast use lemma_seq_concat_contains_all_elements;

    if i < equations.len() - 1 {
        lemma_request_is_listed(equations.drop_last(), i, x);
    }
}

/// What a list of equations asks for, one of them asks for.
proof fn lemma_request_witness(equations: Seq<NamedEquation>, x: Seq<char>) -> (i: int)
    requires
        requests_of(equations).contains(x),
    ensures
        0 <= i < equations.len(),
        equations[i].requests().contains(x),
    decreases equations.len(),
{
    broadcast use lemma_seq_concat_contains_all_elements;

    if equations.len() == 0 {
        0
    } else if equations.last().requests().contains(x) {
        equations.len() - 1
    } else {
        lemma_request_witness(equations.drop_last(), x)
    }
}

/// The node of a device's terminal is among the nodes of all terminals.
proof fn lemma_terminal_is_listed(devices: Seq<DeviceModel>, i: int, t: int)
    requires
        0 <= i < devices.len(),
        0 <= t < devices[i].terminals().len(),
    ensures
        terminals_of(devices).contains(devices[i].terminals()[t]),
    decreases devices.len(),
{
    broadcast use lemma_seq_concat_contains_all_elements;

    if i < devices.len() - 1 {
        lemma_terminal_is_listed(devices.drop_last(), i, t);
    } else {
        assert(devices.last().terminals().contains(devices[i].terminals()[t]));
    }
}

/// A node among the nodes of all terminals is the node of some device's terminal.
proof fn lemma_terminal_witness(devices: Seq<DeviceModel>, node: Seq<char>) -> (i: int)
    requires
        terminals_of(devices).contains(node),
    ensures
        0 <= i < devices.len(),
        devices[i].terminals().contains(node),
    decreases devices.len(),
{
    broadcast use lemma_seq_concat_contains_all_elements;

    if devices.len() == 0 {
        0
    } else if devices.last().terminals().contains(node) {
        devices.len() - 1
    } else {
        lemma_terminal_witness(devices.drop_last(), node)
    }
}

/// The current of a device that carries current at a node is among the currents into it.
proof fn lemma_current_is_listed(node: Seq<char>, devices: Seq<DeviceModel>, j: int)
    requires
        0 <= j < devices.len(),
        devices[j].flow_into(node) is Some,
    ensures
        current_names(node_currents(node, devices)).contains(current_unknown(devices[j].name())),
    decreases devices.len(),
{
    broadcast use lemma_seq_contains_after_push;

    let rest = node_currents(node, devices.drop_last());
    let x = current_unknown(devices[j].name());
    if j < devices.len() - 1 {
        lemma_current_is_listed(node, devices.drop_last(), j);
    }
    match devices.last().flow_into(node) {
        Some(sign) => {
            let step = (current_unknown(devices.last().name()), sign);
            assert(current_names(rest.push(step)) =~= current_names(rest).push(step.0));
        },
        None => {},
    }
}

/// Each current into a node is the current of some device.
pub proof fn lemma_current_witness(node: Seq<char>, devices: Seq<DeviceModel>, x: Seq<char>) -> (j: int)
    requires
        current_names(node_currents(node, devices)).contains(x),
    ensures
        0 <= j < devices.len(),
        x == current_unknown(devices[j].name()),
    decreases devices.len(),
{
    broadcast use lemma_seq_contains_after_push;

    if devices.len() == 0 {
        assert(current_names(node_currents(node, devices)).len() == 0);
        0
    } else {
        let rest = node_currents(node, devices.drop_last());
        match devices.last().flow_into(node) {
            Some(sign) => {
                let step = (current_unknown(devices.last().name()), sign);
                assert(current_names(rest.push(step)) =~= current_names(rest).push(step.0));
                if x == step.0 {
                    devices.len() - 1
                } else {
                    lemma_current_witness(node, devices.drop_last(), x)
                }
            },
            None => lemma_current_witness(node, devices.drop_last(), x),
        }
    }
}

/// The equation of a node other than the reference is among the equations of the nodes.
proof fn lemma_node_equation_is_listed(nodes: Seq<Seq<char>>, devices: Seq<DeviceModel>, k: int)
    requires
        0 <= k < nodes.len(),
        nodes[k] != ground_name(),
    ensures
        node_equations(nodes, devices).contains(
            NamedEquation::NodeCurrents { currents: node_currents(nodes[k], devices) },
        ),
    decreases nodes.len(),
{
    broadcast use lemma_seq_contains_after_push;

    if k < nodes.len() - 1 {
        lemma_node_equation_is_listed(nodes.drop_last(), devices, k);
    }
}

/// Each equation of the nodes is the equation of one of them.
proof fn lemma_node_equation_witness(
    nodes: Seq<Seq<char>>,
    devices: Seq<DeviceModel>,
    e: NamedEquation,
) -> (k: int)
    requires
        node_equations(nodes, devices).contains(e),
    ensures
        0 <= k < nodes.len(),
        e == (NamedEquation::NodeCurrents { currents: node_currents(nodes[k], devices) }),
    decreases nodes.len(),
{
    broadcast use lemma_seq_contains_after_push;

    if nodes.len() == 0 {
        0
    } else if nodes.last() != ground_name() && e == (NamedEquation::NodeCurrents {
        currents: node_currents(nodes.last(), devices),
    }) {
        nodes.len() - 1
    } else {
        lemma_node_equation_witness(nodes.drop_last(), devices, e)
    }
}

/// Every node but the reference has one equation.
proof fn lemma_node_equations_len(nodes: Seq<Seq<char>>, devices: Seq<DeviceModel>)
    requires
        nodes.no_duplicates(),
    ensures
        node_equations(nodes, devices).len() + (if nodes.contains(ground_name()) {
            1int
        } else {
            0int
        }) == nodes.len(),
    decreases nodes.len(),
{
    broadcast use lemma_seq_contains_after_push;

    if nodes.len() > 0 {
        let rest = nodes.drop_last();
        assert(nodes =~= rest.push(nodes.last()));
        lemma_node_equations_len(rest, devices);
        if nodes.last() == ground_name() {
            if rest.contains(ground_name()) {
                let i = choose|i: int| 0 <= i < rest.len() && rest[i] == ground_name();
                assert(nodes[i] == nodes[nodes.len() - 1]);
            }
        }
    }
}

/// Whether the equations of the circuit mention the device's current: the law of a
/// passive device does, and so does the sum of currents into a node other than the
/// reference where the device carries current.
pub open spec fn carries_current(device: DeviceModel) -> bool {
    ||| device is Resistor
    ||| device is Capacitor
    ||| device is Diode
    ||| device.terminals()[0] != ground_name()
    ||| device.terminals()[1] != ground_name()
}

/// The names of the voltages of `nodes`.
pub open spec fn voltage_unknowns(nodes: Seq<Seq<char>>) -> Seq<Seq<char>> {
    nodes.map_values(|n: Seq<char>| voltage_unknown(n))
}

/// The names of the currents through `devices`.
pub open spec fn current_unknowns(devices: Seq<DeviceModel>) -> Seq<Seq<char>> {
    devices.map_values(|d: DeviceModel| current_unknown(d.name()))
}

/// The law of a device asks for the voltage at each of its terminals.
proof fn lemma_device_asks_for_terminals(device: DeviceModel, t: int)
    requires
        0 <= t < device.terminals().len(),
    ensures
        device_equation(device).requests().contains(voltage_unknown(device.terminals()[t])),
{
    let r = device_equation(device).requests();
    let x = voltage_unknown(device.terminals()[t]);
    match device {
        DeviceModel::Voltage { .. } => {
            assert(r[t] == x);
        },
        DeviceModel::Vcvs { .. } => {
            assert(r[t] == x);
        },
        _ => {
            assert(r[2 - t] == x);
        },
    }
}

/// The law of a device asks for nothing but its current and the voltages at its terminals.
proof fn lemma_device_asks_for_no_more(device: DeviceModel, x: Seq<char>)
    requires
        device_equation(device).requests().contains(x),
    ensures
        x == current_unknown(device.name()) || exists|t: int|
            0 <= t < device.terminals().len() && x == voltage_unknown(
                #[trigger] device.terminals()[t],
            ),
{
    let r = device_equation(device).requests();
    let i = choose|i: int| 0 <= i < r.len() && r[i] == x;
    let terminals = device.terminals();
    match device {
        DeviceModel::Voltage { .. } => {
            assert(x == voltage_unknown(terminals[i]));
        },
        DeviceModel::Vcvs { .. } => {
            assert(x == voltage_unknown(terminals[i]));
        },
        _ => {
            if i > 0 {
                assert(x == voltage_unknown(terminals[2 - i]));
            }
        },
    }
}

/// A circuit has as many unknowns as equations, if no two of its devices share a name and
/// the equations mention the current of each. The one device whose current they do not
/// mention is a source with both output terminals on the reference node.
pub proof fn lemma_unknowns_match_equations(devices: Seq<DeviceModel>)
    requires
        device_names(devices).no_duplicates(),
        forall|i: int| 0 <= i < devices.len() ==> carries_current(#[trigger] devices[i]),
    ensures
        unknowns_of(devices).len() == equations_of(devices).len(),
{
    broadcast use lemma_seq_concat_contains_all_elements;
    broadcast use lemma_seq_contains_after_push;

    let gnd = ground_name();
    let terminals = terminals_of(devices);
    let nodes = nodes_of(devices);
    let first = seq![ground_equation()];
    let of_nodes = node_equations(nodes, devices);
    let of_devices = device_equations(devices);
    let equations = equations_of(devices);
    let requests = requests_of(equations);
    let unknowns = unknowns_of(devices);
    let all_nodes = intern(nodes, gnd);
    let voltages = voltage_unknowns(all_nodes);
    let currents = current_unknowns(devices);
    let expected = voltages + currents;

    lemma_intern_all(Seq::empty(), terminals);
    lemma_intern(nodes, gnd);
    lemma_intern_all(Seq::empty(), requests);
    lemma_node_equations_len(nodes, devices);

    // The expected names are pairwise different.
    assert(voltages.no_duplicates()) by {
        assert forall|i: int, j: int|
            0 <= i < voltages.len() && 0 <= j < voltages.len() && i != j implies voltages[i]
            != voltages[j] by {
            lemma_unknown_names(all_nodes[i], all_nodes[j]);
        }
    }
    assert(currents.no_duplicates()) by {
        assert forall|i: int, j: int|
            0 <= i < currents.len() && 0 <= j < currents.len() && i != j implies currents[i]
            != currents[j] by {
            lemma_unknown_names(devices[i].name(), devices[j].name());
            assert(device_names(devices)[i] != device_names(devices)[j]);
        }
    }
    assert forall|i: int, j: int|
        0 <= i < voltages.len() && 0 <= j < currents.len() implies voltages[i] != currents[j] by {
        lemma_unknown_names(all_nodes[i], devices[j].name());
    }
    lemma_no_dup_in_concat(voltages, currents);

    // Every expected name is asked for.
    assert forall|x: Seq<char>| expected.contains(x) implies requests.contains(x) by {
        if voltages.contains(x) {
            let k = choose|k: int| 0 <= k < voltages.len() && voltages[k] == x;
            let node = all_nodes[k];
            assert(all_nodes.contains(node));
            if node == gnd {
                assert(equations[0] == ground_equation());
                assert(equations[0].requests()[0] == x);
                lemma_request_is_listed(equations, 0, x);
            } else {
                assert(nodes.contains(node));
                lemma_intern_all_contains(Seq::empty(), terminals, node);
                let i = lemma_terminal_witness(devices, node);
                let t = choose|t: int|
                    0 <= t < devices[i].terminals().len() && devices[i].terminals()[t] == node;
                lemma_device_asks_for_terminals(devices[i], t);
                assert(equations[1 + of_nodes.len() + i] == device_equation(devices[i]));
                lemma_request_is_listed(equations, 1 + of_nodes.len() + i, x);
            }
        } else {
            let j = choose|j: int| 0 <= j < currents.len() && currents[j] == x;
            let device = devices[j];
            assert(carries_current(device));
            assert(equations[1 + of_nodes.len() + j] == device_equation(device));
            if device is Resistor || device is Capacitor || device is Diode {
                assert(device_equation(device).requests()[0] == x);
                lemma_request_is_listed(equations, 1 + of_nodes.len() + j, x);
            } else {
                let t: int = if device.terminals()[0] != gnd {
                    0
                } else {
                    1
                };
                let node = device.terminals()[t];
                assert(device.terminals().len() >= 2);
                lemma_terminal_is_listed(devices, j, t);
                lemma_intern_all_contains(Seq::empty(), terminals, node);
                let k = choose|k: int| 0 <= k < nodes.len() && nodes[k] == node;
                lemma_node_equation_is_listed(nodes, devices, k);
                let e = NamedEquation::NodeCurrents { currents: node_currents(node, devices) };
                let m = choose|m: int| 0 <= m < of_nodes.len() && of_nodes[m] == e;
                assert(device.flow_into(node) is Some);
                lemma_current_is_listed(node, devices, j);
                assert(equations[1 + m] == e);
                lemma_request_is_listed(equations, 1 + m, x);
            }
        }
    }

    // Nothing else is asked for.
    assert forall|x: Seq<char>| requests.contains(x) implies expected.contains(x) by {
        let i = lemma_request_witness(equations, x);
        if i == 0 {
            assert(equations[0] == ground_equation());
            assert(x == voltage_unknown(gnd));
            let k = choose|k: int| 0 <= k < all_nodes.len() && all_nodes[k] == gnd;
            assert(voltages[k] == x);
        } else if i < 1 + of_nodes.len() {
            let e = of_nodes[i - 1];
            assert(equations[i] == e);
            assert(of_nodes.contains(e));
            let k = lemma_node_equation_witness(nodes, devices, e);
            let j = lemma_current_witness(nodes[k], devices, x);
            assert(currents[j] == x);
        } else {
            let j = i - 1 - of_nodes.len();
            let device = devices[j];
            assert(equations[i] == device_equation(device));
            lemma_device_asks_for_no_more(device, x);
            if x == current_unknown(device.name()) {
                assert(currents[j] == x);
            } else {
                let t = choose|t: int|
                    0 <= t < device.terminals().len() && x == voltage_unknown(
                        #[trigger] device.terminals()[t],
                    );
                let node = device.terminals()[t];
                lemma_terminal_is_listed(devices, j, t);
                lemma_intern_all_contains(Seq::empty(), terminals, node);
                assert(all_nodes.contains(node));
                let k = choose|k: int| 0 <= k < all_nodes.len() && all_nodes[k] == node;
                assert(voltages[k] == x);
            }
        }
    }

    // So the unknowns are the expected names, in some order.
    assert(unknowns.to_set() =~= expected.to_set()) by {
        assert forall|x: Seq<char>| unknowns.to_set().contains(x) <==> expected.to_set().contains(
            x,
        ) by {
            lemma_intern_all_contains(Seq::empty(), requests, x);
        }
    }
    unknowns.unique_seq_to_set();
    expected.unique_seq_to_set();
}

} // verus!
