//! Transient simulation: the lowering of a netlist to one linear equation for each unknown.
//!
//! The first equation fixes the reference node at zero volts. Then each other node gives
//! one equation, the sum of the currents into it; and each device gives one, the law that
//! ties its voltage to its current. The rows that the equations fill hold no numbers but
//! say where which quantity stands; the numbers change from step to step and are put in,
//! and the system solved, outside this crate.

pub mod rows;
pub mod run;
pub mod square;

use crate::la::{
    intern_all, interned, lemma_intern_all_concat, lemma_intern_all_push, Builder, Coefficient,
    Constant, EquationIndex, Sign, Solver, System, VariableIndex,
};
use crate::netlist::device::{node_names, Device, DeviceModel};
use crate::netlist::exp::{Exp, ExpModel};
use crate::netlist::netlist::{device_models, nodes_of, Netlist};
use crate::netlist::nodename::{ground_name, NodeName};
use crate::netlist::value::Value;
use crate::text::texts_of;
use square::{carries_current, lemma_unknowns_match_equations};
use vstd::prelude::*;
use vstd::string::StringExecFns;

verus! {

/// How one row of the linear system is filled. The columns are those of the unknowns that
/// the equation ties together.
#[derive(Debug)]
pub enum Equation {
    /// The voltage of the reference node is zero.
    GndRef { gnd: VariableIndex },
    /// The signed currents into one node sum to zero.
    NodeCurrents { currents: Vec<(VariableIndex, Sign)> },
    /// `plus` is `voltage` above `minus`.
    Voltage { voltage: Exp, plus: VariableIndex, minus: VariableIndex },
    /// `current` is the voltage from `plus` to `minus` times the conductance, which is the
    /// reciprocal of `resistance`.
    Conductance { resistance: Value, plus: VariableIndex, minus: VariableIndex, current: VariableIndex },
    /// `plus` is above `minus` by the voltage stored in the capacitor, which `current`
    /// charges between steps.
    Capacitor { capacitance: Value, plus: VariableIndex, minus: VariableIndex, current: VariableIndex },
    /// `current` is the conductance of the diode times what the voltage from `plus` to
    /// `minus` exceeds its offset voltage by. Conductance and offset voltage are those of
    /// the tangent to the diode's curve at the voltage of the step before.
    Diode { plus_voltage_var: VariableIndex, minus_voltage_var: VariableIndex, current_var: VariableIndex },
    /// `plus` is above `minus` by `gain` times the voltage from `control_plus` to
    /// `control_minus`.
    Vcvs {
        gain: Value,
        plus_voltage_var: VariableIndex,
        minus_voltage_var: VariableIndex,
        control_plus_voltage_var: VariableIndex,
        control_minus_voltage_var: VariableIndex,
    },
}

/// An equation with its columns as numbers.
pub ghost enum EquationModel {
    GndRef { gnd: nat },
    NodeCurrents { currents: Seq<(nat, Sign)> },
    Voltage { voltage: ExpModel, plus: nat, minus: nat },
    Conductance { resistance: Seq<char>, plus: nat, minus: nat, current: nat },
    Capacitor { capacitance: Seq<char>, plus: nat, minus: nat, current: nat },
    Diode { plus: nat, minus: nat, current: nat },
    Vcvs { gain: Seq<char>, plus: nat, minus: nat, control_plus: nat, control_minus: nat },
}

/// The columns and signs of a list of currents.
pub open spec fn currents_model(currents: Seq<(VariableIndex, Sign)>) -> Seq<(nat, Sign)> {
    currents.map_values(|c: (VariableIndex, Sign)| (c.0@, c.1))
}

impl View for Equation {
    type V = EquationModel;

    open spec fn view(&self) -> EquationModel {
        match self {
            Equation::GndRef { gnd } => EquationModel::GndRef { gnd: gnd@ },
            Equation::NodeCurrents { currents } => EquationModel::NodeCurrents {
                currents: currents_model(currents@),
            },
            Equation::Voltage { voltage, plus, minus } => EquationModel::Voltage {
                voltage: voltage@,
                plus: plus@,
                minus: minus@,
            },
            Equation::Conductance { resistance, plus, minus, current } => EquationModel::Conductance {
                resistance: resistance@,
                plus: plus@,
                minus: minus@,
                current: current@,
            },
            Equation::Capacitor { capacitance, plus, minus, current } => EquationModel::Capacitor {
                capacitance: capacitance@,
                plus: plus@,
                minus: minus@,
                current: current@,
            },
            Equation::Diode { plus_voltage_var, minus_voltage_var, current_var } => EquationModel::Diode {
                plus: plus_voltage_var@,
                minus: minus_voltage_var@,
                current: current_var@,
            },
            Equation::Vcvs {
                gain,
                plus_voltage_var,
                minus_voltage_var,
                control_plus_voltage_var,
                control_minus_voltage_var,
            } => EquationModel::Vcvs {
                gain: gain@,
                plus: plus_voltage_var@,
                minus: minus_voltage_var@,
                control_plus: control_plus_voltage_var@,
                control_minus: control_minus_voltage_var@,
            },
        }
    }
}

/// The cell that the writes `writes`, made in order, leave in column `col` of a row that
/// held `before` there: the last write to the column stays.
pub open spec fn after_writes(before: Coefficient, writes: Seq<(nat, Coefficient)>, col: nat) -> Coefficient
    decreases writes.len(),
{
    if writes.len() == 0 {
        before
    } else if writes.last().0 == col {
        writes.last().1
    } else {
        after_writes(before, writes.drop_last(), col)
    }
}

/// One write of plus or minus one for each current of a node.
pub open spec fn current_writes(currents: Seq<(nat, Sign)>) -> Seq<(nat, Coefficient)> {
    currents.map_values(|c: (nat, Sign)| (c.0, Coefficient::Unit(c.1)))
}

impl EquationModel {
    /// Whether every column of the equation is below `dim`.
    pub open spec fn in_range(self, dim: nat) -> bool {
        match self {
            EquationModel::GndRef { gnd } => gnd < dim,
            EquationModel::NodeCurrents { currents } => forall|k: int|
                0 <= k < currents.len() ==> (#[trigger] currents[k]).0 < dim,
            EquationModel::Voltage { plus, minus, .. } => plus < dim && minus < dim,
            EquationModel::Conductance { plus, minus, current, .. } => plus < dim && minus < dim
                && current < dim,
            EquationModel::Capacitor { plus, minus, current, .. } => plus < dim && minus < dim
                && current < dim,
            EquationModel::Diode { plus, minus, current } => plus < dim && minus < dim && current
                < dim,
            EquationModel::Vcvs { plus, minus, control_plus, control_minus, .. } => plus < dim
                && minus < dim && control_plus < dim && control_minus < dim,
        }
    }

    /// The cells of `A` that the equation writes in its row, in the order of writing.
    pub open spec fn writes(self) -> Seq<(nat, Coefficient)> {
        match self {
            EquationModel::GndRef { gnd } => seq![(gnd, Coefficient::Unit(Sign::Plus))],
            EquationModel::NodeCurrents { currents } => current_writes(currents),
            EquationModel::Voltage { plus, minus, .. } => seq![
                (plus, Coefficient::Unit(Sign::Plus)),
                (minus, Coefficient::Unit(Sign::Minus)),
            ],
            EquationModel::Conductance { plus, minus, current, .. } => seq![
                (current, Coefficient::Unit(Sign::Plus)),
                (plus, Coefficient::Conductance(Sign::Minus)),
                (minus, Coefficient::Conductance(Sign::Plus)),
            ],
            EquationModel::Capacitor { plus, minus, .. } => seq![
                (plus, Coefficient::Unit(Sign::Plus)),
                (minus, Coefficient::Unit(Sign::Minus)),
            ],
            EquationModel::Diode { plus, minus, current } => seq![
                (current, Coefficient::Unit(Sign::Plus)),
                (plus, Coefficient::Conductance(Sign::Minus)),
                (minus, Coefficient::Conductance(Sign::Plus)),
            ],
            EquationModel::Vcvs { plus, minus, control_plus, control_minus, .. } => seq![
                (plus, Coefficient::Unit(Sign::Plus)),
                (minus, Coefficient::Unit(Sign::Minus)),
                (control_plus, Coefficient::Gain(Sign::Minus)),
                (control_minus, Coefficient::Gain(Sign::Plus)),
            ],
        }
    }

    /// What the equation writes in its row of `b`, if it writes there.
    pub open spec fn constant(self) -> Option<Constant> {
        match self {
            EquationModel::GndRef { .. } => Some(Constant::Zero),
            EquationModel::NodeCurrents { .. } => Some(Constant::Zero),
            EquationModel::Voltage { .. } => Some(Constant::SourceVoltage),
            EquationModel::Conductance { .. } => None,
            EquationModel::Capacitor { .. } => Some(Constant::StoredVoltage),
            EquationModel::Diode { .. } => Some(Constant::OffsetCurrent),
            EquationModel::Vcvs { .. } => Some(Constant::Zero),
        }
    }
}

/// Writes `value` in row `eq` and column `var` of `A`.
fn write(solver: &mut Solver, eq: EquationIndex, var: VariableIndex, value: Coefficient)
    requires
        old(solver).wf(),
        eq@ < old(solver).dim_spec(),
        var@ < old(solver).dim_spec(),
    ensures
        final(solver).wf(),
        final(solver).dim_spec() == old(solver).dim_spec(),
        final(solver).coefficient(eq@ as int, var@ as int) == value,
        forall|i: int, j: int|
            0 <= i < old(solver).dim_spec() && 0 <= j < old(solver).dim_spec() && !(i == eq@ && j
                == var@) ==> #[trigger] final(solver).coefficient(i, j) == old(solver).coefficient(i, j),
        forall|i: int|
            0 <= i < old(solver).dim_spec() ==> #[trigger] final(solver).constant_term(i)
                == old(solver).constant_term(i),
{
    *solver.coef(eq, var) = value;
}

/// Writes `value` in row `eq` of `b`.
fn write_constant(solver: &mut Solver, eq: EquationIndex, value: Constant)
    requires
        old(solver).wf(),
        eq@ < old(solver).dim_spec(),
    ensures
        final(solver).wf(),
        final(solver).dim_spec() == old(solver).dim_spec(),
        final(solver).constant_term(eq@ as int) == value,
        forall|i: int|
            0 <= i < old(solver).dim_spec() && i != eq@ ==> #[trigger] final(solver).constant_term(i)
                == old(solver).constant_term(i),
        forall|i: int, j: int|
            0 <= i < old(solver).dim_spec() && 0 <= j < old(solver).dim_spec()
                ==> #[trigger] final(solver).coefficient(i, j) == old(solver).coefficient(i, j),
{
    *solver.constant(eq) = value;
}

/// Whether `after` is `before` with the row `eq` written by an equation of model `model`:
/// the row of `A` holds the equation's writes over what stood there, the row of `b` holds
/// its constant if it has one, and every other row is as it was.
pub open spec fn row_filled(before: Solver, after: Solver, eq: nat, model: EquationModel) -> bool {
    &&& after.wf()
    &&& after.dim_spec() == before.dim_spec()
    &&& forall|j: int|
        0 <= j < before.dim_spec() ==> #[trigger] after.coefficient(eq as int, j) == after_writes(
            before.coefficient(eq as int, j),
            model.writes(),
            j as nat,
        )
    &&& after.constant_term(eq as int) == match model.constant() {
        Some(c) => c,
        None => before.constant_term(eq as int),
    }
    &&& forall|i: int, j: int|
        0 <= i < before.dim_spec() && 0 <= j < before.dim_spec() && i != eq
            ==> #[trigger] after.coefficient(i, j) == before.coefficient(i, j)
    &&& forall|i: int|
        0 <= i < before.dim_spec() && i != eq ==> #[trigger] after.constant_term(i)
            == before.constant_term(i)
}

/// The entry that an equation leaves in a row of `b` that held zero.
pub open spec fn constant_or_zero(constant: Option<Constant>) -> Constant {
    match constant {
        Some(c) => c,
        None => Constant::Zero,
    }
}

/// Whether `solver` is the system of the equations `rows`: each is written into its own
/// row, and nothing else is written.
pub open spec fn assembled(solver: Solver, rows: Seq<EquationModel>) -> bool {
    &&& solver.wf()
    &&& solver.dim_spec() == rows.len()
    &&& forall|i: int, j: int|
        0 <= i < rows.len() && 0 <= j < rows.len() ==> #[trigger] solver.coefficient(i, j)
            == after_writes(Coefficient::Zero, rows[i].writes(), j as nat)
    &&& forall|i: int|
        0 <= i < rows.len() ==> #[trigger] solver.constant_term(i) == constant_or_zero(
            rows[i].constant(),
        )
}

impl Equation {
    /// Writes the equation into row `eq` of `solver`: each cell of `A` in the order given
    /// by [`EquationModel::writes`], so that of two writes to one column the later stays,
    /// and the entry of `b`.
    pub fn fill(&self, solver: &mut Solver, eq: EquationIndex)
        requires
            old(solver).wf(),
            eq@ < old(solver).dim_spec(),
            self@.in_range(old(solver).dim_spec()),
        ensures
            row_filled(*old(solver), *final(solver), eq@, self@),
    {
        let ghost start = *solver;
        match self {
            Equation::GndRef { gnd } => {
                write(solver, eq, *gnd, Coefficient::Unit(Sign::Plus));
                write_constant(solver, eq, Constant::Zero);
                proof {
                    lemma_one_write(self@.writes());
                }
            },
            Equation::NodeCurrents { currents } => {
                let ghost writes = self@.writes();
                let mut k: usize = 0;
                assert(writes.take(0) =~= Seq::<(nat, Coefficient)>::empty());
                while k < currents.len()
                    invariant
                        k <= currents.len(),
                        start.wf(),
                        eq@ < start.dim_spec(),
                        writes == current_writes(currents_model(currents@)),
                        forall|i: int|
                            0 <= i < currents.len() ==> (#[trigger] currents_model(currents@)[i]).0
                                < start.dim_spec(),
                        solver.wf(),
                        solver.dim_spec() == start.dim_spec(),
                        forall|j: int|
                            0 <= j < start.dim_spec() ==> #[trigger] solver.coefficient(eq@ as int, j)
                                == after_writes(
                                start.coefficient(eq@ as int, j),
                                writes.take(k as int),
                                j as nat,
                            ),
                        forall|i: int, j: int|
                            0 <= i < start.dim_spec() && 0 <= j < start.dim_spec() && i != eq@
                                ==> #[trigger] solver.coefficient(i, j) == start.coefficient(i, j),
                        forall|i: int|
                            0 <= i < start.dim_spec() ==> #[trigger] solver.constant_term(i)
                                == start.constant_term(i),
                    decreases currents.len() - k,
                {
                    let current = currents[k];
                    proof {
                        assert(currents_model(currents@)[k as int] == (current.0@, current.1));
                        assert(writes[k as int] == (current.0@, Coefficient::Unit(current.1)));
                        assert(writes.take(k + 1).drop_last() =~= writes.take(k as int));
                        assert(writes.take(k + 1).last() == writes[k as int]);
                    }
                    write(solver, eq, current.0, Coefficient::Unit(current.1));
                    k += 1;
                }
                assert(writes.take(k as int) =~= writes);
                write_constant(solver, eq, Constant::Zero);
            },
            Equation::Voltage { plus, minus, .. } => {
                write(solver, eq, *plus, Coefficient::Unit(Sign::Plus));
                write(solver, eq, *minus, Coefficient::Unit(Sign::Minus));
                write_constant(solver, eq, Constant::SourceVoltage);
                proof {
                    lemma_two_writes(self@.writes());
                }
            },
            Equation::Conductance { plus, minus, current, .. } => {
                write(solver, eq, *current, Coefficient::Unit(Sign::Plus));
                write(solver, eq, *plus, Coefficient::Conductance(Sign::Minus));
                write(solver, eq, *minus, Coefficient::Conductance(Sign::Plus));
                proof {
                    lemma_three_writes(self@.writes());
                }
            },
            Equation::Capacitor { plus, minus, .. } => {
                write(solver, eq, *plus, Coefficient::Unit(Sign::Plus));
                write(solver, eq, *minus, Coefficient::Unit(Sign::Minus));
                write_constant(solver, eq, Constant::StoredVoltage);
                proof {
                    lemma_two_writes(self@.writes());
                }
            },
            Equation::Diode { plus_voltage_var, minus_voltage_var, current_var } => {
                write(solver, eq, *current_var, Coefficient::Unit(Sign::Plus));
                write(solver, eq, *plus_voltage_var, Coefficient::Conductance(Sign::Minus));
                write(solver, eq, *minus_voltage_var, Coefficient::Conductance(Sign::Plus));
                write_constant(solver, eq, Constant::OffsetCurrent);
                proof {
                    lemma_three_writes(self@.writes());
                }
            },
            Equation::Vcvs {
                plus_voltage_var,
                minus_voltage_var,
                control_plus_voltage_var,
                control_minus_voltage_var,
                ..
            } => {
                write(solver, eq, *plus_voltage_var, Coefficient::Unit(Sign::Plus));
                write(solver, eq, *minus_voltage_var, Coefficient::Unit(Sign::Minus));
                write(solver, eq, *control_plus_voltage_var, Coefficient::Gain(Sign::Minus));
                write(solver, eq, *control_minus_voltage_var, Coefficient::Gain(Sign::Plus));
                write_constant(solver, eq, Constant::Zero);
                proof {
                    lemma_four_writes(self@.writes());
                }
            },
        }
    }
}

/// What one write leaves in each column.
proof fn lemma_one_write(w: Seq<(nat, Coefficient)>)
    requires
        w.len() == 1,
    ensures
        forall|before: Coefficient, col: nat| #[trigger]
            after_writes(before, w, col) == if w[0].0 == col {
                w[0].1
            } else {
                before
            },
{
    reveal_with_fuel(after_writes, 2);
    assert(w.drop_last().len() == 0);
}

/// What two writes leave in each column.
proof fn lemma_two_writes(w: Seq<(nat, Coefficient)>)
    requires
        w.len() == 2,
    ensures
        forall|before: Coefficient, col: nat| #[trigger]
            after_writes(before, w, col) == if w[1].0 == col {
                w[1].1
            } else if w[0].0 == col {
                w[0].1
            } else {
                before
            },
{
    lemma_one_write(w.drop_last());
    assert forall|before: Coefficient, col: nat| #[trigger]
        after_writes(before, w, col) == if w.last().0 == col {
            w.last().1
        } else {
            after_writes(before, w.drop_last(), col)
        } by {}
}

/// What three writes leave in each column.
proof fn lemma_three_writes(w: Seq<(nat, Coefficient)>)
    requires
        w.len() == 3,
    ensures
        forall|before: Coefficient, col: nat| #[trigger]
            after_writes(before, w, col) == if w[2].0 == col {
                w[2].1
            } else if w[1].0 == col {
                w[1].1
            } else if w[0].0 == col {
                w[0].1
            } else {
                before
            },
{
    lemma_two_writes(w.drop_last());
    assert forall|before: Coefficient, col: nat| #[trigger]
        after_writes(before, w, col) == if w.last().0 == col {
            w.last().1
        } else {
            after_writes(before, w.drop_last(), col)
        } by {}
}

/// What four writes leave in each column.
proof fn lemma_four_writes(w: Seq<(nat, Coefficient)>)
    requires
        w.len() == 4,
    ensures
        forall|before: Coefficient, col: nat| #[trigger]
            after_writes(before, w, col) == if w[3].0 == col {
                w[3].1
            } else if w[2].0 == col {
                w[2].1
            } else if w[1].0 == col {
                w[1].1
            } else if w[0].0 == col {
                w[0].1
            } else {
                before
            },
{
    lemma_three_writes(w.drop_last());
    assert forall|before: Coefficient, col: nat| #[trigger]
        after_writes(before, w, col) == if w.last().0 == col {
            w.last().1
        } else {
            after_writes(before, w.drop_last(), col)
        } by {}
}

/// The name of the unknown that is the voltage of the node `node`.
pub open spec fn voltage_unknown(node: Seq<char>) -> Seq<char> {
    seq!['V', '_'] + node
}

/// The name of the unknown that is the current through the device `device`.
pub open spec fn current_unknown(device: Seq<char>) -> Seq<char> {
    seq!['I', '_'] + device
}

/// An equation with its unknowns by name.
pub ghost enum NamedEquation {
    GndRef { gnd: Seq<char> },
    NodeCurrents { currents: Seq<(Seq<char>, Sign)> },
    Voltage { voltage: ExpModel, plus: Seq<char>, minus: Seq<char> },
    Conductance { resistance: Seq<char>, plus: Seq<char>, minus: Seq<char>, current: Seq<char> },
    Capacitor { capacitance: Seq<char>, plus: Seq<char>, minus: Seq<char>, current: Seq<char> },
    Diode { plus: Seq<char>, minus: Seq<char>, current: Seq<char> },
    Vcvs {
        gain: Seq<char>,
        plus: Seq<char>,
        minus: Seq<char>,
        control_plus: Seq<char>,
        control_minus: Seq<char>,
    },
}

/// The names of a list of currents.
pub open spec fn current_names(currents: Seq<(Seq<char>, Sign)>) -> Seq<Seq<char>> {
    currents.map_values(|c: (Seq<char>, Sign)| c.0)
}

impl NamedEquation {
    /// The unknowns of the equation, in the order in which it asks for their columns.
    pub open spec fn requests(self) -> Seq<Seq<char>> {
        match self {
            NamedEquation::GndRef { gnd } => seq![gnd],
            NamedEquation::NodeCurrents { currents } => current_names(currents),
            NamedEquation::Voltage { plus, minus, .. } => seq![plus, minus],
            NamedEquation::Conductance { plus, minus, current, .. } => seq![current, plus, minus],
            NamedEquation::Capacitor { plus, minus, current, .. } => seq![current, plus, minus],
            NamedEquation::Diode { plus, minus, current } => seq![current, plus, minus],
            NamedEquation::Vcvs { plus, minus, control_plus, control_minus, .. } => seq![
                plus,
                minus,
                control_plus,
                control_minus,
            ],
        }
    }
}

/// A list of currents with each column replaced by the name that stands there in `table`.
pub open spec fn named_currents(currents: Seq<(nat, Sign)>, table: Seq<Seq<char>>) -> Seq<
    (Seq<char>, Sign),
> {
    currents.map_values(|c: (nat, Sign)| (table[c.0 as int], c.1))
}

impl EquationModel {
    /// The equation with each column replaced by the name that stands there in `table`.
    pub open spec fn named(self, table: Seq<Seq<char>>) -> NamedEquation {
        match self {
            EquationModel::GndRef { gnd } => NamedEquation::GndRef { gnd: table[gnd as int] },
            EquationModel::NodeCurrents { currents } => NamedEquation::NodeCurrents {
                currents: named_currents(currents, table),
            },
            EquationModel::Voltage { voltage, plus, minus } => NamedEquation::Voltage {
                voltage,
                plus: table[plus as int],
                minus: table[minus as int],
            },
            EquationModel::Conductance { resistance, plus, minus, current } => NamedEquation::Conductance {
                resistance,
                plus: table[plus as int],
                minus: table[minus as int],
                current: table[current as int],
            },
            EquationModel::Capacitor { capacitance, plus, minus, current } => NamedEquation::Capacitor {
                capacitance,
                plus: table[plus as int],
                minus: table[minus as int],
                current: table[current as int],
            },
            EquationModel::Diode { plus, minus, current } => NamedEquation::Diode {
                plus: table[plus as int],
                minus: table[minus as int],
                current: table[current as int],
            },
            EquationModel::Vcvs { gain, plus, minus, control_plus, control_minus } => NamedEquation::Vcvs {
                gain,
                plus: table[plus as int],
                minus: table[minus as int],
                control_plus: table[control_plus as int],
                control_minus: table[control_minus as int],
            },
        }
    }
}

/// The currents into `node`: for each device that carries current there, in netlist
/// order, the name of its current and the sign with which it counts.
pub open spec fn node_currents(node: Seq<char>, devices: Seq<DeviceModel>) -> Seq<(Seq<char>, Sign)>
    decreases devices.len(),
{
    if devices.len() == 0 {
        Seq::empty()
    } else {
        let rest = node_currents(node, devices.drop_last());
        match devices.last().flow_into(node) {
            Some(sign) => rest.push((current_unknown(devices.last().name()), sign)),
            None => rest,
        }
    }
}

/// One equation of currents for each node of `nodes` but the reference node, in order.
pub open spec fn node_equations(nodes: Seq<Seq<char>>, devices: Seq<DeviceModel>) -> Seq<NamedEquation>
    decreases nodes.len(),
{
    if nodes.len() == 0 {
        Seq::empty()
    } else {
        let rest = node_equations(nodes.drop_last(), devices);
        if nodes.last() == ground_name() {
            rest
        } else {
            rest.push(NamedEquation::NodeCurrents { currents: node_currents(nodes.last(), devices) })
        }
    }
}

/// The law of one device.
pub open spec fn device_equation(device: DeviceModel) -> NamedEquation {
    match device {
        DeviceModel::Voltage { plus, minus, voltage, .. } => NamedEquation::Voltage {
            voltage,
            plus: voltage_unknown(plus),
            minus: voltage_unknown(minus),
        },
        DeviceModel::Resistor { name, plus, minus, resistance } => NamedEquation::Conductance {
            resistance,
            plus: voltage_unknown(plus),
            minus: voltage_unknown(minus),
            current: current_unknown(name),
        },
        DeviceModel::Capacitor { name, plus, minus, capacitance } => NamedEquation::Capacitor {
            capacitance,
            plus: voltage_unknown(plus),
            minus: voltage_unknown(minus),
            current: current_unknown(name),
        },
        DeviceModel::Diode { name, plus, minus } => NamedEquation::Diode {
            plus: voltage_unknown(plus),
            minus: voltage_unknown(minus),
            current: current_unknown(name),
        },
        DeviceModel::Vcvs { plus, minus, control_plus, control_minus, gain, .. } => NamedEquation::Vcvs {
            gain,
            plus: voltage_unknown(plus),
            minus: voltage_unknown(minus),
            control_plus: voltage_unknown(control_plus),
            control_minus: voltage_unknown(control_minus),
        },
    }
}

/// The laws of the devices, in netlist order.
pub open spec fn device_equations(devices: Seq<DeviceModel>) -> Seq<NamedEquation> {
    devices.map_values(|d: DeviceModel| device_equation(d))
}

/// The equation that fixes the reference node.
pub open spec fn ground_equation() -> NamedEquation {
    NamedEquation::GndRef { gnd: voltage_unknown(ground_name()) }
}

/// The equations of a circuit: the reference, then the nodes, then the devices.
pub open spec fn equations_of(devices: Seq<DeviceModel>) -> Seq<NamedEquation> {
    seq![ground_equation()] + node_equations(nodes_of(devices), devices) + device_equations(devices)
}

/// The unknowns that the equations ask for, equation by equation.
pub open spec fn requests_of(equations: Seq<NamedEquation>) -> Seq<Seq<char>>
    decreases equations.len(),
{
    if equations.len() == 0 {
        Seq::empty()
    } else {
        requests_of(equations.drop_last()) + equations.last().requests()
    }
}

/// The unknowns of a circuit, each once, in the order in which its equations first ask
/// for them. The place of an unknown in this list is its column.
pub open spec fn unknowns_of(devices: Seq<DeviceModel>) -> Seq<Seq<char>> {
    interned(requests_of(equations_of(devices)))
}

/// The models of a list of equations.
pub open spec fn equation_models(equations: Seq<Equation>) -> Seq<EquationModel> {
    equations.map_values(|e: Equation| e@)
}

/// Whether `bigger` begins with `table`.
pub open spec fn extends(table: Seq<Seq<char>>, bigger: Seq<Seq<char>>) -> bool {
    &&& table.len() <= bigger.len()
    &&& forall|i: int| 0 <= i < table.len() ==> bigger[i] == #[trigger] table[i]
}

/// Whether the equations `equations`, with columns in `table`, are the equations `named`.
pub open spec fn resolved(
    equations: Seq<EquationModel>,
    table: Seq<Seq<char>>,
    named: Seq<NamedEquation>,
) -> bool {
    &&& equations.len() == named.len()
    &&& forall|i: int|
        0 <= i < equations.len() ==> (#[trigger] equations[i]).in_range(table.len()) && equations[i].named(
            table,
        ) == named[i]
}

/// An equation whose columns lie in a table names the same unknowns in a longer one.
proof fn lemma_named_extends(e: EquationModel, table: Seq<Seq<char>>, bigger: Seq<Seq<char>>)
    requires
        e.in_range(table.len()),
        extends(table, bigger),
    ensures
        e.in_range(bigger.len()),
        e.named(bigger) == e.named(table),
{
    match e {
        EquationModel::NodeCurrents { currents } => {
            assert(named_currents(currents, bigger) =~= named_currents(currents, table)) by {
                assert forall|k: int| 0 <= k < currents.len() implies named_currents(
                    currents,
                    bigger,
                )[k] == named_currents(currents, table)[k] by {
                    assert(currents[k].0 < table.len());
                    assert(bigger[currents[k].0 as int] == table[currents[k].0 as int]);
                }
            }
        },
        EquationModel::GndRef { gnd } => {
            assert(bigger[gnd as int] == table[gnd as int]);
        },
        EquationModel::Voltage { plus, minus, .. } => {
            assert(bigger[plus as int] == table[plus as int]);
            assert(bigger[minus as int] == table[minus as int]);
        },
        EquationModel::Conductance { plus, minus, current, .. } => {
            assert(bigger[plus as int] == table[plus as int]);
            assert(bigger[minus as int] == table[minus as int]);
            assert(bigger[current as int] == table[current as int]);
        },
        EquationModel::Capacitor { plus, minus, current, .. } => {
            assert(bigger[plus as int] == table[plus as int]);
            assert(bigger[minus as int] == table[minus as int]);
            assert(bigger[current as int] == table[current as int]);
        },
        EquationModel::Diode { plus, minus, current } => {
            assert(bigger[plus as int] == table[plus as int]);
            assert(bigger[minus as int] == table[minus as int]);
            assert(bigger[current as int] == table[current as int]);
        },
        EquationModel::Vcvs { plus, minus, control_plus, control_minus, .. } => {
            assert(bigger[plus as int] == table[plus as int]);
            assert(bigger[minus as int] == table[minus as int]);
            assert(bigger[control_plus as int] == table[control_plus as int]);
            assert(bigger[control_minus as int] == table[control_minus as int]);
        },
    }
}

/// Equations that are resolved in a table stay so in a longer one.
proof fn lemma_resolved_extends(
    equations: Seq<EquationModel>,
    table: Seq<Seq<char>>,
    bigger: Seq<Seq<char>>,
    named: Seq<NamedEquation>,
)
    requires
        resolved(equations, table, named),
        extends(table, bigger),
    ensures
        resolved(equations, bigger, named),
{
    assert forall|i: int| 0 <= i < equations.len() implies (#[trigger] equations[i]).in_range(
        bigger.len(),
    ) && equations[i].named(bigger) == named[i] by {
        lemma_named_extends(equations[i], table, bigger);
    }
}

/// The names of a table without repetition fix the columns: two lists of equations that
/// are the same equations by name are the same by column.
pub proof fn lemma_resolved_unique(
    a: Seq<EquationModel>,
    b: Seq<EquationModel>,
    table: Seq<Seq<char>>,
    named: Seq<NamedEquation>,
)
    requires
        table.no_duplicates(),
        resolved(a, table, named),
        resolved(b, table, named),
    ensures
        a == b,
{
    assert forall|i: int| 0 <= i < a.len() implies a[i] == b[i] by {
        assert(a[i].named(table) == b[i].named(table));
        match a[i] {
            EquationModel::NodeCurrents { currents } => {
                let others = b[i]->NodeCurrents_currents;
                assert(named_currents(currents, table).len() == named_currents(others, table).len());
                assert forall|k: int| 0 <= k < currents.len() implies currents[k] == others[k] by {
                    assert(named_currents(currents, table)[k] == named_currents(others, table)[k]);
                    assert(currents[k].0 < table.len() && others[k].0 < table.len());
                }
                assert(currents =~= others);
            },
            _ => {},
        }
    }
    assert(a =~= b);
}

/// Resolved equations stay resolved when one more, resolved too, is added.
proof fn lemma_resolved_push(
    equations: Seq<EquationModel>,
    table: Seq<Seq<char>>,
    named: Seq<NamedEquation>,
    e: EquationModel,
    n: NamedEquation,
)
    requires
        resolved(equations, table, named),
        e.in_range(table.len()),
        e.named(table) == n,
    ensures
        resolved(equations.push(e), table, named.push(n)),
{
}

/// The unknowns asked for after one more equation.
proof fn lemma_requests_push(named: Seq<NamedEquation>, n: NamedEquation)
    ensures
        requests_of(named.push(n)) == requests_of(named) + n.requests(),
{
    assert(named.push(n).drop_last() =~= named);
}

/// The name of the voltage of `node`.
fn voltage_name(node: &NodeName) -> (r: String)
    ensures
        r@ == voltage_unknown(node@),
{
    proof {
        reveal_strlit("V_");
    }
    let mut r = String::from_str("V_");
    r.append(node.name());
    assert(r@ =~= voltage_unknown(node@));
    r
}

/// The name of the current through `device`.
fn current_name(device: &Device) -> (r: String)
    ensures
        r@ == current_unknown(device@.name()),
{
    proof {
        reveal_strlit("I_");
    }
    let mut r = String::from_str("I_");
    r.append(device.name());
    assert(r@ =~= current_unknown(device@.name()));
    r
}

/// Asks `builder` for the columns of `names`, in order.
fn find_vars(builder: &mut Builder, names: &Vec<String>) -> (r: Vec<VariableIndex>)
    requires
        old(builder).wf(),
    ensures
        final(builder).wf(),
        final(builder).rows() == old(builder).rows(),
        final(builder).names() == intern_all(old(builder).names(), texts_of(names@)),
        extends(old(builder).names(), final(builder).names()),
        r.len() == names.len(),
        forall|k: int|
            0 <= k < r.len() ==> (#[trigger] r[k])@ < final(builder).names().len()
                && final(builder).names()[r[k]@ as int] == names[k]@,
{
    let mut out: Vec<VariableIndex> = Vec::new();
    let ghost wanted = texts_of(names@);
    let mut k: usize = 0;
    assert(wanted.take(0) =~= Seq::<Seq<char>>::empty());
    while k < names.len()
        invariant
            k <= names.len(),
            wanted == texts_of(names@),
            builder.wf(),
            builder.rows() == old(builder).rows(),
            builder.names() == intern_all(old(builder).names(), wanted.take(k as int)),
            extends(old(builder).names(), builder.names()),
            out.len() == k,
            forall|i: int|
                0 <= i < k ==> (#[trigger] out[i])@ < builder.names().len() && builder.names()[out[i]@ as int]
                    == names[i]@,
        decreases names.len() - k,
    {
        let ghost before = builder.names();
        let var = builder.find_var(names[k].as_str());
        proof {
            crate::la::lemma_intern(before, names[k as int]@);
            lemma_intern_all_push(old(builder).names(), wanted.take(k as int), wanted[k as int]);
            assert(wanted.take(k + 1) =~= wanted.take(k as int).push(wanted[k as int]));
            assert forall|i: int| 0 <= i < k implies builder.names()[out[i]@ as int] == names[i]@ by {
                assert(before[out[i]@ as int] == names[i]@);
            }
        }
        out.push(var);
        k += 1;
    }
    assert(wanted.take(k as int) =~= wanted);
    out
}

/// Asks `builder` for the columns of the currents into `node` and lists them with their
/// signs.
fn find_node_currents(builder: &mut Builder, node: &NodeName, devices: &Vec<Device>) -> (r: Vec<
    (VariableIndex, Sign),
>)
    requires
        old(builder).wf(),
    ensures
        final(builder).wf(),
        final(builder).rows() == old(builder).rows(),
        final(builder).names() == intern_all(
            old(builder).names(),
            current_names(node_currents(node@, device_models(devices@))),
        ),
        extends(old(builder).names(), final(builder).names()),
        forall|k: int| 0 <= k < r.len() ==> (#[trigger] currents_model(r@)[k]).0 < final(builder).names().len(),
        named_currents(currents_model(r@), final(builder).names()) == node_currents(
            node@,
            device_models(devices@),
        ),
{
    let mut currents: Vec<(VariableIndex, Sign)> = Vec::new();
    let ghost models = device_models(devices@);
    let mut j: usize = 0;
    proof {
        assert(models.take(0) =~= Seq::<DeviceModel>::empty());
        assert(current_names(node_currents(node@, models.take(0))) =~= Seq::<Seq<char>>::empty());
        assert(named_currents(currents_model(currents@), builder.names()) =~= node_currents(
            node@,
            models.take(0),
        ));
    }
    while j < devices.len()
        invariant
            j <= devices.len(),
            models == device_models(devices@),
            builder.wf(),
            builder.rows() == old(builder).rows(),
            builder.names() == intern_all(
                old(builder).names(),
                current_names(node_currents(node@, models.take(j as int))),
            ),
            extends(old(builder).names(), builder.names()),
            forall|k: int|
                0 <= k < currents.len() ==> (#[trigger] currents_model(currents@)[k]).0
                    < builder.names().len(),
            named_currents(currents_model(currents@), builder.names()) == node_currents(
                node@,
                models.take(j as int),
            ),
        decreases devices.len() - j,
    {
        let ghost before = builder.names();
        let ghost done = node_currents(node@, models.take(j as int));
        let ghost columns = currents_model(currents@);
        proof {
            assert(models.take(j + 1).drop_last() =~= models.take(j as int));
            assert(models.take(j + 1).last() == devices[j as int]@);
        }
        match devices[j].flow_into_node(node) {
            Some(sign) => {
                let name = current_name(&devices[j]);
                let var = builder.find_var(name.as_str());
                currents.push((var, sign));
                proof {
                    crate::la::lemma_intern(before, name@);
                    let step = (name@, sign);
                    assert(node_currents(node@, models.take(j + 1)) == done.push(step));
                    assert(current_names(done.push(step)) =~= current_names(done).push(name@));
                    lemma_intern_all_push(old(builder).names(), current_names(done), name@);
                    assert(currents_model(currents@) =~= columns.push((var@, sign)));
                    assert(named_currents(currents_model(currents@), builder.names()) =~= done.push(
                        step,
                    )) by {
                        assert forall|k: int| 0 <= k < columns.len() implies named_currents(
                            currents_model(currents@),
                            builder.names(),
                        )[k] == done[k] by {
                            assert(columns[k].0 < before.len());
                            assert(named_currents(columns, before)[k] == done[k]);
                            assert(builder.names()[columns[k].0 as int] == before[columns[k].0 as int]);
                        }
                    }
                }
            },
            None => {},
        }
        j += 1;
    }
    assert(models.take(j as int) =~= models);
    currents
}

/// A circuit lowered to its unknowns and equations.
pub struct TransientSimulation {
    system: System,
    equations: Vec<Equation>,
}

impl TransientSimulation {
    /// The names of the unknowns, in column order.
    pub closed spec fn unknowns(&self) -> Seq<Seq<char>> {
        self.system.names()
    }

    /// The equations, in row order.
    pub closed spec fn rows(&self) -> Seq<EquationModel> {
        equation_models(self.equations@)
    }

    /// No unknown has two columns, and every equation speaks of columns that exist.
    pub open spec fn wf(&self) -> bool {
        &&& self.unknowns().no_duplicates()
        &&& forall|i: int|
            0 <= i < self.rows().len() ==> (#[trigger] self.rows()[i]).in_range(
                self.unknowns().len(),
            )
    }

    /// Whether there are as many equations as unknowns.
    pub open spec fn is_square(&self) -> bool {
        self.rows().len() == self.unknowns().len()
    }

    #[verifier::type_invariant]
    spec fn inv(&self) -> bool {
        self.wf()
    }

    /// Lowers `netlist`: the unknowns are those of [`unknowns_of`], and the equations are
    /// those of [`equations_of`] with each unknown given by its column. There are as many
    /// unknowns as equations if the equations mention the current of every device.
    pub fn new(netlist: &Netlist) -> (r: Self)
        ensures
            r.wf(),
            r.unknowns() == unknowns_of(netlist@),
            resolved(r.rows(), r.unknowns(), equations_of(netlist@)),
            (forall|i: int| 0 <= i < netlist@.len() ==> carries_current(#[trigger] netlist@[i]))
                ==> r.is_square(),
    {
        let gnd = NodeName::gnd();
        let mut builder = Builder::new();
        let mut equations: Vec<Equation> = Vec::new();
        let ghost mut named: Seq<NamedEquation> = Seq::empty();
        let devices = netlist.devices();
        let nodes = netlist.nodes();
        let ghost models = netlist@;

        // The reference node is at zero volts.
        {
            let names = vec![voltage_name(&gnd)];
            let vars = find_vars(&mut builder, &names);
            let equation = Equation::GndRef { gnd: vars[0] };
            proof {
                let n = ground_equation();
                assert(texts_of(names@) =~= n.requests());
                assert(requests_of(named) =~= Seq::<Seq<char>>::empty());
                lemma_requests_push(named, n);
                assert(requests_of(named) + n.requests() =~= n.requests());
                assert(equation_models(equations@) =~= Seq::<EquationModel>::empty());
                lemma_resolved_push(equation_models(equations@), builder.names(), named, equation@, n);
                assert(equation_models(equations@.push(equation)) =~= equation_models(equations@).push(
                    equation@,
                ));
                named = named.push(n);
                assert(named =~= seq![ground_equation()]);
            }
            equations.push(equation);
            let count: usize = equations.len();
            assert(builder.rows() < count);
            let _ = builder.new_equation();
        }

        // The currents into every other node sum to zero.
        let mut k: usize = 0;
        proof {
            assert(node_names(nodes@).take(0) =~= Seq::<Seq<char>>::empty());
            assert(named =~= seq![ground_equation()] + node_equations(
                node_names(nodes@).take(0),
                models,
            ));
        }
        while k < nodes.len()
            invariant
                k <= nodes.len(),
                gnd@ == ground_name(),
                models == netlist@,
                models == device_models(devices@),
                node_names(nodes@) == nodes_of(models),
                builder.wf(),
                builder.names() == interned(requests_of(named)),
                builder.rows() == equations.len(),
                resolved(equation_models(equations@), builder.names(), named),
                named == seq![ground_equation()] + node_equations(
                    node_names(nodes@).take(k as int),
                    models,
                ),
            decreases nodes.len() - k,
        {
            proof {
                assert(node_names(nodes@).take(k + 1).drop_last() =~= node_names(nodes@).take(k as int));
                assert(node_names(nodes@).take(k + 1).last() == nodes[k as int]@);
            }
            if nodes[k] != gnd {
                let ghost before = builder.names();
                let currents = find_node_currents(&mut builder, &nodes[k], devices);
                let equation = Equation::NodeCurrents { currents };
                proof {
                    let n = NamedEquation::NodeCurrents {
                        currents: node_currents(nodes[k as int]@, models),
                    };
                    lemma_resolved_extends(equation_models(equations@), before, builder.names(), named);
                    lemma_requests_push(named, n);
                    lemma_intern_all_concat(Seq::empty(), requests_of(named), n.requests());
                    lemma_resolved_push(equation_models(equations@), builder.names(), named, equation@, n);
                    assert(equation_models(equations@.push(equation)) =~= equation_models(
                        equations@,
                    ).push(equation@));
                    assert(named.push(n) =~= seq![ground_equation()] + node_equations(
                        node_names(nodes@).take(k + 1),
                        models,
                    ));
                    named = named.push(n);
                }
                equations.push(equation);
                let count: usize = equations.len();
                assert(builder.rows() < count);
                let _ = builder.new_equation();
            }
            k += 1;
        }
        assert(node_names(nodes@).take(k as int) =~= node_names(nodes@));

        // Every device obeys its law.
        let mut i: usize = 0;
        proof {
            assert(models.take(0) =~= Seq::<DeviceModel>::empty());
            assert(device_equations(models.take(0)) =~= Seq::<NamedEquation>::empty());
            assert(named =~= seq![ground_equation()] + node_equations(nodes_of(models), models)
                + device_equations(models.take(0)));
        }
        while i < devices.len()
            invariant
                i <= devices.len(),
                models == netlist@,
                models == device_models(devices@),
                builder.wf(),
                builder.names() == interned(requests_of(named)),
                builder.rows() == equations.len(),
                resolved(equation_models(equations@), builder.names(), named),
                named == seq![ground_equation()] + node_equations(nodes_of(models), models)
                    + device_equations(models.take(i as int)),
            decreases devices.len() - i,
        {
            let ghost before = builder.names();
            let ghost n = device_equation(models[i as int]);
            let equation = match &devices[i] {
                Device::Voltage { plus, minus, voltage, .. } => {
                    let names = vec![voltage_name(plus), voltage_name(minus)];
                    let vars = find_vars(&mut builder, &names);
                    assert(texts_of(names@) =~= n.requests());
                    Equation::Voltage { voltage: voltage.clone(), plus: vars[0], minus: vars[1] }
                },
                Device::Resistor { plus, minus, resistance, .. } => {
                    let names = vec![
                        current_name(&devices[i]),
                        voltage_name(plus),
                        voltage_name(minus),
                    ];
                    let vars = find_vars(&mut builder, &names);
                    assert(texts_of(names@) =~= n.requests());
                    Equation::Conductance {
                        resistance: resistance.clone(),
                        plus: vars[1],
                        minus: vars[2],
                        current: vars[0],
                    }
                },
                Device::Capacitor { plus, minus, capacitance, .. } => {
                    let names = vec![
                        current_name(&devices[i]),
                        voltage_name(plus),
                        voltage_name(minus),
                    ];
                    let vars = find_vars(&mut builder, &names);
                    assert(texts_of(names@) =~= n.requests());
                    Equation::Capacitor {
                        capacitance: capacitance.clone(),
                        plus: vars[1],
                        minus: vars[2],
                        current: vars[0],
                    }
                },
                Device::Diode { plus, minus, .. } => {
                    let names = vec![
                        current_name(&devices[i]),
                        voltage_name(plus),
                        voltage_name(minus),
                    ];
                    let vars = find_vars(&mut builder, &names);
                    assert(texts_of(names@) =~= n.requests());
                    Equation::Diode {
                        plus_voltage_var: vars[1],
                        minus_voltage_var: vars[2],
                        current_var: vars[0],
                    }
                },
                Device::Vcvs { plus, minus, control_plus, control_minus, gain, .. } => {
                    let names = vec![
                        voltage_name(plus),
                        voltage_name(minus),
                        voltage_name(control_plus),
                        voltage_name(control_minus),
                    ];
                    let vars = find_vars(&mut builder, &names);
                    assert(texts_of(names@) =~= n.requests());
                    Equation::Vcvs {
                        gain: gain.clone(),
                        plus_voltage_var: vars[0],
                        minus_voltage_var: vars[1],
                        control_plus_voltage_var: vars[2],
                        control_minus_voltage_var: vars[3],
                    }
                },
            };
            proof {
                lemma_resolved_extends(equation_models(equations@), before, builder.names(), named);
                lemma_requests_push(named, n);
                lemma_intern_all_concat(Seq::empty(), requests_of(named), n.requests());
                lemma_resolved_push(equation_models(equations@), builder.names(), named, equation@, n);
                assert(equation_models(equations@.push(equation)) =~= equation_models(equations@).push(
                    equation@,
                ));
                assert(models.take(i + 1) =~= models.take(i as int).push(models[i as int]));
                assert(device_equations(models.take(i + 1)) =~= device_equations(
                    models.take(i as int),
                ).push(n));
                assert(named.push(n) =~= seq![ground_equation()] + node_equations(
                    nodes_of(models),
                    models,
                ) + device_equations(models.take(i + 1)));
                named = named.push(n);
            }
            equations.push(equation);
            let count: usize = equations.len();
            assert(builder.rows() < count);
            let _ = builder.new_equation();
            i += 1;
        }
        assert(models.take(i as int) =~= models);
        proof {
            if forall|i: int| 0 <= i < netlist@.len() ==> carries_current(#[trigger] netlist@[i]) {
                lemma_unknowns_match_equations(netlist@);
            }
        }
        let system = builder.build();
        TransientSimulation { system, equations }
    }

    /// The unknowns, by name, in column order.
    pub fn system(&self) -> (r: &System)
        ensures
            r.names() == self.unknowns(),
            r.wf(),
    {
        proof {
            use_type_invariant(self);
        }
        &self.system
    }

    /// The equations, in row order.
    pub fn equations(&self) -> (r: &Vec<Equation>)
        ensures
            equation_models(r@) == self.rows(),
            self.wf(),
    {
        proof {
            use_type_invariant(self);
        }
        &self.equations
    }

    /// The number of unknowns.
    pub fn unknown_count(&self) -> (r: usize)
        ensures
            r == self.unknowns().len(),
    {
        self.system.dim()
    }

    /// The number of equations.
    pub fn equation_count(&self) -> (r: usize)
        ensures
            r == self.rows().len(),
    {
        self.equations.len()
    }

    /// The linear system of one time step: every equation written into its own row of an
    /// empty solver. There is none unless there are as many equations as unknowns.
    pub fn assemble(&self) -> (r: Option<Solver>)
        ensures
            r is Some <==> self.is_square(),
            r matches Some(solver) ==> assembled(solver, self.rows()),
    {
        proof {
            use_type_invariant(self);
        }
        let dim: usize = self.system.dim();
        if self.equations.len() != dim {
            return None;
        }
        let mut solver = self.system.new_solver();
        let ghost rows = self.rows();
        let mut i: usize = 0;
        while i < dim
            invariant
                i <= dim,
                dim == rows.len(),
                rows == equation_models(self.equations@),
                forall|k: int| 0 <= k < rows.len() ==> (#[trigger] rows[k]).in_range(dim as nat),
                solver.wf(),
                solver.dim_spec() == dim,
                forall|k: int, j: int|
                    0 <= k < i && 0 <= j < dim ==> #[trigger] solver.coefficient(k, j) == after_writes(
                        Coefficient::Zero,
                        rows[k].writes(),
                        j as nat,
                    ),
                forall|k: int|
                    0 <= k < i ==> #[trigger] solver.constant_term(k) == constant_or_zero(
                        rows[k].constant(),
                    ),
                forall|k: int, j: int|
                    i <= k < dim && 0 <= j < dim ==> #[trigger] solver.coefficient(k, j)
                        == Coefficient::Zero,
                forall|k: int| i <= k < dim ==> #[trigger] solver.constant_term(k) == Constant::Zero,
            decreases dim - i,
        {
            assert(rows[i as int] == self.equations[i as int]@);
            self.equations[i].fill(&mut solver, EquationIndex::from_index(i));
            i += 1;
        }
        Some(solver)
    }
}

} // verus!
