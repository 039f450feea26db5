//! What the rows of an assembled system say of its solutions, in exact arithmetic.
//!
//! A row holds symbols. Once the numbers behind the symbols are given, the row is a linear
//! equation in the unknowns, and the lemmas of this module write that equation out: first
//! for a row by its columns, then for the rows of a lowered circuit by the names of its
//! nodes and devices. They speak of real numbers: of what a solver works towards, not of
//! the rounded numbers that it returns.
//!
//! An equation that writes one column twice keeps the later write. The lemmas hold where
//! that loses nothing: where the unknown of every column written twice is zero, as the
//! voltage of the reference node is in every solution.

use super::square::{lemma_current_witness, lemma_unknown_names};
use super::{
    after_writes, assembled, current_names, current_unknown, current_writes, equations_of,
    named_currents, node_currents, node_equations, resolved, voltage_unknown, EquationModel,
    NamedEquation,
};
use crate::la::{lemma_position, position, Coefficient, Constant, Sign, Solver};
use crate::netlist::device::DeviceModel;
use crate::netlist::netlist::{device_names, nodes_of};
use crate::netlist::nodename::ground_name;
use vstd::prelude::*;

verus! {

/// The numbers behind the symbols of one row, in one step: the conductance and the gain
/// of the row's device, the voltage of its source, and the state of its capacitor or
/// diode.
pub ghost struct Numbers {
    pub conductance: real,
    pub gain: real,
    pub source_voltage: real,
    pub stored_voltage: real,
    pub offset_voltage: real,
}

/// The product of two numbers.
pub open spec fn times(a: real, b: real) -> real {
    a * b
}

/// Plus or minus one.
pub open spec fn sign_value(sign: Sign) -> real {
    match sign {
        Sign::Plus => 1real,
        Sign::Minus => -1real,
    }
}

/// The number that stands in a cell of `A`.
pub open spec fn coefficient_value(cell: Coefficient, numbers: Numbers) -> real {
    match cell {
        Coefficient::Zero => 0real,
        Coefficient::Unit(sign) => sign_value(sign),
        Coefficient::Conductance(sign) => times(sign_value(sign), numbers.conductance),
        Coefficient::Gain(sign) => times(sign_value(sign), numbers.gain),
    }
}

/// The number that stands in an entry of `b`.
pub open spec fn constant_value(entry: Constant, numbers: Numbers) -> real {
    match entry {
        Constant::Zero => 0real,
        Constant::SourceVoltage => numbers.source_voltage,
        Constant::StoredVoltage => numbers.stored_voltage,
        Constant::OffsetCurrent => -times(numbers.conductance, numbers.offset_voltage),
    }
}

/// The sum of the first `upto` terms of row `row` of `A x`.
pub open spec fn row_sum(solver: Solver, row: int, x: Seq<real>, numbers: Numbers, upto: int) -> real
    decreases upto,
{
    if upto <= 0 {
        0real
    } else {
        row_sum(solver, row, x, numbers, upto - 1) + times(
            coefficient_value(solver.coefficient(row, upto - 1), numbers),
            x[upto - 1],
        )
    }
}

/// Whether `x` solves row `row` of `A x = b`.
pub open spec fn row_holds(solver: Solver, row: int, x: Seq<real>, numbers: Numbers) -> bool {
    row_sum(solver, row, x, numbers, solver.dim_spec() as int) == constant_value(
        solver.constant_term(row),
        numbers,
    )
}

/// The sum of the terms that the writes `writes` stand for.
pub open spec fn writes_sum(writes: Seq<(nat, Coefficient)>, x: Seq<real>, numbers: Numbers) -> real
    decreases writes.len(),
{
    if writes.len() == 0 {
        0real
    } else {
        writes_sum(writes.drop_last(), x, numbers) + times(
            coefficient_value(writes.last().1, numbers),
            x[writes.last().0 as int],
        )
    }
}

/// Whether the unknown of every column that is written twice is zero.
pub open spec fn repeats_vanish(writes: Seq<(nat, Coefficient)>, x: Seq<real>) -> bool {
    forall|i: int, j: int|
        0 <= i < writes.len() && 0 <= j < writes.len() && i != j && (#[trigger] writes[i]).0 == (
        #[trigger] writes[j]).0 ==> x[writes[i].0 as int] == 0real
}

/// The sum of the terms of the writes to columns below `upto`.
spec fn writes_sum_below(
    writes: Seq<(nat, Coefficient)>,
    x: Seq<real>,
    numbers: Numbers,
    upto: int,
) -> real
    decreases writes.len(),
{
    if writes.len() == 0 {
        0real
    } else {
        writes_sum_below(writes.drop_last(), x, numbers, upto) + if writes.last().0 < upto {
            times(coefficient_value(writes.last().1, numbers), x[writes.last().0 as int])
        } else {
            0real
        }
    }
}

/// Products with zero, with one and with minus one, and of a difference.
proof fn lemma_times(g: real, a: real, b: real)
    ensures
        times(0real, a) == 0real,
        times(g, 0real) == 0real,
        times(1real, a) == a,
        times(-1real, a) == -a,
        times(times(1real, g), a) == times(g, a),
        times(times(-1real, g), a) == -times(g, a),
        times(g, a - b) == times(g, a) - times(g, b),
        times(g, a) == g * a,
{
    assert(times(times(1real, g), a) == times(g, a)) by (nonlinear_arith);
    assert(times(times(-1real, g), a) == -times(g, a)) by (nonlinear_arith);
    assert(times(g, a - b) == times(g, a) - times(g, b)) by (nonlinear_arith);
}

/// A column that no write goes to stays as it was.
proof fn lemma_unwritten(before: Coefficient, writes: Seq<(nat, Coefficient)>, col: nat)
    requires
        forall|k: int| 0 <= k < writes.len() ==> (#[trigger] writes[k]).0 != col,
    ensures
        after_writes(before, writes, col) == before,
    decreases writes.len(),
{
    if writes.len() > 0 {
        assert(writes.last() == writes[writes.len() - 1]);
        assert forall|k: int| 0 <= k < writes.drop_last().len() implies (
        #[trigger] writes.drop_last()[k]).0 != col by {
            assert(writes.drop_last()[k] == writes[k]);
        }
        lemma_unwritten(before, writes.drop_last(), col);
    }
}

/// One more column adds the term of the write that stays in it.
proof fn lemma_below_step(writes: Seq<(nat, Coefficient)>, x: Seq<real>, numbers: Numbers, upto: int)
    requires
        repeats_vanish(writes, x),
        0 <= upto,
    ensures
        writes_sum_below(writes, x, numbers, upto + 1) == writes_sum_below(writes, x, numbers, upto)
            + times(
            coefficient_value(after_writes(Coefficient::Zero, writes, upto as nat), numbers),
            x[upto],
        ),
    decreases writes.len(),
{
    if writes.len() == 0 {
        lemma_times(0real, x[upto], 0real);
    } else {
        let rest = writes.drop_last();
        let last = writes.last();
        assert(last == writes[writes.len() - 1]);
        assert forall|i: int, j: int|
            0 <= i < rest.len() && 0 <= j < rest.len() && i != j && (#[trigger] rest[i]).0 == (
            #[trigger] rest[j]).0 implies x[rest[i].0 as int] == 0real by {
            assert(rest[i] == writes[i]);
            assert(rest[j] == writes[j]);
        }
        lemma_below_step(rest, x, numbers, upto);
        if last.0 == upto {
            let stays = coefficient_value(after_writes(Coefficient::Zero, rest, upto as nat), numbers);
            if x[upto] == 0real {
                lemma_times(stays, 0real, 0real);
                lemma_times(coefficient_value(last.1, numbers), 0real, 0real);
            } else {
                assert forall|k: int| 0 <= k < rest.len() implies (#[trigger] rest[k]).0
                    != upto as nat by {
                    assert(rest[k] == writes[k]);
                }
                lemma_unwritten(Coefficient::Zero, rest, upto as nat);
                lemma_times(0real, x[upto], 0real);
            }
        }
    }
}

/// Over all columns the two sums agree.
proof fn lemma_below_all(writes: Seq<(nat, Coefficient)>, x: Seq<real>, numbers: Numbers, dim: int)
    requires
        forall|k: int| 0 <= k < writes.len() ==> (#[trigger] writes[k]).0 < dim,
    ensures
        writes_sum_below(writes, x, numbers, dim) == writes_sum(writes, x, numbers),
    decreases writes.len(),
{
    if writes.len() > 0 {
        assert(writes.last() == writes[writes.len() - 1]);
        assert forall|k: int| 0 <= k < writes.drop_last().len() implies (
        #[trigger] writes.drop_last()[k]).0 < dim by {
            assert(writes.drop_last()[k] == writes[k]);
        }
        lemma_below_all(writes.drop_last(), x, numbers, dim);
    }
}

/// Below column 0 there is nothing to sum.
proof fn lemma_below_none(writes: Seq<(nat, Coefficient)>, x: Seq<real>, numbers: Numbers)
    ensures
        writes_sum_below(writes, x, numbers, 0) == 0real,
    decreases writes.len(),
{
    if writes.len() > 0 {
        lemma_below_none(writes.drop_last(), x, numbers);
    }
}

/// The first columns of a written row sum the terms of the writes to them.
proof fn lemma_row_sum_upto(
    solver: Solver,
    row: int,
    writes: Seq<(nat, Coefficient)>,
    x: Seq<real>,
    numbers: Numbers,
    upto: int,
)
    requires
        repeats_vanish(writes, x),
        0 <= upto <= solver.dim_spec(),
        forall|j: int|
            0 <= j < solver.dim_spec() ==> #[trigger] solver.coefficient(row, j) == after_writes(
                Coefficient::Zero,
                writes,
                j as nat,
            ),
    ensures
        row_sum(solver, row, x, numbers, upto) == writes_sum_below(writes, x, numbers, upto),
    decreases upto,
{
    if upto == 0 {
        lemma_below_none(writes, x, numbers);
    } else {
        lemma_row_sum_upto(solver, row, writes, x, numbers, upto - 1);
        lemma_below_step(writes, x, numbers, upto - 1);
    }
}

/// The left-hand side of a row of an assembled system is the sum of the terms that its
/// equation writes, if the unknown of every column that it writes twice is zero.
pub proof fn lemma_row_sum(solver: Solver, rows: Seq<EquationModel>, i: int, x: Seq<real>, numbers: Numbers)
    requires
        assembled(solver, rows),
        0 <= i < rows.len(),
        rows[i].in_range(rows.len()),
        repeats_vanish(rows[i].writes(), x),
    ensures
        row_sum(solver, i, x, numbers, solver.dim_spec() as int) == writes_sum(
            rows[i].writes(),
            x,
            numbers,
        ),
{
    let writes = rows[i].writes();
    let dim = rows.len() as int;
    assert forall|k: int| 0 <= k < writes.len() implies (#[trigger] writes[k]).0 < dim by {
        match rows[i] {
            EquationModel::NodeCurrents { currents } => {
                assert(currents[k].0 < dim);
            },
            _ => {},
        }
    }
    lemma_row_sum_upto(solver, i, writes, x, numbers, dim);
    lemma_below_all(writes, x, numbers, dim);
}

/// The voltage of the node `node` in `x`, where `table` names the unknowns.
pub open spec fn voltage_at(table: Seq<Seq<char>>, x: Seq<real>, node: Seq<char>) -> real {
    x[position(table, voltage_unknown(node)) as int]
}

/// The current through the device called `device` in `x`, where `table` names the
/// unknowns.
pub open spec fn current_through(table: Seq<Seq<char>>, x: Seq<real>, device: Seq<char>) -> real {
    x[position(table, current_unknown(device)) as int]
}

/// The row of device `d` of `devices`: the rows of the reference and of the nodes come
/// first.
pub open spec fn device_row(devices: Seq<DeviceModel>, d: int) -> int {
    1 + node_equations(nodes_of(devices), devices).len() + d
}

/// Whether `solver` holds the system of the circuit `devices`, with the unknowns `table`
/// and the equations `rows`.
pub open spec fn lowered(
    solver: Solver,
    rows: Seq<EquationModel>,
    table: Seq<Seq<char>>,
    devices: Seq<DeviceModel>,
) -> bool {
    &&& table.no_duplicates()
    &&& rows.len() == table.len()
    &&& resolved(rows, table, equations_of(devices))
    &&& assembled(solver, rows)
}

/// Whether a terminal on `node` may share the node with another terminal of its device:
/// the node must be at zero volts.
pub open spec fn may_share(table: Seq<Seq<char>>, x: Seq<real>, a: Seq<char>, b: Seq<char>) -> bool {
    a == b ==> voltage_at(table, x, a) == 0real
}

/// A voltage and a current never share a name, and different nodes give different names.
proof fn lemma_names(a: Seq<char>, b: Seq<char>)
    ensures
        voltage_unknown(a) != current_unknown(b),
        voltage_unknown(a) == voltage_unknown(b) ==> a == b,
{
    assert(voltage_unknown(a)[0] == 'V');
    assert(current_unknown(b)[0] == 'I');
    assert(voltage_unknown(a).skip(2) =~= a);
    assert(voltage_unknown(b).skip(2) =~= b);
}

/// The row of a device of a lowered circuit is the law of that device.
proof fn lemma_device_row(
    rows: Seq<EquationModel>,
    table: Seq<Seq<char>>,
    devices: Seq<DeviceModel>,
    d: int,
)
    requires
        table.no_duplicates(),
        resolved(rows, table, equations_of(devices)),
        0 <= d < devices.len(),
    ensures
        0 <= device_row(devices, d) < rows.len(),
        rows[device_row(devices, d)].in_range(table.len()),
        rows[device_row(devices, d)].named(table) == super::device_equation(devices[d]),
{
    let i = device_row(devices, d);
    assert(equations_of(devices)[i] == super::device_equations(devices)[d]);
}

/// In every solution of the first row the reference node is at zero volts.
pub proof fn lemma_ground_law(
    solver: Solver,
    rows: Seq<EquationModel>,
    table: Seq<Seq<char>>,
    devices: Seq<DeviceModel>,
    x: Seq<real>,
    numbers: Numbers,
)
    requires
        lowered(solver, rows, table, devices),
        x.len() == table.len(),
    ensures
        row_holds(solver, 0, x, numbers) <==> voltage_at(table, x, ground_name()) == 0real,
{
    assert(equations_of(devices)[0] == super::ground_equation());
    assert(rows[0].named(table) == super::ground_equation());
    let gnd = rows[0]->GndRef_gnd;
    lemma_position(table, gnd as int);
    reveal_with_fuel(writes_sum, 2);
    lemma_row_sum(solver, rows, 0, x, numbers);
    lemma_times(0real, x[gnd as int], 0real);
}

/// In every solution of the row of a voltage source, the voltage from plus to minus is
/// the voltage of the source. Both terminals may be on one node only if it is at zero
/// volts.
pub proof fn lemma_source_law(
    solver: Solver,
    rows: Seq<EquationModel>,
    table: Seq<Seq<char>>,
    devices: Seq<DeviceModel>,
    d: int,
    x: Seq<real>,
    numbers: Numbers,
)
    requires
        lowered(solver, rows, table, devices),
        x.len() == table.len(),
        0 <= d < devices.len(),
        devices[d] matches DeviceModel::Voltage { plus, minus, .. } && may_share(table, x, plus, minus),
    ensures
        row_holds(solver, device_row(devices, d), x, numbers) <==> voltage_at(
            table,
            x,
            devices[d]->Voltage_plus,
        ) - voltage_at(table, x, devices[d]->Voltage_minus) == numbers.source_voltage,
{
    let i = device_row(devices, d);
    lemma_device_row(rows, table, devices, d);
    let plus = rows[i]->Voltage_plus;
    let minus = rows[i]->Voltage_minus;
    lemma_position(table, plus as int);
    lemma_position(table, minus as int);
    lemma_names(devices[d]->Voltage_plus, devices[d]->Voltage_minus);
    reveal_with_fuel(writes_sum, 3);
    lemma_row_sum(solver, rows, i, x, numbers);
    lemma_times(0real, x[plus as int], 0real);
    lemma_times(0real, x[minus as int], 0real);
}

/// In every solution of the row of a capacitor, the voltage from plus to minus is the
/// voltage stored in it. Both terminals may be on one node only if it is at zero volts.
pub proof fn lemma_capacitor_law(
    solver: Solver,
    rows: Seq<EquationModel>,
    table: Seq<Seq<char>>,
    devices: Seq<DeviceModel>,
    d: int,
    x: Seq<real>,
    numbers: Numbers,
)
    requires
        lowered(solver, rows, table, devices),
        x.len() == table.len(),
        0 <= d < devices.len(),
        devices[d] matches DeviceModel::Capacitor { plus, minus, .. } && may_share(
            table,
            x,
            plus,
            minus,
        ),
    ensures
        row_holds(solver, device_row(devices, d), x, numbers) <==> voltage_at(
            table,
            x,
            devices[d]->Capacitor_plus,
        ) - voltage_at(table, x, devices[d]->Capacitor_minus) == numbers.stored_voltage,
{
    let i = device_row(devices, d);
    lemma_device_row(rows, table, devices, d);
    let plus = rows[i]->Capacitor_plus;
    let minus = rows[i]->Capacitor_minus;
    lemma_position(table, plus as int);
    lemma_position(table, minus as int);
    lemma_names(devices[d]->Capacitor_plus, devices[d]->Capacitor_minus);
    reveal_with_fuel(writes_sum, 3);
    lemma_row_sum(solver, rows, i, x, numbers);
    lemma_times(0real, x[plus as int], 0real);
    lemma_times(0real, x[minus as int], 0real);
}

/// In every solution of the row of a resistor, its current is its conductance times the
/// voltage from plus to minus. Both terminals may be on one node only if it is at zero
/// volts.
pub proof fn lemma_resistor_law(
    solver: Solver,
    rows: Seq<EquationModel>,
    table: Seq<Seq<char>>,
    devices: Seq<DeviceModel>,
    d: int,
    x: Seq<real>,
    numbers: Numbers,
)
    requires
        lowered(solver, rows, table, devices),
        x.len() == table.len(),
        0 <= d < devices.len(),
        devices[d] matches DeviceModel::Resistor { plus, minus, .. } && may_share(
            table,
            x,
            plus,
            minus,
        ),
    ensures
        row_holds(solver, device_row(devices, d), x, numbers) <==> current_through(
            table,
            x,
            devices[d]->Resistor_name,
        ) == numbers.conductance * (voltage_at(table, x, devices[d]->Resistor_plus) - voltage_at(
            table,
            x,
            devices[d]->Resistor_minus,
        )),
{
    let i = device_row(devices, d);
    lemma_device_row(rows, table, devices, d);
    let plus = rows[i]->Conductance_plus;
    let minus = rows[i]->Conductance_minus;
    let current = rows[i]->Conductance_current;
    lemma_position(table, plus as int);
    lemma_position(table, minus as int);
    lemma_position(table, current as int);
    lemma_names(devices[d]->Resistor_plus, devices[d]->Resistor_minus);
    lemma_names(devices[d]->Resistor_plus, devices[d]->Resistor_name);
    lemma_names(devices[d]->Resistor_minus, devices[d]->Resistor_name);
    reveal_with_fuel(writes_sum, 4);
    lemma_row_sum(solver, rows, i, x, numbers);
    let g = numbers.conductance;
    let p = x[plus as int];
    let m = x[minus as int];
    lemma_times(g, p, m);
    lemma_times(g, m, p);
    lemma_times(g, x[current as int], 0real);
    lemma_times(g, p - m, 0real);
}

/// In every solution of the row of a diode, its current is its conductance times what
/// the voltage from plus to minus exceeds its offset voltage by. Both terminals may be
/// on one node only if it is at zero volts.
pub proof fn lemma_diode_law(
    solver: Solver,
    rows: Seq<EquationModel>,
    table: Seq<Seq<char>>,
    devices: Seq<DeviceModel>,
    d: int,
    x: Seq<real>,
    numbers: Numbers,
)
    requires
        lowered(solver, rows, table, devices),
        x.len() == table.len(),
        0 <= d < devices.len(),
        devices[d] matches DeviceModel::Diode { plus, minus, .. } && may_share(table, x, plus, minus),
    ensures
        row_holds(solver, device_row(devices, d), x, numbers) <==> current_through(
            table,
            x,
            devices[d]->Diode_name,
        ) == numbers.conductance * (voltage_at(table, x, devices[d]->Diode_plus) - voltage_at(
            table,
            x,
            devices[d]->Diode_minus,
        ) - numbers.offset_voltage),
{
    let i = device_row(devices, d);
    lemma_device_row(rows, table, devices, d);
    let plus = rows[i]->Diode_plus;
    let minus = rows[i]->Diode_minus;
    let current = rows[i]->Diode_current;
    lemma_position(table, plus as int);
    lemma_position(table, minus as int);
    lemma_position(table, current as int);
    lemma_names(devices[d]->Diode_plus, devices[d]->Diode_minus);
    lemma_names(devices[d]->Diode_plus, devices[d]->Diode_name);
    lemma_names(devices[d]->Diode_minus, devices[d]->Diode_name);
    reveal_with_fuel(writes_sum, 4);
    lemma_row_sum(solver, rows, i, x, numbers);
    let g = numbers.conductance;
    let p = x[plus as int];
    let m = x[minus as int];
    let o = numbers.offset_voltage;
    lemma_times(g, p, m);
    lemma_times(g, m, p);
    lemma_times(g, x[current as int], 0real);
    lemma_times(g, p - m, o);
    lemma_times(g, p - m - o, 0real);
    lemma_times(g, o, 0real);
}

/// In every solution of the row of a controlled source, the voltage from plus to minus
/// is the gain times the voltage from control plus to control minus. Two terminals may
/// be on one node only if it is at zero volts.
pub proof fn lemma_vcvs_law(
    solver: Solver,
    rows: Seq<EquationModel>,
    table: Seq<Seq<char>>,
    devices: Seq<DeviceModel>,
    d: int,
    x: Seq<real>,
    numbers: Numbers,
)
    requires
        lowered(solver, rows, table, devices),
        x.len() == table.len(),
        0 <= d < devices.len(),
        devices[d] matches DeviceModel::Vcvs { plus, minus, control_plus, control_minus, .. }
            && may_share(table, x, plus, minus) && may_share(table, x, plus, control_plus)
            && may_share(table, x, plus, control_minus) && may_share(table, x, minus, control_plus)
            && may_share(table, x, minus, control_minus) && may_share(
            table,
            x,
            control_plus,
            control_minus,
        ),
    ensures
        row_holds(solver, device_row(devices, d), x, numbers) <==> voltage_at(
            table,
            x,
            devices[d]->Vcvs_plus,
        ) - voltage_at(table, x, devices[d]->Vcvs_minus) == numbers.gain * (voltage_at(
            table,
            x,
            devices[d]->Vcvs_control_plus,
        ) - voltage_at(table, x, devices[d]->Vcvs_control_minus)),
{
    let i = device_row(devices, d);
    lemma_device_row(rows, table, devices, d);
    let plus = rows[i]->Vcvs_plus;
    let minus = rows[i]->Vcvs_minus;
    let control_plus = rows[i]->Vcvs_control_plus;
    let control_minus = rows[i]->Vcvs_control_minus;
    lemma_position(table, plus as int);
    lemma_position(table, minus as int);
    lemma_position(table, control_plus as int);
    lemma_position(table, control_minus as int);
    lemma_names(devices[d]->Vcvs_plus, devices[d]->Vcvs_minus);
    lemma_names(devices[d]->Vcvs_plus, devices[d]->Vcvs_control_plus);
    lemma_names(devices[d]->Vcvs_plus, devices[d]->Vcvs_control_minus);
    lemma_names(devices[d]->Vcvs_minus, devices[d]->Vcvs_control_plus);
    lemma_names(devices[d]->Vcvs_minus, devices[d]->Vcvs_control_minus);
    lemma_names(devices[d]->Vcvs_control_plus, devices[d]->Vcvs_control_minus);
    reveal_with_fuel(writes_sum, 5);
    lemma_row_sum(solver, rows, i, x, numbers);
    let k = numbers.gain;
    let p = x[control_plus as int];
    let m = x[control_minus as int];
    lemma_times(k, p, m);
    lemma_times(k, m, p);
    lemma_times(k, x[plus as int], 0real);
    lemma_times(k, x[minus as int], 0real);
    lemma_times(k, p - m, 0real);
}

/// The signed sum of the currents `currents`.
pub open spec fn signed_sum(currents: Seq<(nat, Sign)>, x: Seq<real>) -> real
    decreases currents.len(),
{
    if currents.len() == 0 {
        0real
    } else {
        signed_sum(currents.drop_last(), x) + times(
            sign_value(currents.last().1),
            x[currents.last().0 as int],
        )
    }
}

/// The terms of the writes of a node's row are its signed currents.
proof fn lemma_current_writes_sum(currents: Seq<(nat, Sign)>, x: Seq<real>, numbers: Numbers)
    ensures
        writes_sum(current_writes(currents), x, numbers) == signed_sum(currents, x),
    decreases currents.len(),
{
    let writes = current_writes(currents);
    if currents.len() > 0 {
        assert(writes.drop_last() =~= current_writes(currents.drop_last()));
        lemma_current_writes_sum(currents.drop_last(), x, numbers);
    }
}

/// In every solution of the row of a node, the signed currents into the node sum to
/// zero, if no current is listed twice or every current listed twice is zero.
pub proof fn lemma_node_row(solver: Solver, rows: Seq<EquationModel>, i: int, x: Seq<real>, numbers: Numbers)
    requires
        assembled(solver, rows),
        x.len() == rows.len(),
        0 <= i < rows.len(),
        rows[i].in_range(rows.len()),
        rows[i] is NodeCurrents,
        repeats_vanish(rows[i].writes(), x),
    ensures
        row_holds(solver, i, x, numbers) <==> signed_sum(rows[i]->NodeCurrents_currents, x) == 0real,
{
    lemma_row_sum(solver, rows, i, x, numbers);
    lemma_current_writes_sum(rows[i]->NodeCurrents_currents, x, numbers);
}

/// The signed sum of the currents into `node`: of each device that carries current
/// there, with the sign with which it counts.
pub open spec fn currents_into(
    node: Seq<char>,
    devices: Seq<DeviceModel>,
    table: Seq<Seq<char>>,
    x: Seq<real>,
) -> real
    decreases devices.len(),
{
    if devices.len() == 0 {
        0real
    } else {
        currents_into(node, devices.drop_last(), table, x) + match devices.last().flow_into(node) {
            Some(sign) => times(sign_value(sign), current_through(table, x, devices.last().name())),
            None => 0real,
        }
    }
}

/// The row of node `k` of the nodes of `devices`: the row of the reference comes first,
/// and the reference node has no row among those of the nodes.
pub open spec fn node_row(devices: Seq<DeviceModel>, k: int) -> int {
    1 + node_equations(nodes_of(devices).take(k), devices).len() as int
}

/// The equation of node `k` stands after the equations of the nodes before it.
proof fn lemma_node_equation_at(nodes: Seq<Seq<char>>, devices: Seq<DeviceModel>, k: int)
    requires
        0 <= k < nodes.len(),
        nodes[k] != ground_name(),
    ensures
        node_equations(nodes.take(k), devices).len() < node_equations(nodes, devices).len(),
        node_equations(nodes, devices)[node_equations(nodes.take(k), devices).len() as int] == (
        NamedEquation::NodeCurrents { currents: node_currents(nodes[k], devices) }),
    decreases nodes.len(),
{
    if k == nodes.len() - 1 {
        assert(nodes.take(k) =~= nodes.drop_last());
    } else {
        lemma_node_equation_at(nodes.drop_last(), devices, k);
        assert(nodes.drop_last().take(k) =~= nodes.take(k));
    }
}

/// The currents into a node are those of different devices, if no two devices share a
/// name.
proof fn lemma_node_currents_distinct(node: Seq<char>, devices: Seq<DeviceModel>)
    requires
        device_names(devices).no_duplicates(),
    ensures
        current_names(node_currents(node, devices)).no_duplicates(),
    decreases devices.len(),
{
    if devices.len() > 0 {
        let rest = devices.drop_last();
        assert forall|i: int, j: int|
            0 <= i < rest.len() && 0 <= j < rest.len() && i != j implies device_names(rest)[i]
            != device_names(rest)[j] by {
            assert(device_names(devices)[i] == device_names(rest)[i]);
            assert(device_names(devices)[j] == device_names(rest)[j]);
        }
        lemma_node_currents_distinct(node, rest);
        match devices.last().flow_into(node) {
            Some(sign) => {
                let before = node_currents(node, rest);
                let name = current_unknown(devices.last().name());
                let names = current_names(before.push((name, sign)));
                assert(names =~= current_names(before).push(name));
                if current_names(before).contains(name) {
                    let j = lemma_current_witness(node, rest, name);
                    lemma_unknown_names(rest[j].name(), devices.last().name());
                    assert(device_names(devices)[j] == device_names(devices)[devices.len() - 1]);
                }
                assert forall|i: int, j: int|
                    0 <= i < names.len() && 0 <= j < names.len() && i != j implies names[i]
                    != names[j] by {
                    if i < before.len() && j < before.len() {
                        assert(current_names(before)[i] != current_names(before)[j]);
                    } else if i < before.len() {
                        assert(current_names(before).contains(names[i]));
                    } else {
                        assert(current_names(before).contains(names[j]));
                    }
                }
            },
            None => {},
        }
    }
}

/// The signed sum of currents given by name.
spec fn named_sum(named: Seq<(Seq<char>, Sign)>, table: Seq<Seq<char>>, x: Seq<real>) -> real
    decreases named.len(),
{
    if named.len() == 0 {
        0real
    } else {
        named_sum(named.drop_last(), table, x) + times(
            sign_value(named.last().1),
            current_through_name(table, x, named.last().0),
        )
    }
}

/// The unknown called `name`.
spec fn current_through_name(table: Seq<Seq<char>>, x: Seq<real>, name: Seq<char>) -> real {
    x[position(table, name) as int]
}

/// The sum of currents by column is their sum by name.
proof fn lemma_signed_sum_named(currents: Seq<(nat, Sign)>, table: Seq<Seq<char>>, x: Seq<real>)
    requires
        table.no_duplicates(),
        forall|k: int| 0 <= k < currents.len() ==> (#[trigger] currents[k]).0 < table.len(),
    ensures
        signed_sum(currents, x) == named_sum(named_currents(currents, table), table, x),
    decreases currents.len(),
{
    if currents.len() > 0 {
        let rest = currents.drop_last();
        assert(currents.last() == currents[currents.len() - 1]);
        assert forall|k: int| 0 <= k < rest.len() implies (#[trigger] rest[k]).0 < table.len() by {
            assert(rest[k] == currents[k]);
        }
        lemma_signed_sum_named(rest, table, x);
        assert(named_currents(currents, table).drop_last() =~= named_currents(rest, table));
        lemma_position(table, currents.last().0 as int);
    }
}

/// The sum of the currents into a node by name is their sum device by device.
proof fn lemma_named_sum_devices(
    node: Seq<char>,
    devices: Seq<DeviceModel>,
    table: Seq<Seq<char>>,
    x: Seq<real>,
)
    ensures
        named_sum(node_currents(node, devices), table, x) == currents_into(node, devices, table, x),
    decreases devices.len(),
{
    if devices.len() > 0 {
        lemma_named_sum_devices(node, devices.drop_last(), table, x);
        match devices.last().flow_into(node) {
            Some(sign) => {
                let before = node_currents(node, devices.drop_last());
                let step = (current_unknown(devices.last().name()), sign);
                assert(before.push(step).drop_last() =~= before);
            },
            None => {},
        }
    }
}

/// In every solution of the row of a node other than the reference, the signed currents
/// into the node sum to zero, if no two devices share a name.
pub proof fn lemma_node_law(
    solver: Solver,
    rows: Seq<EquationModel>,
    table: Seq<Seq<char>>,
    devices: Seq<DeviceModel>,
    k: int,
    x: Seq<real>,
    numbers: Numbers,
)
    requires
        lowered(solver, rows, table, devices),
        x.len() == table.len(),
        device_names(devices).no_duplicates(),
        0 <= k < nodes_of(devices).len(),
        nodes_of(devices)[k] != ground_name(),
    ensures
        row_holds(solver, node_row(devices, k), x, numbers) <==> currents_into(
            nodes_of(devices)[k],
            devices,
            table,
            x,
        ) == 0real,
{
    let nodes = nodes_of(devices);
    let node = nodes[k];
    let i = node_row(devices, k);
    lemma_node_equation_at(nodes, devices, k);
    let named = node_currents(node, devices);
    assert(equations_of(devices)[i] == (NamedEquation::NodeCurrents { currents: named }));
    let currents = rows[i]->NodeCurrents_currents;
    assert(named_currents(currents, table) == named);
    lemma_node_currents_distinct(node, devices);
    let writes = rows[i].writes();
    assert forall|a: int, b: int|
        0 <= a < writes.len() && 0 <= b < writes.len() && a != b implies (#[trigger] writes[a]).0 != (
        #[trigger] writes[b]).0 by {
        assert(current_names(named)[a] == table[currents[a].0 as int]);
        assert(current_names(named)[b] == table[currents[b].0 as int]);
    }
    lemma_node_row(solver, rows, i, x, numbers);
    lemma_signed_sum_named(currents, table, x);
    lemma_named_sum_devices(node, devices, table, x);
}

} // verus!
