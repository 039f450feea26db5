use filter_lib::la::{Builder, Coefficient, Constant, EquationIndex, Sign, Solver, VariableIndex};
use filter_lib::netlist::Netlist;
use filter_lib::sim::transient::{Equation, TransientSimulation};

fn lower(text: &str) -> TransientSimulation {
    TransientSimulation::new(&Netlist::from_str(text).unwrap())
}

fn unknowns(sim: &TransientSimulation) -> Vec<String> {
    sim.system().variables().clone()
}

fn column(sim: &TransientSimulation, name: &str) -> usize {
    sim.system().variables().iter().position(|v| v == name).unwrap()
}

fn row(solver: &Solver, row: usize) -> Vec<Coefficient> {
    (0..solver.dim())
        .map(|col| solver.coefficient_at(EquationIndex::from_index(row), VariableIndex::from_index(col)))
        .collect()
}

fn sparse(solver: &Solver, r: usize) -> Vec<(usize, Coefficient)> {
    row(solver, r).into_iter().enumerate().filter(|(_, c)| *c != Coefficient::Zero).collect()
}

const DIVIDER: &str = "V1 1 0 1\nR1 1 2 1000\nR2 2 0 1000\nR3 2 0 500";

#[test]
fn unknowns_are_numbered_as_the_equations_first_ask_for_them() {
    let sim = lower(DIVIDER);
    assert_eq!(unknowns(&sim), vec!["V_0", "I_V1", "I_R1", "I_R2", "I_R3", "V_1", "V_2"]);
}

#[test]
fn a_divider_has_as_many_unknowns_as_equations() {
    let sim = lower(DIVIDER);
    assert_eq!(sim.unknown_count(), 7);
    assert_eq!(sim.equation_count(), 7);
    assert_eq!(sim.system().dim(), 7);
    assert_eq!(sim.equations().len(), 7);
}

#[test]
fn netlists_of_many_kinds_are_square() {
    for text in [
        "V1 1 0 1\nR1 1 2 1000\nC3 2 0 0.00005",
        "V1 1 0 2\nR1 1 0 1000\nE1 3 0 1 0 5\nR2 3 0 1000",
        "V1 1 0 2\nR1 1 2 1000\nD1 2 0",
        "V1 1 0 sin(1000)\nR1 1 2 1000\nD1 2 0\nD2 0 2",
        "V1 1 0 sin(48000)",
        "R1 0 0 5",
        "E1 1 0 2 3 4",
        "V1 1 0 4*sin(1000+10000*t)+30*t\nR1 1 2 1000\nR2 2 0 100000\nC3 2 0 0.000005\nD1 2 0\nD2 0 2\nRd 2 3 10000000\nE1 4 0 2 3 1000000\nRg1 4 3 3000\nRg2 3 0 1000",
    ] {
        let sim = lower(text);
        assert_eq!(sim.unknown_count(), sim.equation_count(), "{}", text);
        assert!(sim.assemble().is_some());
    }
}

#[test]
fn a_source_across_the_reference_node_leaves_its_current_out() {
    let sim = lower("V1 0 0 5\nR1 1 0 5");
    assert_eq!(unknowns(&sim), vec!["V_0", "I_R1", "V_1"]);
    assert_eq!(sim.equation_count(), 4);
    assert!(sim.assemble().is_none());
    let sim = lower("E1 0 0 1 0 5\nR1 1 0 5");
    assert_eq!(sim.unknown_count() + 1, sim.equation_count());
    assert!(sim.assemble().is_none());
}

#[test]
fn the_first_equation_fixes_the_reference_node() {
    let sim = lower(DIVIDER);
    assert!(matches!(sim.equations()[0], Equation::GndRef { gnd } if gnd.into_index() == 0));
    let sim = lower("R1 1 2 5\nR2 2 0 5");
    assert!(matches!(sim.equations()[0], Equation::GndRef { gnd } if gnd.into_index() == 0));
    assert_eq!(unknowns(&sim)[0], "V_0");
}

#[test]
fn every_node_but_the_reference_sums_its_currents() {
    let sim = lower(DIVIDER);
    let currents = |eq: &Equation| -> Vec<(usize, Sign)> {
        match eq {
            Equation::NodeCurrents { currents } => {
                currents.iter().map(|c| (c.0.into_index(), c.1)).collect()
            }
            other => panic!("{:?}", other),
        }
    };
    // node 1: the source lists it first, the resistor R1 second
    assert_eq!(currents(&sim.equations()[1]), vec![(1, Sign::Plus), (2, Sign::Minus)]);
    // node 2: R1 lists it first, R2 and R3 second
    assert_eq!(
        currents(&sim.equations()[2]),
        vec![(2, Sign::Plus), (3, Sign::Minus), (4, Sign::Minus)]
    );
}

#[test]
fn every_device_gives_its_law() {
    let sim = lower("V1 1 0 2\nR1 1 2 1000\nC1 2 0 0.5\nD1 2 0\nE1 3 0 1 2 5");
    let v = |name: &str| column(&sim, name);
    let eqs = sim.equations();
    assert_eq!(eqs.len(), 1 + 3 + 5);
    assert!(
        matches!(&eqs[4], Equation::Voltage { plus, minus, .. }
            if plus.into_index() == v("V_1") && minus.into_index() == v("V_0"))
    );
    assert!(
        matches!(&eqs[5], Equation::Conductance { resistance, plus, minus, current }
            if resistance.value() == "1000" && plus.into_index() == v("V_1")
                && minus.into_index() == v("V_2") && current.into_index() == v("I_R1"))
    );
    assert!(
        matches!(&eqs[6], Equation::Capacitor { capacitance, plus, minus, current }
            if capacitance.value() == "0.5" && plus.into_index() == v("V_2")
                && minus.into_index() == v("V_0") && current.into_index() == v("I_C1"))
    );
    assert!(
        matches!(&eqs[7], Equation::Diode { plus_voltage_var, minus_voltage_var, current_var }
            if plus_voltage_var.into_index() == v("V_2") && minus_voltage_var.into_index() == v("V_0")
                && current_var.into_index() == v("I_D1"))
    );
    assert!(
        matches!(&eqs[8], Equation::Vcvs { gain, plus_voltage_var, minus_voltage_var,
                control_plus_voltage_var, control_minus_voltage_var }
            if gain.value() == "5" && plus_voltage_var.into_index() == v("V_3")
                && minus_voltage_var.into_index() == v("V_0")
                && control_plus_voltage_var.into_index() == v("V_1")
                && control_minus_voltage_var.into_index() == v("V_2"))
    );
}

#[test]
fn a_control_terminal_carries_no_current() {
    let sim = lower("V1 1 0 2\nE1 3 0 1 0 5\nR2 3 0 1000");
    // node 1 sees the source only, node 3 the controlled source and the resistor
    match &sim.equations()[1] {
        Equation::NodeCurrents { currents } => {
            assert_eq!(currents.len(), 1);
            assert_eq!(currents[0].0.into_index(), column(&sim, "I_V1"));
        }
        other => panic!("{:?}", other),
    }
    match &sim.equations()[2] {
        Equation::NodeCurrents { currents } => {
            let seen: Vec<(usize, Sign)> = currents.iter().map(|c| (c.0.into_index(), c.1)).collect();
            assert_eq!(
                seen,
                vec![(column(&sim, "I_E1"), Sign::Plus), (column(&sim, "I_R2"), Sign::Minus)]
            );
        }
        other => panic!("{:?}", other),
    }
}

#[test]
fn the_rows_of_a_divider() {
    let sim = lower(DIVIDER);
    let solver = sim.assemble().unwrap();
    assert_eq!(solver.dim(), 7);
    let plus = Coefficient::Unit(Sign::Plus);
    let minus = Coefficient::Unit(Sign::Minus);
    assert_eq!(sparse(&solver, 0), vec![(0, plus)]);
    assert_eq!(sparse(&solver, 1), vec![(1, plus), (2, minus)]);
    assert_eq!(sparse(&solver, 2), vec![(2, plus), (3, minus), (4, minus)]);
    assert_eq!(sparse(&solver, 3), vec![(0, minus), (5, plus)]);
    assert_eq!(
        sparse(&solver, 4),
        vec![
            (2, plus),
            (5, Coefficient::Conductance(Sign::Minus)),
            (6, Coefficient::Conductance(Sign::Plus))
        ]
    );
    assert_eq!(
        sparse(&solver, 6),
        vec![
            (0, Coefficient::Conductance(Sign::Plus)),
            (4, plus),
            (6, Coefficient::Conductance(Sign::Minus))
        ]
    );
    let constants: Vec<Constant> =
        (0..7).map(|r| solver.constant_at(EquationIndex::from_index(r))).collect();
    assert_eq!(
        constants,
        vec![
            Constant::Zero,
            Constant::Zero,
            Constant::Zero,
            Constant::SourceVoltage,
            Constant::Zero,
            Constant::Zero,
            Constant::Zero
        ]
    );
}

#[test]
fn the_rows_of_a_capacitor_a_diode_and_a_controlled_source() {
    let sim = lower("V1 1 0 2\nC1 1 2 0.5\nD1 2 0\nE1 3 0 1 2 5\nR1 3 0 7");
    let solver = sim.assemble().unwrap();
    let v = |name: &str| column(&sim, name);
    let cell = |r: usize, name: &str| {
        solver.coefficient_at(EquationIndex::from_index(r), VariableIndex::from_index(v(name)))
    };
    let constant = |r: usize| solver.constant_at(EquationIndex::from_index(r));
    // rows: reference, three nodes, then V1 C1 D1 E1 R1
    assert_eq!(sparse(&solver, 5).len(), 2);
    assert_eq!(cell(5, "V_1"), Coefficient::Unit(Sign::Plus));
    assert_eq!(cell(5, "V_2"), Coefficient::Unit(Sign::Minus));
    assert_eq!(constant(5), Constant::StoredVoltage);
    assert_eq!(sparse(&solver, 6).len(), 3);
    assert_eq!(cell(6, "I_D1"), Coefficient::Unit(Sign::Plus));
    assert_eq!(cell(6, "V_2"), Coefficient::Conductance(Sign::Minus));
    assert_eq!(cell(6, "V_0"), Coefficient::Conductance(Sign::Plus));
    assert_eq!(constant(6), Constant::OffsetCurrent);
    assert_eq!(sparse(&solver, 7).len(), 4);
    assert_eq!(cell(7, "V_3"), Coefficient::Unit(Sign::Plus));
    assert_eq!(cell(7, "V_0"), Coefficient::Unit(Sign::Minus));
    assert_eq!(cell(7, "V_1"), Coefficient::Gain(Sign::Minus));
    assert_eq!(cell(7, "V_2"), Coefficient::Gain(Sign::Plus));
    assert_eq!(constant(7), Constant::Zero);
    assert_eq!(constant(8), Constant::Zero);
}

#[test]
fn of_two_writes_to_one_cell_the_later_stays() {
    // both output terminals on node 1: the write for minus comes last
    let sim = lower("R1 1 1 5\nR2 1 0 5");
    let solver = sim.assemble().unwrap();
    let r1 = 2;
    assert_eq!(
        sparse(&solver, r1),
        vec![
            (column(&sim, "I_R1"), Coefficient::Unit(Sign::Plus)),
            (column(&sim, "V_1"), Coefficient::Conductance(Sign::Plus))
        ]
    );
    // the control terminal shares the reference node with the output
    let sim = lower("V1 1 0 2\nE1 3 0 1 0 5\nR2 3 0 1000");
    let solver = sim.assemble().unwrap();
    let e1 = 1 + 2 + 1;
    assert_eq!(
        solver.coefficient_at(
            EquationIndex::from_index(e1),
            VariableIndex::from_index(column(&sim, "V_0"))
        ),
        Coefficient::Gain(Sign::Plus)
    );
}

#[test]
fn an_equation_fills_the_row_it_is_given_and_no_other() {
    let sim = lower(DIVIDER);
    let mut solver = Solver::new(7);
    *solver.coef(EquationIndex::from_index(5), VariableIndex::from_index(3)) =
        Coefficient::Gain(Sign::Plus);
    *solver.coef(EquationIndex::from_index(5), VariableIndex::from_index(6)) =
        Coefficient::Gain(Sign::Plus);
    *solver.constant(EquationIndex::from_index(5)) = Constant::StoredVoltage;
    *solver.constant(EquationIndex::from_index(1)) = Constant::OffsetCurrent;
    // the law of R1, written over what stands in row 5
    sim.equations()[4].fill(&mut solver, EquationIndex::from_index(5));
    assert_eq!(
        sparse(&solver, 5),
        vec![
            (2, Coefficient::Unit(Sign::Plus)),
            (3, Coefficient::Gain(Sign::Plus)),
            (5, Coefficient::Conductance(Sign::Minus)),
            (6, Coefficient::Conductance(Sign::Plus))
        ]
    );
    assert_eq!(solver.constant_at(EquationIndex::from_index(5)), Constant::StoredVoltage);
    assert_eq!(solver.constant_at(EquationIndex::from_index(1)), Constant::OffsetCurrent);
    for r in [0, 1, 2, 3, 4, 6] {
        assert!(sparse(&solver, r).is_empty());
    }
    // the reference equation writes its zero
    sim.equations()[0].fill(&mut solver, EquationIndex::from_index(1));
    assert_eq!(solver.constant_at(EquationIndex::from_index(1)), Constant::Zero);
    assert_eq!(sparse(&solver, 1), vec![(0, Coefficient::Unit(Sign::Plus))]);
}

#[test]
fn a_new_solver_holds_zeros() {
    let solver = Solver::new(3);
    assert_eq!(solver.dim(), 3);
    for r in 0..3 {
        assert!(sparse(&solver, r).is_empty());
        assert_eq!(solver.constant_at(EquationIndex::from_index(r)), Constant::Zero);
    }
    assert_eq!(Solver::new(0).dim(), 0);
}

#[test]
fn a_builder_numbers_names_in_the_order_of_first_sight() {
    let mut builder = Builder::new();
    assert_eq!(builder.find_var("V_1").into_index(), 0);
    assert_eq!(builder.find_var("I_R1").into_index(), 1);
    assert_eq!(builder.find_var("V_1").into_index(), 0);
    assert_eq!(builder.find_var("V_2").into_index(), 2);
    assert_eq!(builder.find_var("I_R1").into_index(), 1);
    assert_eq!(builder.new_equation().into_index(), 0);
    assert_eq!(builder.new_equation().into_index(), 1);
    assert_eq!(builder.find_var("").into_index(), 3);
    let system = builder.build();
    assert_eq!(system.dim(), 4);
    assert_eq!(system.variables(), &vec!["V_1", "I_R1", "V_2", ""]);
    assert_eq!(system.new_solver().dim(), 4);
}

#[test]
fn an_empty_builder_builds_an_empty_system() {
    let system = Builder::new().build();
    assert_eq!(system.dim(), 0);
    assert!(system.variables().is_empty());
}

#[test]
fn indices_are_plain_numbers() {
    assert_eq!(EquationIndex::from_index(5).into_index(), 5);
    assert_eq!(VariableIndex::from_index(7).into_index(), 7);
}

#[test]
fn a_solution_is_named_in_column_order() {
    let sim = lower("V1 1 0 5");
    assert_eq!(unknowns(&sim), vec!["V_0", "I_V1", "V_1"]);
    let named = sim.system().solution_to_named_vars(Some(vec![0.0, -1.5, 5.0])).unwrap();
    assert_eq!(
        named,
        vec![("V_0".to_owned(), 0.0), ("I_V1".to_owned(), -1.5), ("V_1".to_owned(), 5.0)]
    );
    assert!(sim.system().solution_to_named_vars(None::<Vec<f64>>).is_none());
    let series = sim
        .system()
        .solution_to_named_vars(Some(vec![vec![1u8], vec![2, 3], vec![]]))
        .unwrap();
    assert_eq!(series[1], ("I_V1".to_owned(), vec![2u8, 3]));
}

#[test]
fn lowering_twice_gives_the_same_system() {
    let netlist = Netlist::from_str(DIVIDER).unwrap();
    let one = TransientSimulation::new(&netlist);
    let two = TransientSimulation::new(&netlist.clone());
    assert_eq!(unknowns(&one), unknowns(&two));
    let (a, b) = (one.assemble().unwrap(), two.assemble().unwrap());
    for r in 0..7 {
        assert_eq!(row(&a, r), row(&b, r));
    }
}
