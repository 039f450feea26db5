use std::collections::BTreeMap;

use filter_lib::la::{Coefficient, Constant, EquationIndex, Sign, Solver, VariableIndex};
use filter_lib::netlist::{Exp, Netlist, Value};
use filter_lib::sim::transient::run::{Action, Run};
use filter_lib::sim::transient::{Equation, TransientSimulation};
use nalgebra::{DMatrix, DVector};

const G_MIN: f64 = 1.0 / 100_000_000.0;
const I_S: f64 = 1e-12;
const ONE_ON_N_VT: f64 = 1.0 / 1.5 / 0.025852;

fn scalar(value: &Value) -> f64 {
    value.value().parse().unwrap()
}

fn calc(exp: &Exp, time: f64) -> f64 {
    match exp {
        Exp::Value(value) => scalar(value),
        Exp::Sum(terms) => terms.iter().map(|t| calc(t, time)).sum(),
        Exp::Product(factors) => factors.iter().map(|f| calc(f, time)).product(),
        Exp::Sin(freq) => (time * calc(freq, time) * 0.5 * std::f64::consts::FRAC_1_PI).sin(),
        Exp::Time => time,
    }
}

/// What a device remembers between steps: the voltage of a capacitor, the conductance
/// and the offset voltage of a diode.
#[derive(Clone, Copy, Debug, PartialEq)]
struct State {
    voltage: f64,
    conductance: f64,
    offset: f64,
}

/// A double-precision back end for the library's equations.
struct Engine {
    compiled: TransientSimulation,
    pattern: Solver,
    state: Vec<State>,
    time: f64,
    solutions: Vec<Vec<f64>>,
}

impl Engine {
    fn new(text: &str) -> Engine {
        let compiled = TransientSimulation::new(&Netlist::from_str(text).unwrap());
        let pattern = compiled.assemble().unwrap();
        let state = compiled
            .equations()
            .iter()
            .map(|_| State { voltage: 0.0, conductance: G_MIN, offset: 0.0 })
            .collect();
        Engine { compiled, pattern, state, time: 0.0, solutions: Vec::new() }
    }

    fn coefficient(&self, row: usize, cell: Coefficient) -> f64 {
        let signed = |sign: Sign, x: f64| if sign == Sign::Plus { x } else { -x };
        match (cell, &self.compiled.equations()[row]) {
            (Coefficient::Zero, _) => 0.0,
            (Coefficient::Unit(sign), _) => signed(sign, 1.0),
            (Coefficient::Conductance(sign), Equation::Conductance { resistance, .. }) => {
                signed(sign, 1.0 / scalar(resistance))
            }
            (Coefficient::Conductance(sign), Equation::Diode { .. }) => {
                signed(sign, self.state[row].conductance)
            }
            (Coefficient::Gain(sign), Equation::Vcvs { gain, .. }) => signed(sign, scalar(gain)),
            other => panic!("{:?}", other),
        }
    }

    fn constant(&self, row: usize, entry: Constant, time: f64) -> f64 {
        match (entry, &self.compiled.equations()[row]) {
            (Constant::Zero, _) => 0.0,
            (Constant::SourceVoltage, Equation::Voltage { voltage, .. }) => calc(voltage, time),
            (Constant::StoredVoltage, Equation::Capacitor { .. }) => self.state[row].voltage,
            (Constant::OffsetCurrent, Equation::Diode { .. }) => {
                -(self.state[row].offset * self.state[row].conductance)
            }
            other => panic!("{:?}", other),
        }
    }

    fn system(&self, time: f64) -> (DMatrix<f64>, DVector<f64>) {
        let dim = self.pattern.dim();
        let mut a = DMatrix::zeros(dim, dim);
        let mut b = DVector::zeros(dim);
        for row in 0..dim {
            let eq = EquationIndex::from_index(row);
            for col in 0..dim {
                let cell = self.pattern.coefficient_at(eq, VariableIndex::from_index(col));
                a[(row, col)] = self.coefficient(row, cell);
            }
            b[row] = self.constant(row, self.pattern.constant_at(eq), time);
        }
        (a, b)
    }

    fn update(&mut self, x: &[f64], delta_t: f64) {
        for (row, equation) in self.compiled.equations().iter().enumerate() {
            match equation {
                Equation::Capacitor { capacitance, current, .. } => {
                    self.state[row].voltage +=
                        x[current.into_index()] * delta_t / scalar(capacitance);
                }
                Equation::Diode { plus_voltage_var, minus_voltage_var, .. } => {
                    let vd = x[plus_voltage_var.into_index()] - x[minus_voltage_var.into_index()];
                    if vd <= 0.0 {
                        self.state[row].conductance = G_MIN;
                        self.state[row].offset = 0.0;
                    } else {
                        let id = I_S * ((vd * ONE_ON_N_VT).exp() - 1.0);
                        let didv = (I_S * ONE_ON_N_VT) * (vd * ONE_ON_N_VT).exp();
                        self.state[row].conductance = didv;
                        self.state[row].offset = vd - (id / didv);
                    }
                }
                _ => (),
            }
        }
    }

    fn simulate(&mut self, delta_t: f64, steps: usize) -> BTreeMap<String, Vec<f64>> {
        let mut run = Run::new(self.pattern.dim(), steps);
        loop {
            match run.next() {
                Action::Solve { step } => {
                    let time = (step as f64) * delta_t + self.time;
                    let (a, b) = self.system(time);
                    let solution: Option<Vec<f64>> = a.lu().solve(&b).map(|x| x.as_slice().into());
                    if let Some(x) = &solution {
                        self.update(x, delta_t);
                        self.solutions.push(x.clone());
                    }
                    run.handle(solution);
                }
                Action::Finish => break,
                Action::Fail { step } => panic!("Solution failed at step {}", step),
            }
        }
        self.time += (steps as f64) * delta_t;
        run.finish(self.compiled.system()).unwrap().into_iter().collect()
    }

    fn column(&self, name: &str) -> usize {
        self.compiled.system().variables().iter().position(|v| v == name).unwrap()
    }
}

const DT: f64 = 1.0 / 48000.0;

fn close(a: f64, b: f64, tolerance: f64) -> bool {
    (a - b).abs() <= tolerance
}

#[test]
fn series_voltage_divider() {
    let mut engine = Engine::new("V1 1 0 1\nR1 1 2 1000\nR2 2 0 1000\nR3 2 0 500");
    let results = engine.simulate(DT, 10);
    assert_eq!(results.len(), 7);
    for step in 0..10 {
        assert!(close(results["V_1"][step], 1.0, 1e-12));
        assert!(close(results["V_2"][step], 0.25, 1e-12));
        assert!(close(results["V_0"][step], 0.0, 1e-15));
        // the current of the source is counted into its plus node
        assert!(close(results["I_V1"][step], 0.00075, 1e-15));
        assert!(close(results["I_R1"][step], 0.00075, 1e-15));
        assert!(close(results["I_R2"][step], 0.00025, 1e-15));
        assert!(close(results["I_R3"][step], 0.0005, 1e-15));
    }
}

#[test]
fn rc_low_pass_step_response() {
    let mut engine = Engine::new("V1 1 0 1\nR1 1 2 1000\nC3 2 0 0.00005");
    let results = engine.simulate(DT, 1001);
    let tau = 0.05;
    for n in [0usize, 1, 10, 100, 500, 1000] {
        let expected = 1.0 - (-(n as f64) * DT / tau).exp();
        let got = results["V_2"][n];
        assert!((got - expected).abs() <= 0.01 * expected.max(1e-12) + 1e-15, "{} {} {}", n, got, expected);
    }
    assert!(close(results["V_2"][1000], 0.3408, 1e-3));
}

#[test]
fn capacitor_voltage_is_the_sum_of_its_charges() {
    let mut engine = Engine::new("V1 1 0 1\nR1 1 2 1000\nC3 2 0 0.00005");
    let results = engine.simulate(DT, 200);
    let row = engine
        .compiled
        .equations()
        .iter()
        .position(|e| matches!(e, Equation::Capacitor { .. }))
        .unwrap();
    let sum: f64 = results["I_C3"].iter().sum();
    let expected = DT * sum / 0.00005;
    assert!(close(engine.state[row].voltage, expected, 1e-12));
    // the capacitor holds node 2 at the voltage stored before the step
    let before: f64 = results["I_C3"][..199].iter().sum::<f64>() * DT / 0.00005;
    assert!(close(results["V_2"][199], before, 1e-12));
}

#[test]
fn ideal_vcvs_gain() {
    let mut engine = Engine::new("V1 1 0 2\nR1 1 0 1000\nE1 3 0 1 0 5\nR2 3 0 1000");
    let results = engine.simulate(DT, 20);
    for step in 0..20 {
        assert!(close(results["V_3"][step], 10.0, 1e-9));
        assert!(close(results["V_1"][step], 2.0, 1e-12));
        assert!(close(results["I_R2"][step], 0.01, 1e-12));
    }
}

#[test]
fn diode_clamp() {
    let mut engine = Engine::new("V1 1 0 2\nR1 1 2 1000\nD1 2 0");
    let results = engine.simulate(DT, 300);
    let v2 = results["V_2"][299];
    let i = results["I_D1"][299];
    assert!(v2 > 0.6 && v2 < 0.9, "{}", v2);
    assert!(close(v2, 0.810_341_242, 1e-6), "{}", v2);
    assert!(close(v2, results["V_2"][298], 1e-9));
    // the operating point lies on the curve of the diode and on the line of the resistor
    assert!(close(i, (2.0 - v2) / 1000.0, 1e-9));
    assert!(close(i, I_S * ((v2 * ONE_ON_N_VT).exp() - 1.0), 1e-6), "{} {}", i, v2);
}

#[test]
fn diode_state_after_an_update() {
    let mut engine = Engine::new("V1 1 0 2\nR1 1 2 1000\nD1 2 0\nD2 0 2");
    engine.simulate(DT, 50);
    let x = engine.solutions.last().unwrap().clone();
    for (row, equation) in engine.compiled.equations().iter().enumerate() {
        if let Equation::Diode { plus_voltage_var, minus_voltage_var, .. } = equation {
            let vd = x[plus_voltage_var.into_index()] - x[minus_voltage_var.into_index()];
            let state = engine.state[row];
            if vd <= 0.0 {
                assert_eq!((state.conductance, state.offset), (G_MIN, 0.0));
            } else {
                let id = I_S * ((vd * ONE_ON_N_VT).exp() - 1.0);
                assert!(state.conductance > 0.0);
                assert!(close(vd - state.offset, id / state.conductance, 1e-12));
            }
        }
    }
}

#[test]
fn back_to_back_diodes_clamp_symmetrically() {
    let mut engine = Engine::new("V1 1 0 5*sin(500)\nR1 1 2 1000\nD1 2 0\nD2 0 2");
    let results = engine.simulate(DT, 6000);
    let v2 = &results["V_2"];
    let settled = &v2[500..];
    let max = settled.iter().cloned().fold(f64::MIN, f64::max);
    let min = settled.iter().cloned().fold(f64::MAX, f64::min);
    assert!(max > 0.6 && max < 1.0, "{}", max);
    assert!(min < -0.6 && min > -1.0, "{}", min);
    assert!(close(max, -min, 0.05), "{} {}", max, min);
}

#[test]
fn sine_source_evaluation() {
    let mut engine = Engine::new("V1 1 0 sin(48000)");
    let results = engine.simulate(DT, 100);
    for k in 0..100 {
        let expected = ((k as f64) * (1.0 / (2.0 * std::f64::consts::PI))).sin();
        assert!(close(results["V_1"][k], expected, 1e-9), "{}", k);
    }
    assert!(close(results["V_1"][1], 0.158_483_886_6, 1e-9));
}

#[test]
fn an_expression_is_evaluated_with_the_time() {
    let netlist = Netlist::from_str("V1 1 0 4*sin(1000+10000*t)+30*t").unwrap();
    let voltage = match &netlist.devices()[0] {
        filter_lib::netlist::Device::Voltage { voltage, .. } => voltage.clone(),
        other => panic!("{:?}", other),
    };
    let t: f64 = 0.01;
    let expected = 4.0 * (t * (1000.0 + 10000.0 * t) * 0.5 * std::f64::consts::FRAC_1_PI).sin() + 30.0 * t;
    assert!(close(calc(&voltage, t), expected, 1e-12));
    assert_eq!(calc(&voltage, 0.0), 0.0);
}

#[test]
fn the_reference_node_stays_at_zero() {
    let mut engine =
        Engine::new("V1 1 0 4*sin(1000+10000*t)+30*t\nR1 1 2 1000\nR2 2 0 100000\nC3 2 0 0.000005");
    let results = engine.simulate(DT, 200);
    assert!(results["V_0"].iter().all(|v| *v == 0.0));
}

#[test]
fn the_laws_of_the_devices_hold_of_every_solution() {
    let text = "V1 1 0 4*sin(1000+10000*t)+30*t\nR1 1 2 1000\nR2 2 0 100000\nC3 2 0 0.000005\nE1 4 0 2 3 10\nRg1 4 3 3000\nRg2 3 0 1000";
    let mut engine = Engine::new(text);
    let results = engine.simulate(DT, 300);
    let scale = |step: usize| results.values().map(|s| s[step].abs()).fold(1e-30, f64::max);
    for step in 0..300 {
        let e = 1e-9 * scale(step);
        let at = |name: &str| results[name][step];
        let time = (step as f64) * DT;
        // currents into each node sum to zero
        assert!(close(at("I_V1") - at("I_R1"), 0.0, e));
        assert!(close(at("I_R1") - at("I_R2") - at("I_C3"), 0.0, e));
        assert!(close(at("I_E1") - at("I_Rg1"), 0.0, e));
        assert!(close(at("I_Rg1") - at("I_Rg2"), 0.0, e));
        // sources, resistors, controlled sources
        let source = 4.0 * (time * (1000.0 + 10000.0 * time) * 0.5 * std::f64::consts::FRAC_1_PI).sin() + 30.0 * time;
        assert!(close(at("V_1") - at("V_0"), source, e));
        assert!(close(at("I_R1"), (at("V_1") - at("V_2")) / 1000.0, e));
        assert!(close(at("I_Rg2"), (at("V_3") - at("V_0")) / 1000.0, e));
        assert!(close(at("V_4") - at("V_0"), 10.0 * (at("V_2") - at("V_3")), 1e-6 * scale(step)));
    }
}

#[test]
fn scaling_resistances_and_voltages_scales_the_voltages() {
    let mut one = Engine::new("V1 1 0 1\nR1 1 2 1000\nR2 2 0 1000\nR3 2 0 500");
    let mut two = Engine::new("V1 1 0 4\nR1 1 2 4000\nR2 2 0 4000\nR3 2 0 2000");
    let (a, b) = (one.simulate(DT, 5), two.simulate(DT, 5));
    for step in 0..5 {
        for name in ["V_0", "V_1", "V_2"] {
            assert!(close(b[name][step], 4.0 * a[name][step], 1e-12));
        }
        for name in ["I_V1", "I_R1", "I_R2", "I_R3"] {
            assert!(close(b[name][step], a[name][step], 1e-15));
        }
    }
}

#[test]
fn two_runs_give_the_same_numbers() {
    let text = "V1 1 0 sin(1000)\nR1 1 2 1000\nC3 2 0 0.00005\nD1 2 0";
    let a = Engine::new(text).simulate(DT, 400);
    let b = Engine::new(text).simulate(DT, 400);
    assert_eq!(a, b);
}

#[test]
fn a_second_run_goes_on_where_the_first_ended() {
    let text = "V1 1 0 sin(1000)\nR1 1 2 1000\nC3 2 0 0.00005";
    let whole = Engine::new(text).simulate(DT, 300);
    let mut engine = Engine::new(text);
    let first = engine.simulate(DT, 100);
    let second = engine.simulate(DT, 200);
    assert!(close(engine.time, 300.0 * DT, 1e-12));
    for (name, series) in &whole {
        for step in 0..300 {
            let got = if step < 100 { first[name][step] } else { second[name][step - 100] };
            assert!(close(got, series[step], 1e-9), "{} {}", name, step);
        }
    }
}

#[test]
fn a_system_that_cannot_be_solved_has_no_solution() {
    // two sources in parallel: their currents cannot be told apart
    let engine = Engine::new("V1 1 0 1\nV2 1 0 1");
    let (a, b) = engine.system(0.0);
    assert!(a.lu().solve(&b).is_none());
    assert_eq!(engine.column("V_0"), 0);
}
