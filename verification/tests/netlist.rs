use filter_lib::la::Sign;
use filter_lib::netlist::parser::{ParseError, Parser};
use filter_lib::netlist::{Device, Exp, Netlist, NodeName, Value};

fn fault(text: &str) -> ParseError {
    match Netlist::from_str(text) {
        Ok(_) => panic!("no fault in {:?}", text),
        Err(e) => e,
    }
}

fn at(e: &ParseError) -> (usize, usize) {
    (e.location().line_num(), e.location().column())
}

fn node_names(netlist: &Netlist) -> Vec<String> {
    netlist.nodes().iter().map(|n| n.name().to_owned()).collect()
}

fn show(exp: &Exp) -> String {
    match exp {
        Exp::Value(v) => v.value().to_owned(),
        Exp::Sum(terms) => {
            format!("({})", terms.iter().map(|t| show(t)).collect::<Vec<_>>().join(" + "))
        }
        Exp::Product(factors) => {
            format!("({})", factors.iter().map(|f| show(f)).collect::<Vec<_>>().join(" * "))
        }
        Exp::Sin(x) => format!("sin[{}]", show(x)),
        Exp::Time => "t".to_owned(),
    }
}

fn exp_of(text: &str) -> Result<Exp, ParseError> {
    let mut parser = Parser::new(text.to_owned());
    Exp::parse(&mut parser)
}

#[test]
fn a_divider_is_read_device_by_device() {
    let netlist = Netlist::from_str("V1 1 0 1\nR1 1 2 1000\nR2 2 0 1000\nR3 2 0 500").unwrap();
    let devices = netlist.devices();
    assert_eq!(devices.len(), 4);
    assert_eq!(devices.iter().map(|d| d.name()).collect::<Vec<_>>(), vec!["V1", "R1", "R2", "R3"]);
    match &devices[0] {
        Device::Voltage { name, plus, minus, voltage } => {
            assert_eq!(name, "V1");
            assert_eq!(plus.name(), "1");
            assert_eq!(minus.name(), "0");
            assert_eq!(show(voltage), "1");
        }
        other => panic!("{:?}", other),
    }
    match &devices[3] {
        Device::Resistor { name, plus, minus, resistance } => {
            assert_eq!(name, "R3");
            assert_eq!(plus.name(), "2");
            assert_eq!(minus.name(), "0");
            assert_eq!(resistance.value(), "500");
        }
        other => panic!("{:?}", other),
    }
}

#[test]
fn every_type_of_device_is_read() {
    let text = "V1 1 0 2\nR1 1 0 1000\nC1 1 2 0.5\nD1 2 0\nE1 3 0 1 0 5\n";
    let netlist = text.parse::<Netlist>().unwrap();
    let devices = netlist.devices();
    assert!(matches!(&devices[0], Device::Voltage { .. }));
    assert!(matches!(&devices[1], Device::Resistor { .. }));
    assert!(
        matches!(&devices[2], Device::Capacitor { capacitance, plus, minus, .. }
            if capacitance.value() == "0.5" && plus.name() == "1" && minus.name() == "2")
    );
    assert!(
        matches!(&devices[3], Device::Diode { plus, minus, .. } if plus.name() == "2" && minus.name() == "0")
    );
    match &devices[4] {
        Device::Vcvs { name, plus, minus, control_plus, control_minus, gain } => {
            assert_eq!(name, "E1");
            assert_eq!(
                (plus.name(), minus.name(), control_plus.name(), control_minus.name()),
                ("3", "0", "1", "0")
            );
            assert_eq!(gain.value(), "5");
        }
        other => panic!("{:?}", other),
    }
}

#[test]
fn blank_lines_and_line_endings_are_passed_over() {
    let netlist = Netlist::from_str("\n\r\n  \nR1 1 0 5\r\n\n\nR2 1 0 6\n\n").unwrap();
    assert_eq!(netlist.devices().len(), 2);
}

#[test]
fn nodes_come_in_the_order_in_which_devices_first_name_them() {
    let netlist = Netlist::from_str("V1 1 0 1\nR1 1 2 1000\nR2 2 0 1000\nR3 2 0 500").unwrap();
    assert_eq!(node_names(&netlist), vec!["1", "0", "2"]);
    let netlist = Netlist::from_str("R1 5 4 1\nE1 3 0 5 9 2").unwrap();
    assert_eq!(node_names(&netlist), vec!["4", "5", "3", "0", "9"]);
}

#[test]
fn a_node_is_named_by_its_number() {
    let netlist = Netlist::from_str("R1 007 0 5\nR2 7 00 5").unwrap();
    assert_eq!(node_names(&netlist), vec!["0", "7"]);
}

#[test]
fn terminals_are_listed_in_the_direction_of_the_current() {
    let netlist = Netlist::from_str("V1 1 0 1\nR1 1 2 5\nC1 3 4 5\nD1 5 6\nE1 7 8 9 10 2").unwrap();
    let lists: Vec<Vec<String>> = netlist
        .devices()
        .iter()
        .map(|d| d.nodes().iter().map(|n| n.name().to_owned()).collect())
        .collect();
    assert_eq!(lists[0], vec!["1", "0"]);
    assert_eq!(lists[1], vec!["2", "1"]);
    assert_eq!(lists[2], vec!["4", "3"]);
    assert_eq!(lists[3], vec!["6", "5"]);
    assert_eq!(lists[4], vec!["7", "8", "9", "10"]);
}

#[test]
fn current_flows_into_the_first_terminal_and_out_of_the_second() {
    let netlist = Netlist::from_str("V1 1 0 1\nR1 1 2 5\nE1 3 0 1 2 2").unwrap();
    let devices = netlist.devices();
    let node = |n: &str| NodeName::new(n.to_owned());
    assert_eq!(devices[0].flow_into_node(&node("1")), Some(Sign::Plus));
    assert_eq!(devices[0].flow_into_node(&node("0")), Some(Sign::Minus));
    assert_eq!(devices[0].flow_into_node(&node("2")), None);
    assert_eq!(devices[1].flow_into_node(&node("2")), Some(Sign::Plus));
    assert_eq!(devices[1].flow_into_node(&node("1")), Some(Sign::Minus));
    assert_eq!(devices[2].flow_into_node(&node("3")), Some(Sign::Plus));
    assert_eq!(devices[2].flow_into_node(&NodeName::gnd()), Some(Sign::Minus));
    assert_eq!(devices[2].flow_into_node(&node("1")), None);
    assert_eq!(devices[2].flow_into_node(&node("2")), None);
}

#[test]
fn a_device_between_one_node_counts_as_flowing_in() {
    let netlist = Netlist::from_str("R1 0 0 5").unwrap();
    assert_eq!(netlist.devices()[0].flow_into_node(&NodeName::gnd()), Some(Sign::Plus));
}

#[test]
fn the_reference_node_is_called_zero() {
    assert_eq!(NodeName::gnd().name(), "0");
    assert!(NodeName::gnd() == NodeName::new("0".to_owned()));
    assert!(NodeName::gnd() != NodeName::new("00".to_owned()));
    assert_eq!(NodeName::gnd().clone().name(), "0");
}

#[test]
fn a_value_is_an_unsigned_decimal_numeral() {
    for good in ["0", "5", "1000", "0.000005", "12.50", "3."] {
        assert_eq!(Value::new(good).unwrap().value(), good);
    }
    for bad in ["", ".5", "-1", "1e5", "1.2.3", "1 ", "a", "1\u{b2}", "+1"] {
        assert!(Value::new(bad).is_none(), "{:?}", bad);
    }
    assert_eq!(Value::from_integer(0).value(), "0");
    assert_eq!(Value::from_integer(1203).value(), "1203");
    assert_eq!(Value::from_integer(usize::MAX).value(), format!("{}", usize::MAX));
    assert_eq!(Value::new("2.5").unwrap().clone().value(), "2.5");
}

#[test]
fn an_empty_text_holds_no_device() {
    for text in ["", "\n", "  \n\n"] {
        let e = fault(text);
        assert_eq!(e.message(), "Must contain at least one device");
        assert_eq!(e.location().line_num(), 1);
    }
    let e = fault("");
    assert_eq!((at(&e), e.location().line()), ((1, 0), ""));
    let e = fault("  \nx");
    assert_eq!(e.message(), "Unknown device type 'x'");
}

#[test]
fn a_netlist_must_touch_the_reference_node() {
    let e = fault("  R1 1 2 1000\nR2 2 3 5");
    assert_eq!(e.message(), "Must contain reference node \"0\"");
    assert_eq!(at(&e), (1, 2));
    assert_eq!(e.location().line(), "  R1 1 2 1000");
    assert!(Netlist::from_str("E1 1 2 3 0 5").is_ok());
}

#[test]
fn two_devices_may_not_share_a_name() {
    let e = fault("R1 1 0 5\n R1 2 0 5");
    assert_eq!(e.message(), "Duplicate device name");
    assert_eq!(at(&e), (2, 1));
    assert_eq!(e.location().line(), " R1 2 0 5");
}

#[test]
fn the_first_letter_of_a_name_is_the_type() {
    let e = fault("R1 1 0 5\nX1 1 0 5");
    assert_eq!(e.message(), "Unknown device type 'X'");
    assert_eq!(at(&e), (2, 0));
    assert_eq!(fault("r1 1 0 5").message(), "Unknown device type 'r'");
    assert_eq!(fault("\u{e9}1 1 0 5").message(), "Unknown device type '\u{e9}'");
}

#[test]
fn a_line_begins_with_a_name() {
    let e = fault("R1 1 0 5\n1 2 3");
    assert_eq!(e.message(), "Expected Ident");
    assert_eq!(at(&e), (2, 0));
    assert_eq!(fault("+").message(), "Expected Ident");
    assert_eq!(fault("0.5").message(), "Expected Ident");
}

#[test]
fn a_node_is_an_integer() {
    let e = fault("R1 a 0 5");
    assert_eq!(e.message(), "Expected node name");
    assert_eq!(at(&e), (1, 3));
    let e = fault("V1 1 GND 1");
    assert_eq!(e.message(), "Expected node name");
    assert_eq!(at(&e), (1, 5));
    assert_eq!(fault("R1 1.0 0 5").message(), "Expected node name");
    assert_eq!(fault("D1 1").message(), "Expected node name");
    assert_eq!(at(&fault("D1 1")), (1, 4));
    assert_eq!(fault("E1 1 0 2").message(), "Expected node name");
    assert_eq!(fault("R1 99999999999999999999999999 0 5").message(), "Expected node name");
}

#[test]
fn a_value_must_follow_the_nodes() {
    let e = fault("R1 1 0");
    assert_eq!(e.message(), "Expected value");
    assert_eq!(at(&e), (1, 6));
    assert_eq!(fault("C1 1 0 x").message(), "Expected value");
    assert_eq!(fault("E1 1 0 2 3").message(), "Expected value");
    assert_eq!(fault("R1 1 0 -5").message(), "Expected value");
}

#[test]
fn a_value_may_be_too_large_for_an_integer() {
    let netlist = Netlist::from_str("R1 1 0 99999999999999999999999999").unwrap();
    assert!(
        matches!(&netlist.devices()[0], Device::Resistor { resistance, .. }
            if resistance.value() == "99999999999999999999999999")
    );
}

#[test]
fn nothing_may_follow_a_device() {
    let e = fault("R1 1 0 5 6");
    assert_eq!(e.message(), "Expected Newline");
    assert_eq!(at(&e), (1, 9));
    assert_eq!(fault("D1 1 0 5").message(), "Expected Newline");
    assert_eq!(fault("C3 2 0 5e-5").message(), "Expected Newline");
    assert_eq!(at(&fault("C3 2 0 5e-5")), (1, 8));
    assert_eq!(fault("V1 1 0 5 5").message(), "Expected Newline");
    assert_eq!(fault("V1 1 0 (5)").message(), "Expected expression factor");
}

#[test]
fn the_first_fault_is_reported() {
    let e = fault("R1 1 0 5\nR1 x\nQ");
    assert_eq!(e.message(), "Duplicate device name");
    let e = fault("R1 1 0 5\nR2 x\nQ");
    assert_eq!(e.message(), "Expected node name");
    assert_eq!(at(&e), (2, 3));
}

#[test]
fn an_expression_is_a_sum_of_products() {
    assert_eq!(show(&exp_of("5").unwrap()), "5");
    assert_eq!(show(&exp_of("0.25").unwrap()), "0.25");
    assert_eq!(show(&exp_of("t").unwrap()), "t");
    assert_eq!(show(&exp_of("1+2+3").unwrap()), "(1 + 2 + 3)");
    assert_eq!(show(&exp_of("1*2*t").unwrap()), "(1 * 2 * t)");
    assert_eq!(show(&exp_of("1+2*3").unwrap()), "(1 + (2 * 3))");
    assert_eq!(show(&exp_of("2*3+1").unwrap()), "((2 * 3) + 1)");
    assert_eq!(show(&exp_of("sin(48000)").unwrap()), "sin[48000]");
    assert_eq!(
        show(&exp_of("4*sin(1000+10000*t)+30*t").unwrap()),
        "((4 * sin[(1000 + (10000 * t))]) + (30 * t))"
    );
    assert_eq!(show(&exp_of("sin(sin(t))*2").unwrap()), "(sin[sin[t]] * 2)");
    assert_eq!(show(&exp_of(" 1 + t ").unwrap()), "(1 + t)");
}

#[test]
fn an_expression_ends_where_no_operator_follows() {
    let mut parser = Parser::new("1+2 3".to_owned());
    assert_eq!(show(&Exp::parse(&mut parser).unwrap()), "(1 + 2)");
    assert_eq!(parser.cur_location().column(), 4);
}

#[test]
fn a_faulty_expression_is_reported_where_it_goes_wrong() {
    let e = exp_of("1 + foo").unwrap_err();
    assert_eq!(e.message(), "Unknown function/variable \"foo\"");
    assert_eq!(e.location().column(), 4);
    let e = exp_of("2*").unwrap_err();
    assert_eq!(e.message(), "Expected expression factor");
    assert_eq!(e.location().column(), 2);
    assert_eq!(exp_of("").unwrap_err().message(), "Expected expression factor");
    assert_eq!(exp_of("+1").unwrap_err().message(), "Expected expression factor");
    let e = exp_of("sin 5").unwrap_err();
    assert_eq!(e.message(), "Expected '('");
    assert_eq!(e.location().column(), 4);
    let e = exp_of("sin(5").unwrap_err();
    assert_eq!(e.message(), "Expected ')'");
    assert_eq!(e.location().column(), 5);
    let e = exp_of("sin(5+)").unwrap_err();
    assert_eq!(e.message(), "Expected expression factor");
    assert_eq!(e.location().column(), 6);
    assert_eq!(exp_of("T").unwrap_err().message(), "Unknown function/variable \"T\"");
}

#[test]
fn a_source_takes_an_expression() {
    let netlist = Netlist::from_str("V1 1 0 4*sin(1000+10000*t)+30*t").unwrap();
    match &netlist.devices()[0] {
        Device::Voltage { voltage, .. } => {
            assert_eq!(show(voltage), "((4 * sin[(1000 + (10000 * t))]) + (30 * t))");
            assert_eq!(show(&voltage.clone()), show(voltage));
        }
        other => panic!("{:?}", other),
    }
    let e = fault("R1 1 0 5\nV1 1 0 2*x");
    assert_eq!(e.message(), "Unknown function/variable \"x\"");
    assert_eq!(at(&e), (2, 9));
}

#[test]
fn a_netlist_can_be_copied() {
    let netlist = Netlist::from_str("V1 1 0 1\nR1 1 0 5").unwrap();
    let copy = netlist.clone();
    assert_eq!(copy.devices().len(), 2);
    assert_eq!(copy.devices()[1].name(), "R1");
    assert_eq!(copy.devices()[1].clone().name(), "R1");
}
