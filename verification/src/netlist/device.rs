//! Devices and their terminals.

use super::exp::{Exp, ExpModel};
use super::nodename::NodeName;
use super::value::Value;
use crate::la::Sign;
use vstd::prelude::*;

verus! {

/// A device of a circuit, between named nodes.
#[derive(Debug)]
pub enum Device {
    /// A voltage source: `plus` is held `voltage` above `minus`.
    Voltage { name: String, plus: NodeName, minus: NodeName, voltage: Exp },
    /// A resistor.
    Resistor { name: String, plus: NodeName, minus: NodeName, resistance: Value },
    /// A capacitor.
    Capacitor { name: String, plus: NodeName, minus: NodeName, capacitance: Value },
    /// A diode from anode `plus` to cathode `minus`.
    Diode { name: String, plus: NodeName, minus: NodeName },
    /// A voltage-controlled voltage source: `plus` is held above `minus` by `gain` times
    /// the voltage from `control_plus` to `control_minus`.
    Vcvs {
        name: String,
        plus: NodeName,
        minus: NodeName,
        control_plus: NodeName,
        control_minus: NodeName,
        gain: Value,
    },
}

/// A device with its names as texts, its values as numerals and its expression as a tree.
pub ghost enum DeviceModel {
    Voltage { name: Seq<char>, plus: Seq<char>, minus: Seq<char>, voltage: ExpModel },
    Resistor { name: Seq<char>, plus: Seq<char>, minus: Seq<char>, resistance: Seq<char> },
    Capacitor { name: Seq<char>, plus: Seq<char>, minus: Seq<char>, capacitance: Seq<char> },
    Diode { name: Seq<char>, plus: Seq<char>, minus: Seq<char> },
    Vcvs {
        name: Seq<char>,
        plus: Seq<char>,
        minus: Seq<char>,
        control_plus: Seq<char>,
        control_minus: Seq<char>,
        gain: Seq<char>,
    },
}

impl DeviceModel {
    /// The device's name.
    pub open spec fn name(self) -> Seq<char> {
        match self {
            DeviceModel::Voltage { name, .. } => name,
            DeviceModel::Resistor { name, .. } => name,
            DeviceModel::Capacitor { name, .. } => name,
            DeviceModel::Diode { name, .. } => name,
            DeviceModel::Vcvs { name, .. } => name,
        }
    }

    /// The letter with which the name of a device of this type begins.
    pub open spec fn type_letter(self) -> char {
        match self {
            DeviceModel::Voltage { .. } => 'V',
            DeviceModel::Resistor { .. } => 'R',
            DeviceModel::Capacitor { .. } => 'C',
            DeviceModel::Diode { .. } => 'D',
            DeviceModel::Vcvs { .. } => 'E',
        }
    }

    /// The nodes of the terminals. The device's current counts as flowing into the first
    /// and out of the second: a source lists `plus` first, a passive device `minus`.
    pub open spec fn terminals(self) -> Seq<Seq<char>> {
        match self {
            DeviceModel::Voltage { plus, minus, .. } => seq![plus, minus],
            DeviceModel::Resistor { plus, minus, .. } => seq![minus, plus],
            DeviceModel::Capacitor { plus, minus, .. } => seq![minus, plus],
            DeviceModel::Diode { plus, minus, .. } => seq![minus, plus],
            DeviceModel::Vcvs { plus, minus, control_plus, control_minus, .. } => seq![
                plus,
                minus,
                control_plus,
                control_minus,
            ],
        }
    }

    /// The sign with which the device's current enters the sum of currents into `node`,
    /// if the device carries current at that node.
    pub open spec fn flow_into(self, node: Seq<char>) -> Option<Sign> {
        if node == self.terminals()[0] {
            Some(Sign::Plus)
        } else if node == self.terminals()[1] {
            Some(Sign::Minus)
        } else {
            None
        }
    }
}

/// The names of a list of nodes.
pub open spec fn node_names(nodes: Seq<NodeName>) -> Seq<Seq<char>> {
    nodes.map_values(|n: NodeName| n@)
}

impl View for Device {
    type V = DeviceModel;

    open spec fn view(&self) -> DeviceModel {
        match self {
            Device::Voltage { name, plus, minus, voltage } => DeviceModel::Voltage {
                name: name@,
                plus: plus@,
                minus: minus@,
                voltage: voltage@,
            },
            Device::Resistor { name, plus, minus, resistance } => DeviceModel::Resistor {
                name: name@,
                plus: plus@,
                minus: minus@,
                resistance: resistance@,
            },
            Device::Capacitor { name, plus, minus, capacitance } => DeviceModel::Capacitor {
                name: name@,
                plus: plus@,
                minus: minus@,
                capacitance: capacitance@,
            },
            Device::Diode { name, plus, minus } => DeviceModel::Diode {
                name: name@,
                plus: plus@,
                minus: minus@,
            },
            Device::Vcvs { name, plus, minus, control_plus, control_minus, gain } => DeviceModel::Vcvs {
                name: name@,
                plus: plus@,
                minus: minus@,
                control_plus: control_plus@,
                control_minus: control_minus@,
                gain: gain@,
            },
        }
    }
}

impl Device {
    /// The device's name.
    pub fn name<'a>(&'a self) -> (r: &'a str)
        ensures
            r@ == self@.name(),
    {
        match self {
            Self::Voltage { name, .. } => name.as_str(),
            Self::Resistor { name, .. } => name.as_str(),
            Self::Capacitor { name, .. } => name.as_str(),
            Self::Diode { name, .. } => name.as_str(),
            Self::Vcvs { name, .. } => name.as_str(),
        }
    }

    /// The nodes of the terminals, in the order that fixes the direction of the current.
    pub fn nodes(&self) -> (r: Vec<NodeName>)
        ensures
            node_names(r@) == self@.terminals(),
    {
        let r = match self {
            Self::Voltage { plus, minus, .. } => vec![plus.clone(), minus.clone()],
            Self::Resistor { plus, minus, .. } => vec![minus.clone(), plus.clone()],
            Self::Capacitor { plus, minus, .. } => vec![minus.clone(), plus.clone()],
            Self::Diode { plus, minus, .. } => vec![minus.clone(), plus.clone()],
            Self::Vcvs { plus, minus, control_plus, control_minus, .. } => vec![
                plus.clone(),
                minus.clone(),
                control_plus.clone(),
                control_minus.clone(),
            ],
        };
        assert(node_names(r@) =~= self@.terminals());
        r
    }

    /// The sign with which the device's current enters the sum of currents into `node`:
    /// plus at the first terminal, minus at the second, none elsewhere.
    pub fn flow_into_node(&self, node: &NodeName) -> (r: Option<Sign>)
        ensures
            r == self@.flow_into(node@),
    {
        let nodes = self.nodes();
        assert(self@.terminals().len() >= 2);
        assert(node_names(nodes@).len() == nodes@.len());
        assert(node_names(nodes@)[0] == nodes[0]@);
        assert(node_names(nodes@)[1] == nodes[1]@);
        if *node == nodes[0] {
            return Some(Sign::Plus);
        }
        if *node == nodes[1] {
            return Some(Sign::Minus);
        }
        None
    }
}

impl Clone for Device {
    fn clone(&self) -> (r: Self)
        ensures
            r@ == self@,
    {
        match self {
            Self::Voltage { name, plus, minus, voltage } => Self::Voltage {
                name: name.clone(),
                plus: plus.clone(),
                minus: minus.clone(),
                voltage: voltage.clone(),
            },
            Self::Resistor { name, plus, minus, resistance } => Self::Resistor {
                name: name.clone(),
                plus: plus.clone(),
                minus: minus.clone(),
                resistance: resistance.clone(),
            },
            Self::Capacitor { name, plus, minus, capacitance } => Self::Capacitor {
                name: name.clone(),
                plus: plus.clone(),
                minus: minus.clone(),
                capacitance: capacitance.clone(),
            },
            Self::Diode { name, plus, minus } => Self::Diode {
                name: name.clone(),
                plus: plus.clone(),
                minus: minus.clone(),
            },
            Self::Vcvs { name, plus, minus, control_plus, control_minus, gain } => Self::Vcvs {
                name: name.clone(),
                plus: plus.clone(),
                minus: minus.clone(),
                control_plus: control_plus.clone(),
                control_minus: control_minus.clone(),
                gain: gain.clone(),
            },
        }
    }
}

} // verus!
