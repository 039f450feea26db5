//! The netlist: the devices of a circuit.

use super::device::{node_names, Device, DeviceModel};
use super::exp::{exp_at, peek_at, read, viewed, Exp, ExpModel, Parse};
use super::nodename::{ground_name, NodeName};
use super::parser::{
    expected_kind, lemma_advance_in_line, lemma_idents_nonempty, lex, lines_of, value_of, Cursor,
    ErrorModel, Lexeme, ParseError, ParseLocation, Parser, Token, TokenKind, TokenModel,
};
use super::value::Value;
use crate::text::{chars_of, decimal, to_decimal};
use vstd::seq_lib::{lemma_seq_concat_contains_all_elements, lemma_seq_contains_after_push};
use vstd::string::StringExecFns;
use crate::la::{
    intern, intern_all, interned, lemma_intern, lemma_intern_all_concat, lemma_intern_all_push,
};
use vstd::prelude::*;

verus! {

/// The models of a list of devices.
pub open spec fn device_models(devices: Seq<Device>) -> Seq<DeviceModel> {
    devices.map_values(|d: Device| d@)
}

/// The names of the devices, in order.
pub open spec fn device_names(devices: Seq<DeviceModel>) -> Seq<Seq<char>> {
    devices.map_values(|d: DeviceModel| d.name())
}

/// The nodes of all terminals, device by device.
pub open spec fn terminals_of(devices: Seq<DeviceModel>) -> Seq<Seq<char>>
    decreases devices.len(),
{
    if devices.len() == 0 {
        Seq::empty()
    } else {
        terminals_of(devices.drop_last()) + devices.last().terminals()
    }
}

/// The nodes of the circuit, each once, in the order in which the devices first name them.
pub open spec fn nodes_of(devices: Seq<DeviceModel>) -> Seq<Seq<char>> {
    interned(terminals_of(devices))
}

/// What holds of every netlist: there is a device; some terminal is on the reference
/// node; no two devices share a name; no device is named like a node; and every device's
/// name begins with the letter of its type.
pub open spec fn valid_netlist(devices: Seq<DeviceModel>) -> bool {
    &&& devices.len() >= 1
    &&& terminals_of(devices).contains(ground_name())
    &&& well_named(devices)
}

/// No two devices share a name, no device is named like a node, and every device's name
/// begins with the letter of its type.
pub open spec fn well_named(devices: Seq<DeviceModel>) -> bool {
    &&& device_names(devices).no_duplicates()
    &&& forall|i: int, j: int|
        0 <= i < devices.len() && 0 <= j < terminals_of(devices).len() ==> (#[trigger] devices[i]).name()
            != #[trigger] terminals_of(devices)[j]
    &&& forall|i: int|
        0 <= i < devices.len() ==> (#[trigger] devices[i]).name().len() >= 1 && devices[i].name()[0]
            == devices[i].type_letter()
}

/// The devices of a circuit, in the order in which they were written.
#[derive(Debug)]
pub struct Netlist {
    devices: Vec<Device>,
}

impl View for Netlist {
    type V = Seq<DeviceModel>;

    closed spec fn view(&self) -> Seq<DeviceModel> {
        device_models(self.devices@)
    }
}

/// Adds `node` to `nodes` unless a node of that name is there.
fn intern_node(nodes: &mut Vec<NodeName>, node: NodeName)
    requires
        node_names(old(nodes)@).no_duplicates(),
    ensures
        node_names(final(nodes)@) == intern(node_names(old(nodes)@), node@),
        node_names(final(nodes)@).no_duplicates(),
{
    let mut i: usize = 0;
    while i < nodes.len()
        invariant
            *nodes == *old(nodes),
            node_names(nodes@).no_duplicates(),
            i <= nodes.len(),
            forall|k: int| 0 <= k < i ==> node_names(nodes@)[k] != node@,
        decreases nodes.len() - i,
    {
        if nodes[i] == node {
            assert(node_names(nodes@)[i as int] == node@);
            return ;
        }
        i += 1;
    }
    proof {
        lemma_intern(node_names(nodes@), node@);
    }
    nodes.push(node);
    assert(node_names(nodes@) =~= node_names(old(nodes)@).push(node@));
}

impl Netlist {
    #[verifier::type_invariant]
    spec fn inv(&self) -> bool {
        valid_netlist(device_models(self.devices@))
    }

    /// The nodes of the circuit, each once, in the order in which the devices first name
    /// them.
    pub fn nodes(&self) -> (r: Vec<NodeName>)
        ensures
            node_names(r@) == nodes_of(self@),
            node_names(r@).no_duplicates(),
    {
        let mut out: Vec<NodeName> = Vec::new();
        let mut i: usize = 0;
        assert(node_names(out@) =~= Seq::<Seq<char>>::empty());
        assert(self@.take(0) =~= Seq::<DeviceModel>::empty());
        while i < self.devices.len()
            invariant
                i <= self.devices.len(),
                node_names(out@) == nodes_of(self@.take(i as int)),
                node_names(out@).no_duplicates(),
            decreases self.devices.len() - i,
        {
            let terminals = self.devices[i].nodes();
            let ghost before = node_names(out@);
            let ghost wanted = self@[i as int].terminals();
            let count: usize = terminals.len();
            let mut j: usize = 0;
            assert(wanted.take(0) =~= Seq::<Seq<char>>::empty());
            while j < count
                invariant
                    j <= count,
                    count == terminals.len(),
                    node_names(terminals@) == wanted,
                    node_names(out@) == intern_all(before, wanted.take(j as int)),
                    node_names(out@).no_duplicates(),
                decreases count - j,
            {
                let node = terminals[j].clone();
                assert(node@ == wanted[j as int]);
                intern_node(&mut out, node);
                proof {
                    lemma_intern_all_push(before, wanted.take(j as int), wanted[j as int]);
                    assert(wanted.take(j + 1) =~= wanted.take(j as int).push(wanted[j as int]));
                }
                j += 1;
            }
            proof {
                assert(wanted.take(count as int) =~= wanted);
                let done = self@.take(i + 1);
                assert(done.drop_last() =~= self@.take(i as int));
                assert(done.last() == self@[i as int]);
                lemma_intern_all_concat(
                    Seq::empty(),
                    terminals_of(self@.take(i as int)),
                    wanted,
                );
            }
            i += 1;
        }
        assert(self@.take(i as int) =~= self@);
        out
    }

    /// The devices, in the order in which they were written.
    pub fn devices(&self) -> (r: &Vec<Device>)
        ensures
            device_models(r@) == self@,
            valid_netlist(self@),
    {
        proof {
            use_type_invariant(self);
        }
        &self.devices
    }
}

impl Clone for Netlist {
    fn clone(&self) -> (r: Self)
        ensures
            r@ == self@,
    {
        proof {
            use_type_invariant(self);
        }
        let mut devices: Vec<Device> = Vec::new();
        let mut i: usize = 0;
        while i < self.devices.len()
            invariant
                i <= self.devices.len(),
                devices.len() == i,
                forall|k: int| 0 <= k < i ==> (#[trigger] devices[k])@ == self.devices[k]@,
            decreases self.devices.len() - i,
        {
            devices.push(self.devices[i].clone());
            i += 1;
        }
        assert(device_models(devices@) =~= device_models(self.devices@));
        Netlist { devices }
    }
}

/// A device joins a list of devices.
proof fn lemma_devices_push(devices: Seq<DeviceModel>, device: DeviceModel)
    ensures
        device_names(devices.push(device)) == device_names(devices).push(device.name()),
        terminals_of(devices.push(device)) == terminals_of(devices) + device.terminals(),
{
    assert(devices.push(device).drop_last() =~= devices);
    assert(device_names(devices.push(device)) =~= device_names(devices).push(device.name()));
}

/// A list of well-named devices stays so when a device joins whose name is new, named
/// like no node, and begins with the letter of its type, and whose nodes are named like
/// no device.
proof fn lemma_well_named_push(devices: Seq<DeviceModel>, device: DeviceModel)
    requires
        well_named(devices),
        !device_names(devices).contains(device.name()),
        !terminals_of(devices).contains(device.name()),
        forall|t: int|
            0 <= t < device.terminals().len() ==> !device_names(devices).push(device.name()).contains(
                #[trigger] device.terminals()[t],
            ),
        device.name().len() >= 1,
        device.name()[0] == device.type_letter(),
    ensures
        well_named(devices.push(device)),
{
    broadcast use lemma_seq_concat_contains_all_elements;
    broadcast use lemma_seq_contains_after_push;

    lemma_devices_push(devices, device);
    let all = devices.push(device);
    let names = device_names(all);
    let terminals = terminals_of(all);
    assert forall|i: int, j: int| 0 <= i < names.len() && 0 <= j < names.len() && i != j implies names[i]
        != names[j] by {
        if i < devices.len() && j < devices.len() {
            assert(names[i] == device_names(devices)[i]);
            assert(names[j] == device_names(devices)[j]);
        } else if i < devices.len() {
            assert(device_names(devices)[i] == names[i]);
        } else {
            assert(device_names(devices)[j] == names[j]);
        }
    }
    assert forall|i: int, j: int| 0 <= i < all.len() && 0 <= j < terminals.len() implies (
    #[trigger] all[i]).name() != #[trigger] terminals[j] by {
        let node = terminals[j];
        if j < terminals_of(devices).len() {
            assert(terminals_of(devices)[j] == node);
            if i < devices.len() {
                assert(all[i] == devices[i]);
            }
        } else {
            let t = j - terminals_of(devices).len();
            assert(device.terminals()[t] == node);
            assert(!device_names(devices).push(device.name()).contains(node));
            if i < devices.len() {
                assert(device_names(devices)[i] == devices[i].name());
                assert(all[i] == devices[i]);
            }
        }
    }
    assert forall|i: int| 0 <= i < all.len() implies (#[trigger] all[i]).name().len() >= 1
        && all[i].name()[0] == all[i].type_letter() by {
        if i < devices.len() {
            assert(all[i] == devices[i]);
        }
    }
}

/// The message that no type of device begins with `letter`.
pub open spec fn unknown_device(letter: char) -> Seq<char> {
    "Unknown device type '"@.push(letter) + "'"@
}

/// A node read from token `pos`: an integer, which names the node by its shortest
/// numeral. It must not be named like one of the devices `taken`.
pub open spec fn node_at(tokens: Seq<Lexeme>, pos: int, taken: Seq<Seq<char>>) -> Parse<Seq<char>> {
    match peek_at(tokens, pos) {
        TokenModel::Integer(n) => {
            if taken.contains(decimal(n)) {
                Parse::Failed { at: pos, message: "Node name conflicts with previous device name"@ }
            } else {
                Parse::Done { value: decimal(n), next: pos + 1 }
            }
        },
        _ => Parse::Failed { at: pos, message: "Expected node name"@ },
    }
}

/// Two nodes read from token `pos` on.
pub open spec fn two_nodes_at(tokens: Seq<Lexeme>, pos: int, taken: Seq<Seq<char>>) -> Parse<
    (Seq<char>, Seq<char>),
> {
    match node_at(tokens, pos, taken) {
        Parse::Done { value: plus, next } => match node_at(tokens, next, taken) {
            Parse::Done { value: minus, next: end } => Parse::Done { value: (plus, minus), next: end },
            Parse::Failed { at, message } => Parse::Failed { at, message },
        },
        Parse::Failed { at, message } => Parse::Failed { at, message },
    }
}

/// A number read from token `pos`: an integer or a value.
pub open spec fn value_at(tokens: Seq<Lexeme>, pos: int) -> Parse<Seq<char>> {
    match value_of(peek_at(tokens, pos)) {
        Some(numeral) => Parse::Done { value: numeral, next: pos + 1 },
        None => Parse::Failed { at: pos, message: "Expected value"@ },
    }
}

/// Two nodes and a number read from token `pos` on.
pub open spec fn two_nodes_value_at(tokens: Seq<Lexeme>, pos: int, taken: Seq<Seq<char>>) -> Parse<
    (Seq<char>, Seq<char>, Seq<char>),
> {
    match two_nodes_at(tokens, pos, taken) {
        Parse::Done { value: nodes, next } => match value_at(tokens, next) {
            Parse::Done { value, next: end } => Parse::Done {
                value: (nodes.0, nodes.1, value),
                next: end,
            },
            Parse::Failed { at, message } => Parse::Failed { at, message },
        },
        Parse::Failed { at, message } => Parse::Failed { at, message },
    }
}

/// Two nodes and an expression read from token `pos` on.
pub open spec fn two_nodes_exp_at(tokens: Seq<Lexeme>, pos: int, taken: Seq<Seq<char>>) -> Parse<
    (Seq<char>, Seq<char>, ExpModel),
> {
    match two_nodes_at(tokens, pos, taken) {
        Parse::Done { value: nodes, next } => match exp_at(tokens, next) {
            Parse::Done { value, next: end } => Parse::Done {
                value: (nodes.0, nodes.1, value),
                next: end,
            },
            Parse::Failed { at, message } => Parse::Failed { at, message },
        },
        Parse::Failed { at, message } => Parse::Failed { at, message },
    }
}

/// Four nodes and a number read from token `pos` on.
pub open spec fn four_nodes_value_at(tokens: Seq<Lexeme>, pos: int, taken: Seq<Seq<char>>) -> Parse<
    (Seq<char>, Seq<char>, Seq<char>, Seq<char>, Seq<char>),
> {
    match two_nodes_at(tokens, pos, taken) {
        Parse::Done { value: output, next } => match two_nodes_value_at(tokens, next, taken) {
            Parse::Done { value: rest, next: end } => Parse::Done {
                value: (output.0, output.1, rest.0, rest.1, rest.2),
                next: end,
            },
            Parse::Failed { at, message } => Parse::Failed { at, message },
        },
        Parse::Failed { at, message } => Parse::Failed { at, message },
    }
}

/// The device called `name` whose nodes and value are read from token 1 of its line on.
/// The first letter of the name says what to read: `C`, `R`: two nodes and a value; `D`:
/// two nodes; `E`: four nodes and a value; `V`: two nodes and an expression.
pub open spec fn device_at(tokens: Seq<Lexeme>, name: Seq<char>, taken: Seq<Seq<char>>) -> Parse<
    DeviceModel,
> {
    let letter = name[0];
    if letter == 'C' {
        match two_nodes_value_at(tokens, 1, taken) {
            Parse::Done { value, next } => Parse::Done {
                value: DeviceModel::Capacitor {
                    name,
                    plus: value.0,
                    minus: value.1,
                    capacitance: value.2,
                },
                next,
            },
            Parse::Failed { at, message } => Parse::Failed { at, message },
        }
    } else if letter == 'D' {
        match two_nodes_at(tokens, 1, taken) {
            Parse::Done { value, next } => Parse::Done {
                value: DeviceModel::Diode { name, plus: value.0, minus: value.1 },
                next,
            },
            Parse::Failed { at, message } => Parse::Failed { at, message },
        }
    } else if letter == 'E' {
        match four_nodes_value_at(tokens, 1, taken) {
            Parse::Done { value, next } => Parse::Done {
                value: DeviceModel::Vcvs {
                    name,
                    plus: value.0,
                    minus: value.1,
                    control_plus: value.2,
                    control_minus: value.3,
                    gain: value.4,
                },
                next,
            },
            Parse::Failed { at, message } => Parse::Failed { at, message },
        }
    } else if letter == 'R' {
        match two_nodes_value_at(tokens, 1, taken) {
            Parse::Done { value, next } => Parse::Done {
                value: DeviceModel::Resistor {
                    name,
                    plus: value.0,
                    minus: value.1,
                    resistance: value.2,
                },
                next,
            },
            Parse::Failed { at, message } => Parse::Failed { at, message },
        }
    } else if letter == 'V' {
        match two_nodes_exp_at(tokens, 1, taken) {
            Parse::Done { value, next } => Parse::Done {
                value: DeviceModel::Voltage { name, plus: value.0, minus: value.1, voltage: value.2 },
                next,
            },
            Parse::Failed { at, message } => Parse::Failed { at, message },
        }
    } else {
        Parse::Failed { at: 0, message: unknown_device(letter) }
    }
}

/// What a line adds to the devices `devices`: nothing if it is blank, else the device
/// that it describes from its name to its end.
pub open spec fn line_at(tokens: Seq<Lexeme>, devices: Seq<DeviceModel>) -> Parse<Option<DeviceModel>> {
    match peek_at(tokens, 0) {
        TokenModel::Newline => Parse::Done { value: None, next: 1 },
        TokenModel::Ident(name) => {
            if device_names(devices).contains(name) {
                Parse::Failed { at: 0, message: "Duplicate device name"@ }
            } else if terminals_of(devices).contains(name) {
                Parse::Failed { at: 0, message: "Device name conflicts with previous node name"@ }
            } else {
                match device_at(tokens, name, device_names(devices).push(name)) {
                    Parse::Done { value, next } => {
                        if peek_at(tokens, next) is Newline {
                            Parse::Done { value: Some(value), next: next + 1 }
                        } else {
                            Parse::Failed { at: next, message: expected_kind(TokenKind::Newline) }
                        }
                    },
                    Parse::Failed { at, message } => Parse::Failed { at, message },
                }
            }
        },
        _ => Parse::Failed { at: 0, message: expected_kind(TokenKind::Ident) },
    }
}

/// The devices of the lines from `i` on, after the devices `devices` of the lines before,
/// or the first fault.
pub open spec fn devices_from(lines: Seq<Seq<char>>, i: int, devices: Seq<DeviceModel>) -> Result<
    Seq<DeviceModel>,
    ErrorModel,
>
    decreases lines.len() - i,
{
    if 0 <= i < lines.len() {
        match line_at(lex(lines[i]), devices) {
            Parse::Done { value, .. } => devices_from(
                lines,
                i + 1,
                match value {
                    Some(device) => devices.push(device),
                    None => devices,
                },
            ),
            Parse::Failed { at, message } => Err(
                ErrorModel {
                    message,
                    location: (Cursor { lines, line: i as nat, token: 0 }).location_of(at),
                },
            ),
        }
    } else {
        Ok(devices)
    }
}

/// The netlist that `text` describes, or the first fault in it. A text without a device,
/// or without a terminal on the reference node, is at fault where it begins.
pub open spec fn netlist_of(text: Seq<char>) -> Result<Seq<DeviceModel>, ErrorModel> {
    let lines = lines_of(text);
    let start = (Cursor { lines, line: 0, token: 0 }).location();
    match devices_from(lines, 0, Seq::empty()) {
        Ok(devices) => {
            if devices.len() == 0 {
                Err(ErrorModel { message: "Must contain at least one device"@, location: start })
            } else if !terminals_of(devices).contains(ground_name()) {
                Err(ErrorModel { message: "Must contain reference node \"0\""@, location: start })
            } else {
                Ok(devices)
            }
        },
        Err(e) => Err(e),
    }
}

/// Whether one of `devices` is called `name`.
fn names_device(devices: &Vec<Device>, name: &String) -> (r: bool)
    ensures
        r == device_names(device_models(devices@)).contains(name@),
{
    let ghost names = device_names(device_models(devices@));
    let mut i: usize = 0;
    while i < devices.len()
        invariant
            i <= devices.len(),
            names == device_names(device_models(devices@)),
            forall|k: int| 0 <= k < i ==> names[k] != name@,
        decreases devices.len() - i,
    {
        assert(names[i as int] == devices[i as int]@.name());
        if devices[i].name().to_owned() == *name {
            return true;
        }
        i += 1;
    }
    false
}

/// Whether a terminal of one of `devices` is on the node called `name`.
fn names_node(devices: &Vec<Device>, name: &String) -> (r: bool)
    ensures
        r == terminals_of(device_models(devices@)).contains(name@),
{
    broadcast use lemma_seq_concat_contains_all_elements;

    let ghost models = device_models(devices@);
    let mut i: usize = 0;
    assert(models.take(0) =~= Seq::<DeviceModel>::empty());
    while i < devices.len()
        invariant
            i <= devices.len(),
            models == device_models(devices@),
            !terminals_of(models.take(i as int)).contains(name@),
        decreases devices.len() - i,
    {
        let nodes = devices[i].nodes();
        let ghost terminals = models[i as int].terminals();
        proof {
            assert(models.take(i + 1).drop_last() =~= models.take(i as int));
            assert(models.take(i + 1).last() == models[i as int]);
        }
        let mut j: usize = 0;
        while j < nodes.len()
            invariant
                j <= nodes.len(),
                i < devices.len(),
                models == device_models(devices@),
                node_names(nodes@) == terminals,
                terminals_of(models.take(i + 1)) == terminals_of(models.take(i as int)) + terminals,
                forall|k: int| 0 <= k < j ==> terminals[k] != name@,
            decreases nodes.len() - j,
        {
            assert(terminals[j as int] == nodes[j as int]@);
            if nodes[j].name().to_owned() == *name {
                proof {
                    assert(terminals.contains(name@));
                    lemma_seq_concat_contains_all_elements(
                        terminals_of(models.take(i as int)),
                        terminals,
                        name@,
                    );
                    lemma_terminals_grow(models, i + 1, name@);
                }
                return true;
            }
            j += 1;
        }
        i += 1;
    }
    assert(models.take(i as int) =~= models);
    false
}

/// A node among the terminals of the first devices is among the terminals of all.
proof fn lemma_terminals_grow(devices: Seq<DeviceModel>, k: int, node: Seq<char>)
    requires
        0 <= k <= devices.len(),
        terminals_of(devices.take(k)).contains(node),
    ensures
        terminals_of(devices).contains(node),
    decreases devices.len() - k,
{
    broadcast use lemma_seq_concat_contains_all_elements;

    if k < devices.len() {
        assert(devices.take(k + 1).drop_last() =~= devices.take(k));
        lemma_terminals_grow(devices, k + 1, node);
    } else {
        assert(devices.take(k) =~= devices);
    }
}

/// Reads a node.
fn parse_node(parser: &mut Parser, devices: &Vec<Device>, name: &String) -> (r: Result<
    NodeName,
    ParseError,
>)
    requires
        old(parser).wf(),
    ensures
        final(parser).wf(),
        read(
            old(parser)@,
            final(parser)@,
            node_at(
                old(parser)@.lexemes(),
                old(parser)@.token as int,
                device_names(device_models(devices@)).push(name@),
            ),
            viewed(r),
        ),
{
    broadcast use lemma_seq_contains_after_push;

    proof {
        lemma_advance_in_line(parser@);
    }
    let location = parser.cur_location();
    let node = match parser.peek() {
        Token::Integer(number) => to_decimal(*number),
        _ => {
            return Err(location.into_error_named(String::from_str("Expected node name")));
        },
    };
    if node == *name || names_device(devices, &node) {
        return Err(
            location.into_error_named(
                String::from_str("Node name conflicts with previous device name"),
            ),
        );
    }
    match parser.expect(TokenKind::Integer) {
        Ok(_) => Ok(NodeName::new(node)),
        Err(e) => Err(e),
    }
}

/// Reads two nodes.
fn parse_two_terminal_basic(parser: &mut Parser, devices: &Vec<Device>, name: &String) -> (r: Result<
    (NodeName, NodeName),
    ParseError,
>)
    requires
        old(parser).wf(),
    ensures
        final(parser).wf(),
        read(
            old(parser)@,
            final(parser)@,
            two_nodes_at(
                old(parser)@.lexemes(),
                old(parser)@.token as int,
                device_names(device_models(devices@)).push(name@),
            ),
            match r {
                Ok(v) => Ok((v.0@, v.1@)),
                Err(e) => Err(e@),
            },
        ),
{
    let plus = match parse_node(parser, devices, name) {
        Ok(node) => node,
        Err(e) => {
            return Err(e);
        },
    };
    let minus = match parse_node(parser, devices, name) {
        Ok(node) => node,
        Err(e) => {
            return Err(e);
        },
    };
    Ok((plus, minus))
}

/// Reads two nodes and a number.
fn parse_two_terminal(parser: &mut Parser, devices: &Vec<Device>, name: &String) -> (r: Result<
    (NodeName, NodeName, Value),
    ParseError,
>)
    requires
        old(parser).wf(),
    ensures
        final(parser).wf(),
        read(
            old(parser)@,
            final(parser)@,
            two_nodes_value_at(
                old(parser)@.lexemes(),
                old(parser)@.token as int,
                device_names(device_models(devices@)).push(name@),
            ),
            match r {
                Ok(v) => Ok((v.0@, v.1@, v.2@)),
                Err(e) => Err(e@),
            },
        ),
{
    let (plus, minus) = match parse_two_terminal_basic(parser, devices, name) {
        Ok(nodes) => nodes,
        Err(e) => {
            return Err(e);
        },
    };
    proof {
        lemma_advance_in_line(parser@);
    }
    let value = match parser.expect_value() {
        Ok(value) => value,
        Err(e) => {
            return Err(e);
        },
    };
    Ok((plus, minus, value))
}

/// Reads two nodes and an expression.
fn parse_two_terminal_exp(parser: &mut Parser, devices: &Vec<Device>, name: &String) -> (r: Result<
    (NodeName, NodeName, Exp),
    ParseError,
>)
    requires
        old(parser).wf(),
    ensures
        final(parser).wf(),
        read(
            old(parser)@,
            final(parser)@,
            two_nodes_exp_at(
                old(parser)@.lexemes(),
                old(parser)@.token as int,
                device_names(device_models(devices@)).push(name@),
            ),
            match r {
                Ok(v) => Ok((v.0@, v.1@, v.2@)),
                Err(e) => Err(e@),
            },
        ),
{
    let (plus, minus) = match parse_two_terminal_basic(parser, devices, name) {
        Ok(nodes) => nodes,
        Err(e) => {
            return Err(e);
        },
    };
    let exp = match Exp::parse(parser) {
        Ok(exp) => exp,
        Err(e) => {
            return Err(e);
        },
    };
    Ok((plus, minus, exp))
}

/// Reads the nodes and the value of the device called `name`, whose line begins at
/// `line_location`.
fn parse_device(
    parser: &mut Parser,
    devices: &Vec<Device>,
    name: String,
    line_location: ParseLocation,
) -> (r: Result<Device, ParseError>)
    requires
        old(parser).wf(),
        old(parser)@.token == 1,
        name@.len() >= 1,
        line_location@ == old(parser)@.location_of(0),
    ensures
        final(parser).wf(),
        match device_at(
            old(parser)@.lexemes(),
            name@,
            device_names(device_models(devices@)).push(name@),
        ) {
            Parse::Done { value, next } => r matches Ok(device) && device@ == value && final(parser)@
                == old(parser)@.at(next) && 1 <= next < old(parser)@.lexemes().len() && value.name()
                == name@ && value.type_letter() == name@[0] && forall|t: int|
                0 <= t < value.terminals().len() ==> !device_names(device_models(devices@)).push(
                    name@,
                ).contains(#[trigger] value.terminals()[t]),
            Parse::Failed { at, message } => r matches Err(e) && e@ == (ErrorModel {
                message,
                location: old(parser)@.location_of(at),
            }),
        },
{
    let chars = chars_of(name.as_str());
    let letter = chars[0];
    if letter == 'C' {
        match parse_two_terminal(parser, devices, &name) {
            Ok((plus, minus, capacitance)) => Ok(Device::Capacitor { name, plus, minus, capacitance }),
            Err(e) => Err(e),
        }
    } else if letter == 'D' {
        match parse_two_terminal_basic(parser, devices, &name) {
            Ok((plus, minus)) => Ok(Device::Diode { name, plus, minus }),
            Err(e) => Err(e),
        }
    } else if letter == 'E' {
        let (plus, minus) = match parse_two_terminal_basic(parser, devices, &name) {
            Ok(nodes) => nodes,
            Err(e) => {
                return Err(e);
            },
        };
        match parse_two_terminal(parser, devices, &name) {
            Ok((control_plus, control_minus, gain)) => Ok(
                Device::Vcvs { name, plus, minus, control_plus, control_minus, gain },
            ),
            Err(e) => Err(e),
        }
    } else if letter == 'R' {
        match parse_two_terminal(parser, devices, &name) {
            Ok((plus, minus, resistance)) => Ok(Device::Resistor { name, plus, minus, resistance }),
            Err(e) => Err(e),
        }
    } else if letter == 'V' {
        match parse_two_terminal_exp(parser, devices, &name) {
            Ok((plus, minus, voltage)) => Ok(Device::Voltage { name, plus, minus, voltage }),
            Err(e) => Err(e),
        }
    } else {
        let mut message = String::from_str("Unknown device type '");
        message.push(letter);
        message.append("'");
        Err(line_location.into_error_named(message))
    }
}

impl Netlist {
    /// Reads a netlist, one device to a line: the netlist of [`netlist_of`], or the first
    /// fault that it finds.
    pub fn from_str(s: &str) -> (r: Result<Netlist, ParseError>)
        ensures
            match netlist_of(s@) {
                Ok(devices) => r matches Ok(netlist) && netlist@ == devices && valid_netlist(devices),
                Err(e) => r matches Err(x) && x@ == e,
            },
    {
        let mut parser = Parser::new(s.to_owned());
        let start_location = parser.cur_location();
        let mut devices: Vec<Device> = Vec::new();
        let ghost lines = lines_of(s@);
        assert(device_models(devices@) =~= Seq::<DeviceModel>::empty());
        assert(device_names(Seq::<DeviceModel>::empty()) =~= Seq::<Seq<char>>::empty());

        while parser.more_lines()
            invariant
                lines == lines_of(s@),
                start_location@ == (Cursor { lines, line: 0, token: 0 }).location(),
                parser.wf(),
                parser@ == (Cursor { lines, line: parser@.line, token: 0 }),
                devices_from(lines, 0, Seq::empty()) == devices_from(
                    lines,
                    parser@.line as int,
                    device_models(devices@),
                ),
                well_named(device_models(devices@)),
            decreases lines.len() - parser@.line,
        {
            let ghost here = parser@;
            let ghost before = device_models(devices@);
            proof {
                lemma_advance_in_line(here);
                lemma_idents_nonempty(here.text(), 0);
            }
            let line_location = parser.cur_location();
            let kind = parser.peek().kind();
            match kind {
                TokenKind::Newline => {
                    // Empty line
                    match parser.expect(TokenKind::Newline) {
                        Ok(_) => {},
                        Err(e) => {
                            return Err(e);
                        },
                    }
                },
                TokenKind::Ident => {
                    let name = match parser.expect_ident() {
                        Ok(name) => name,
                        Err(e) => {
                            return Err(e);
                        },
                    };
                    if names_device(&devices, &name) {
                        return Err(
                            line_location.into_error_named(String::from_str("Duplicate device name")),
                        );
                    }
                    if names_node(&devices, &name) {
                        return Err(
                            line_location.into_error_named(
                                String::from_str("Device name conflicts with previous node name"),
                            ),
                        );
                    }
                    let device = match parse_device(&mut parser, &devices, name, line_location) {
                        Ok(device) => device,
                        Err(e) => {
                            return Err(e);
                        },
                    };
                    proof {
                        lemma_advance_in_line(parser@);
                    }
                    match parser.expect(TokenKind::Newline) {
                        Ok(_) => {},
                        Err(e) => {
                            return Err(e);
                        },
                    }
                    proof {
                        lemma_well_named_push(before, device@);
                        assert(device_models(devices@.push(device)) =~= before.push(device@));
                    }
                    devices.push(device);
                },
                _ => {
                    // Failure
                    match parser.expect(TokenKind::Ident) {
                        Ok(_) => {},
                        Err(e) => {
                            return Err(e);
                        },
                    }
                },
            }
        }

        // Final checks
        if devices.len() == 0 {
            return Err(
                start_location.into_error_named(String::from_str("Must contain at least one device")),
            );
        }
        if !names_node(&devices, &NodeName::gnd().name().to_owned()) {
            return Err(
                start_location.into_error_named(
                    String::from_str("Must contain reference node \"0\""),
                ),
            );
        }
        let netlist = Netlist { devices };
        proof {
            use_type_invariant(&netlist);
        }
        Ok(netlist)
    }
}

impl std::str::FromStr for Netlist {
    type Err = ParseError;

    /// Reads a netlist as [`Netlist::from_str`] does.
    fn from_str(s: &str) -> (r: Result<Self, Self::Err>)
        ensures
            match netlist_of(s@) {
                Ok(devices) => r matches Ok(netlist) && netlist@ == devices && valid_netlist(devices),
                Err(e) => r matches Err(x) && x@ == e,
            },
    {
        Netlist::from_str(s)
    }
}

} // verus!
