//! Netlists: devices over named nodes.

pub mod device;
pub mod exp;
pub mod netlist;
pub mod nodename;
pub mod parser;
pub mod value;

pub use device::Device;
pub use exp::Exp;
pub use netlist::Netlist;
pub use nodename::NodeName;
pub use parser::ParseError;
pub use value::Value;
