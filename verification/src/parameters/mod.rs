//! Parameters describe the current, real-time state of a fixture: views (what the user
//! edits), values (the internal model) and encodings (what the fixture receives).

pub mod parameter_encoding;
pub mod parameter_runtime;
pub mod parameter_type;
pub mod parameter_value;
pub mod parameter_view;

pub use parameter_encoding::{DMXMappingTransformer, Endianness};
pub use parameter_runtime::{ParameterRuntime, ParameterUpdate};
pub use parameter_type::ParameterType;
pub use parameter_value::{
    elementwise_operands, ColorBasedOnComponents, OperandError, ParameterDescription, ParameterError, ParameterValue,
    ParameterValueDescription,
};
pub use parameter_view::{ParameterView, ViewKind, ViewValue, ViewValuePacket};
