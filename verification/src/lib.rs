//! Command-encoding layer of ISO/IEC 7816-4: serialization of logical
//! commands into wire-format APDUs (with command chaining and resumable
//! continuations), zero-copy parsing of received units, and bounded
//! reassembly of chained units back into one logical command.

pub mod class;
pub mod command;
pub mod laws;
pub mod parse;
pub mod reassemble;
pub mod serialize;
pub mod status;
pub mod wire;
pub mod writer;

pub use class::Class;
pub use class::InvalidClass;
pub use command::Command;
pub use parse::CommandView;
pub use parse::ParseError;
pub use reassemble::ChainStatus;
pub use reassemble::Reassembler;
pub use reassemble::ReassemblyError;
pub use serialize::Continuation;
pub use serialize::SerializeError;
pub use status::Status;
pub use writer::BufferWriter;
pub use writer::Writer;
