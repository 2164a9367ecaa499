use vstd::prelude::*;

verus! {

/// How severe a logged message is, in the second engine's naming.
#[derive(PartialEq, Eq, Structural, Debug, Clone, Copy)]
pub enum SeverityLevel {
    LOG,
    INFO,
    WARNING,
    ERROR,
    CRASH,
}

/// A logged message of the second engine.
pub type Message = crate::logger::Message<SeverityLevel>;

/// The message pool of the second engine.
pub type Logger = crate::logger::Logger<SeverityLevel>;

} // verus!
