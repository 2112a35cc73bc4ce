//! What the checks of the wire registry and of the ports report.
use vstd::prelude::*;

verus! {

/// A fault found on one bit of a wire, or on a wire's name.
#[derive(Debug)]
pub enum WireError {
    /// The bit is read and nothing drives it.
    UnDriver(String, usize),
    /// The bit is driven and nothing reads it.
    Unload(String, usize),
    /// The bit has been registered as driven more than once.
    MultiDriver(String, usize),
    /// No wire of this name has been registered.
    UnknownWire(String),
}

/// A `WireError` with its name taken as a sequence of characters.
pub enum WireIssue {
    UnDriver(Seq<char>, usize),
    Unload(Seq<char>, usize),
    MultiDriver(Seq<char>, usize),
    UnknownWire(Seq<char>),
}

impl View for WireError {
    type V = WireIssue;

    open spec fn view(&self) -> WireIssue {
        match *self {
            WireError::UnDriver(n, b) => WireIssue::UnDriver(n@, b),
            WireError::Unload(n, b) => WireIssue::Unload(n@, b),
            WireError::MultiDriver(n, b) => WireIssue::MultiDriver(n@, b),
            WireError::UnknownWire(n) => WireIssue::UnknownWire(n@),
        }
    }
}

/// The views of a list of wire errors.
pub open spec fn issues(errors: Seq<WireError>) -> Seq<WireIssue> {
    Seq::new(errors.len(), |i: int| errors[i]@)
}

/// The faults of one port: its name and the faults of the wires bound to
/// it.
#[derive(Debug)]
pub enum PortError {
    Error1(String, Vec<WireError>),
}

} // verus!
