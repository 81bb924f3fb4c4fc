use vstd::prelude::*;

verus! {

/// A shell control operator joining pipelines and jobs.
///
/// `NoChar` is the sentinel recorded after a pipeline that is followed by
/// no `&&`/`||` operator.
#[derive(Clone, Copy, Debug, PartialEq, Eq, Structural)]
pub enum ControlOperator {
    /// `&&`
    And,
    /// `||`
    Or,
    /// `|`
    Pipe,
    /// `&`
    BgAnd,
    /// `;`
    Semicolon,
    /// No operator present.
    NoChar,
}

} // verus!
