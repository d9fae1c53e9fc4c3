//! Mapping log severities to the message prefixes the system journal
//! understands.

use vstd::prelude::*;

verus! {

/// A log message's severity.
#[derive(Debug, PartialEq, Eq, Structural, Clone, Copy)]
pub enum LogLevel {
    Error,
    Warn,
    Info,
    Debug,
    Trace,
}

/// The journal priority prefix for a message of the given severity.
pub fn level_to_msg_prefix(level: LogLevel) -> (r: &'static str)
    ensures
        level is Error ==> r@ == "<3>"@,
        level is Warn ==> r@ == "<4>"@,
        level is Info ==> r@ == "<6>"@,
        level is Debug ==> r@ == "<7>"@,
        level is Trace ==> r@ == "<7>"@,
{
    match level {
        LogLevel::Error => "<3>",
        LogLevel::Warn => "<4>",
        LogLevel::Info => "<6>",
        LogLevel::Debug => "<7>",
        LogLevel::Trace => "<7>",
    }
}

} // verus!
