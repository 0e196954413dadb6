//! The tool's logger: records up to a level are printed, prefixed with the
//! tool's name.

use std::io::Write;
use vstd::prelude::*;

verus! {

#[verifier::external_type_specification]
#[verifier::external_body]
pub struct ExLevelFilter(log::LevelFilter);

#[verifier::external_type_specification]
#[verifier::external_body]
pub struct ExLevel(log::Level);

#[verifier::external_type_specification]
#[verifier::external_body]
pub struct ExMetadata<'a>(log::Metadata<'a>);

#[verifier::external_type_specification]
#[verifier::external_body]
pub struct ExRecord<'a>(log::Record<'a>);

#[verifier::external_type_specification]
#[verifier::external_body]
pub struct ExSetLoggerError(log::SetLoggerError);

/// Why the logger could not be enabled.
#[derive(Clone, Copy, Debug, PartialEq, Eq, Structural)]
pub enum LogError {
    /// The process has a logger already.
    AlreadySet,
}

/// Relies on `log::Level` being `repr(usize)` with `Error = 1` up to `Trace = 5`.
#[verifier::external_body]
fn level_rank(l: log::Level) -> (r: usize)
    ensures
        1 <= r <= 5,
{
    l as usize
}

/// Relies on `log::LevelFilter` being `repr(usize)` with `Off = 0` up to `Trace = 5`.
#[verifier::external_body]
fn filter_rank(f: log::LevelFilter) -> (r: usize)
    ensures
        r <= 5,
{
    f as usize
}

/// Relies on `log::Metadata::level`: the level of a record.
#[verifier::external_body]
fn metadata_level(m: &log::Metadata) -> log::Level {
    m.level()
}

/// Relies on `log::Record::metadata`: the level and target of a record.
#[verifier::external_body]
fn record_metadata<'a, 'b>(r: &'a log::Record<'b>) -> &'a log::Metadata<'b> {
    r.metadata()
}

/// Relies on `log::Record::target`: the target of a record, as bytes.
#[verifier::external_body]
fn record_target(record: &log::Record) -> Vec<u8> {
    record.target().as_bytes().to_vec()
}

/// Relies on `log::Record::args`: prints `humility: <message>` on standard
/// output.
#[verifier::external_body]
fn print_message(record: &log::Record) {
    let _ = writeln!(std::io::stdout(), "humility: {}", record.args());
}

/// Relies on `log::Record`'s `level`, `target` and `args`: prints
/// `humility: <level> (<target>): <message>` on standard output.
#[verifier::external_body]
fn print_tagged(record: &log::Record) {
    let _ = writeln!(std::io::stdout(), "humility: {} ({}): {}", record.level(), record.target(), record.args());
}

/// The tool's name, which is also the target of its own records.
pub open spec fn tool_name() -> Seq<u8> {
    seq![0x68u8, 0x75u8, 0x6du8, 0x69u8, 0x6cu8, 0x69u8, 0x74u8, 0x79u8]
}

/// Whether a record's target is the tool itself: its own records are printed
/// without level and target.
pub fn is_tool_target(target: &[u8]) -> (r: bool)
    ensures
        r == (target@ == tool_name()),
{
    let name: Vec<u8> = vec![0x68u8, 0x75u8, 0x6du8, 0x69u8, 0x6cu8, 0x69u8, 0x74u8, 0x79u8];
    proof {
        assert(name@ =~= tool_name());
    }
    crate::compression::bytes_equal(target, name.as_slice())
}

/// Relies on `log::set_boxed_logger`: installs the process's logger, failing if
/// one is installed already.
#[verifier::external_body]
fn set_boxed_logger(l: HumilityLog) -> Result<(), log::SetLoggerError> {
    log::set_boxed_logger(Box::new(l))
}

/// Relies on `log::set_max_level`: records above `f` are dropped before they
/// reach the logger.
#[verifier::external_body]
fn set_max_level(f: log::LevelFilter) {
    log::set_max_level(f)
}

/// A logger that keeps records up to `level`.
#[derive(Debug, Clone, Copy)]
pub struct HumilityLog {
    pub level: log::LevelFilter,
}

impl log::Log for HumilityLog {
    fn enabled(&self, metadata: &log::Metadata) -> bool {
        level_rank(metadata_level(metadata)) <= filter_rank(self.level)
    }

    fn log(&self, record: &log::Record) {
        if self.enabled(record_metadata(record)) {
            let target = record_target(record);
            if is_tool_target(target.as_slice()) {
                print_message(record);
            } else {
                print_tagged(record);
            }
        }
    }

    fn flush(&self) {
    }
}

impl HumilityLog {
    /// A logger that keeps records up to `level`.
    pub fn new(level: log::LevelFilter) -> (r: HumilityLog)
        ensures
            r.level == level,
    {
        HumilityLog { level }
    }

    /// Installs this logger for the process and drops records above its level;
    /// `AlreadySet` if the process has a logger already.
    pub fn enable(&mut self) -> (r: Result<(), LogError>)
        ensures
            *final(self) == *old(self),
            r is Err ==> r == Err::<(), LogError>(LogError::AlreadySet),
    {
        match set_boxed_logger(*self) {
            Err(_) => Err(LogError::AlreadySet),
            Ok(()) => {
                set_max_level(self.level);
                Ok(())
            },
        }
    }
}

} // verus!
