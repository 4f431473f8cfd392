//! Colored formatting for the standard logging facade.
//!
//! The crate renders a log record (severity level plus a possibly
//! multi-line message) into a colorized line of text: a bracketed,
//! color-coded token prefixes the first line, and continuation lines
//! are indented so they align under the start of the message.
use vstd::prelude::*;

pub mod format;

use crate::format::{CologStyle, DefaultCologStyle, Level, format_record};

verus! {

#[verifier::external_type_specification]
#[verifier::external_body]
pub struct ExBuilder(env_logger::Builder);

#[verifier::external_type_specification]
#[verifier::external_body]
pub struct ExFormatter(env_logger::fmt::Formatter);

#[verifier::external_type_specification]
#[verifier::external_body]
pub struct ExRecord<'a>(log::Record<'a>);

#[verifier::external_type_specification]
#[verifier::external_body]
pub struct ExIoError(std::io::Error);

/// Relies on log::Record::level: the record's severity, carried over
/// variant by variant.
#[verifier::external_body]
fn record_level(record: &log::Record<'_>) -> Level {
    match record.level() {
        log::Level::Error => Level::Error,
        log::Level::Warn => Level::Warn,
        log::Level::Info => Level::Info,
        log::Level::Debug => Level::Debug,
        log::Level::Trace => Level::Trace,
    }
}

/// Relies on log::Record::args: the record's message payload, rendered
/// to its text. The rendering panics only if a `Display` impl inside
/// the record's arguments breaks `Display`'s own contract by returning
/// an error.
#[verifier::external_body]
fn record_message(record: &log::Record<'_>) -> String {
    record.args().to_string()
}

/// Relies on std::io::Write::write_all for the facade's output buffer:
/// hands the rendered line to it unchanged, and reports its failure.
#[verifier::external_body]
fn write_str(buf: &mut env_logger::fmt::Formatter, s: &str) -> Result<(), std::io::Error> {
    std::io::Write::write_all(buf, s.as_bytes())
}

/// Formats one facade record with `style` and writes the result to the
/// facade's output buffer, surfacing a write failure to the caller
/// unchanged. The rendering itself is [`format_record`], whose contract
/// is exact; this function only carries the record's level and message
/// text to it and hands the rendered line to the writer.
pub fn handle_record<S: CologStyle>(
    style: &S,
    buf: &mut env_logger::fmt::Formatter,
    record: &log::Record<'_>,
) -> Result<(), std::io::Error> {
    let level = record_level(record);
    let message = record_message(record);
    let line = format_record(style, level, message.as_str());
    write_str(buf, line.as_str())
}

/// Relies on env_logger::Builder::new: a fresh builder with default
/// settings and no filters.
#[verifier::external_body]
fn new_builder() -> env_logger::Builder {
    env_logger::Builder::new()
}

/// Relies on env_logger::Builder::format: registers the closure the
/// built logger calls once per record. The closure only delegates to
/// the verified [`handle_record`].
#[verifier::external_body]
fn builder_set_format<S: CologStyle + Sync + Send + 'static>(
    b: &mut env_logger::Builder,
    style: S,
) {
    b.format(move |buf, rec| handle_record(&style, buf, rec));
}

/// Relies on env_logger::Builder::filter_level: sets the severity
/// below which the built logger drops records, for all modules.
#[verifier::external_body]
fn builder_filter_level(b: &mut env_logger::Builder, level: Level) {
    let lf = match level {
        Level::Error => log::LevelFilter::Error,
        Level::Warn => log::LevelFilter::Warn,
        Level::Info => log::LevelFilter::Info,
        Level::Debug => log::LevelFilter::Debug,
        Level::Trace => log::LevelFilter::Trace,
    };
    b.filter_level(lf);
}

/// Relies on env_logger::Builder::parse_default_env: reads the
/// facade's standard environment variable and, where it is set, parses
/// it into per-module severity filters that override the default.
#[verifier::external_body]
fn builder_parse_default_env(b: &mut env_logger::Builder) {
    b.parse_default_env();
}

/// Relies on env_logger::Builder::try_init: builds the logger and
/// installs it as the process-wide sink. Reports `false` where a
/// logger was already installed, instead of panicking. Takes the
/// builder by value: building consumes it, and a consumed builder is
/// the one input on which the outside call would panic.
#[verifier::external_body]
fn builder_try_init(b: env_logger::Builder) -> bool {
    let mut builder = b;
    builder.try_init().is_ok()
}

/// Returns a logging builder configured to use this crate's
/// formatting for its output, and nothing else.
#[must_use]
pub fn basic_builder() -> env_logger::Builder {
    let mut b = new_builder();
    builder_set_format(&mut b, DefaultCologStyle);
    b
}

/// Returns a logging builder with this crate's defaults: colog
/// formatting, severity `Info` and up, and the standard environment
/// variable override.
#[must_use]
pub fn default_builder() -> env_logger::Builder {
    let mut b = basic_builder();
    builder_filter_level(&mut b, Level::Info);
    builder_parse_default_env(&mut b);
    b
}

/// Returns [`default_builder`]; kept for callers of the older name.
#[must_use]
pub fn builder() -> env_logger::Builder {
    default_builder()
}

/// Initializes process-wide logging with this crate's defaults. A
/// repeated call leaves the already-installed logger in place rather
/// than crashing.
pub fn init() {
    let b = default_builder();
    let _installed = builder_try_init(b);
}

} // verus!
