//! A logger that writes each record to the console of the runtime.
use vstd::prelude::*;
use vstd::string::StringExecFns;

verus! {

#[verifier::external_type_specification]
#[verifier::external_body]
pub struct ExLevel(log::Level);

#[verifier::external_type_specification]
#[verifier::external_body]
pub struct ExSetLoggerError(log::SetLoggerError);

#[verifier::external_type_specification]
#[verifier::external_body]
pub struct ExMetadata<'a>(log::Metadata<'a>);

#[verifier::external_type_specification]
#[verifier::external_body]
pub struct ExRecord<'a>(log::Record<'a>);

/// Writes log records to the console.
pub struct WebLogger;

/// Relies on `log::set_logger`: installs the logger, or fails where one was
/// installed before.
#[verifier::external_body]
fn install(logger: &'static WebLogger) -> (r: Result<(), log::SetLoggerError>) {
    log::set_logger(logger)
}

/// Relies on `log::set_max_level` and `Level::to_level_filter`: records
/// above `level` are dropped before they reach the logger.
#[verifier::external_body]
fn set_max_level(level: log::Level) {
    log::set_max_level(level.to_level_filter())
}

/// Relies on `log::Record`'s `level`, `target` and `args` and their
/// `Display`: the record's level, target and message as text.
#[verifier::external_body]
fn record_fields(record: &log::Record) -> (r: (String, String, String)) {
    (record.level().to_string(), record.target().to_string(), record.args().to_string())
}

/// Relies on `js_sys::Date::new_0` and `to_iso_string`: the current time in
/// ISO 8601 form.
#[verifier::external_body]
fn now_iso() -> (r: String) {
    worker::js_sys::Date::new_0().to_iso_string().into()
}

/// Relies on `web_sys::console::log_1`: writes the line to the console.
#[verifier::external_body]
fn console_write(line: &String) {
    worker::web_sys::console::log_1(&line.as_str().into())
}

/// Relies on `Metadata::level`, `log::max_level` and the order of levels:
/// whether records of this level are kept.
#[verifier::external_body]
fn within_max_level(metadata: &log::Metadata) -> (r: bool) {
    metadata.level() <= log::max_level()
}

/// Relies on `Record::level`, `log::max_level` and the order of levels:
/// whether the record is kept.
#[verifier::external_body]
fn record_kept(record: &log::Record) -> (r: bool) {
    record.level() <= log::max_level()
}

/// The console line of a record: `<timestamp> [<level>] <target>: <message>`.
pub fn log_line(timestamp: &str, level: &str, target: &str, message: &str) -> (r: String)
    ensures
        r@ == timestamp@ + " ["@ + level@ + "] "@ + target@ + ": "@ + message@,
{
    let mut line = String::from_str(timestamp);
    line.append(" [");
    line.append(level);
    line.append("] ");
    line.append(target);
    line.append(": ");
    line.append(message);
    line
}

impl WebLogger {
    /// Installs the logger and keeps records up to `level`; fails where a
    /// logger was installed before.
    pub fn init_with_level(level: log::Level) -> (r: Result<(), log::SetLoggerError>) {
        install(&WebLogger)?;
        set_max_level(level);
        Ok(())
    }
}

impl log::Log for WebLogger {
    fn enabled(&self, metadata: &log::Metadata) -> bool {
        within_max_level(metadata)
    }

    fn log(&self, record: &log::Record) {
        if record_kept(record) {
            let (level, target, message) = record_fields(record);
            let timestamp = now_iso();
            console_write(&log_line(timestamp.as_str(), level.as_str(), target.as_str(), message.as_str()));
        }
    }

    fn flush(&self) {
    }
}

} // verus!
