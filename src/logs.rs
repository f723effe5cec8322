//! Console logging for debugging sessions.
use vstd::prelude::*;
use tracing_subscriber::filter::LevelFilter;
use tracing_subscriber::util::SubscriberInitExt;

verus! {

/// Most verbose level that is recorded.
#[derive(Debug, Clone, Copy, PartialEq, Eq, Structural)]
pub enum LogLevel {
    Error,
    Warn,
    Info,
    Debug,
    Trace,
}

/// Why logging could not be set up.
#[derive(Debug, Clone, Copy, PartialEq, Eq, Structural)]
pub enum LogError {
    /// A global subscriber was installed before.
    AlreadyInstalled,
}

/// Relies on tracing_subscriber's fmt builder and `SubscriberInitExt::try_init`,
/// which installs the global subscriber or fails when one is there already.
#[verifier::external_body]
fn install_console_subscriber(level: LogLevel) -> (r: bool) {
    let filter = match level {
        LogLevel::Error => LevelFilter::ERROR,
        LogLevel::Warn => LevelFilter::WARN,
        LogLevel::Info => LevelFilter::INFO,
        LogLevel::Debug => LevelFilter::DEBUG,
        LogLevel::Trace => LevelFilter::TRACE,
    };
    tracing_subscriber::fmt().with_max_level(filter).with_target(false).with_file(true)
        .with_line_number(true).with_thread_names(true).with_thread_ids(true).with_ansi(false)
        .finish().try_init().is_ok()
}

/// Logs everything down to debug level to the console.
pub fn init_debug() -> (r: Result<(), LogError>)
    ensures
        r matches Err(e) ==> e == LogError::AlreadyInstalled,
{
    if install_console_subscriber(LogLevel::Debug) {
        Ok(())
    } else {
        Err(LogError::AlreadyInstalled)
    }
}

} // verus!
