//! The configuration, and how trouble with it is reported.

use vstd::prelude::*;
use vstd::string::*;

verus! {

/// Where to log.
pub struct LoggingConfiguration {
    pub path: String,
}

/// The configuration.
pub struct Configuration {
    pub log: LoggingConfiguration,
}

/// Trouble that the user is told of.
#[derive(Debug)]
pub struct ReportableError {
    pub message: String,
}

/// What can be wrong with a configuration. Texts come as they are to be shown.
pub enum ConfigFault {
    Frozen,
    Type,
    Message(String),
    Foreign,
    NotFound,
    PathParse(String),
    FileParse { uri: String, cause: String },
}

/// What the user is told of a fault.
pub open spec fn fault_message(fault: ConfigFault) -> Seq<char> {
    match fault {
        ConfigFault::Frozen => "frozen config"@,
        ConfigFault::Type => "config bad"@,
        ConfigFault::Message(m) => "message "@ + m@,
        ConfigFault::Foreign => "foreign"@,
        ConfigFault::NotFound => "not found"@,
        ConfigFault::PathParse(p) => "bad path "@ + p@,
        ConfigFault::FileParse { uri, cause } => "file parsing "@ + uri@ + ", "@ + cause@,
    }
}

/// Reports a fault of the configuration.
pub fn err_mapper(fault: ConfigFault) -> (e: ReportableError)
    ensures
        e.message@ == fault_message(fault),
{
    let message = match fault {
        ConfigFault::Frozen => "frozen config".to_owned(),
        ConfigFault::Type => "config bad".to_owned(),
        ConfigFault::Message(m) => {
            let mut text = "message ".to_owned();
            text.append(m.as_str());
            text
        },
        ConfigFault::Foreign => "foreign".to_owned(),
        ConfigFault::NotFound => "not found".to_owned(),
        ConfigFault::PathParse(p) => {
            let mut text = "bad path ".to_owned();
            text.append(p.as_str());
            text
        },
        ConfigFault::FileParse { uri, cause } => {
            let mut text = "file parsing ".to_owned();
            text.append(uri.as_str());
            text.append(", ");
            text.append(cause.as_str());
            text
        },
    };
    ReportableError { message }
}

/// What can be wrong with the log file: it has no place, or something else,
/// as the system puts it.
pub enum LogFault {
    NotFound,
    Other(String),
}

/// Reports a fault of the log file.
pub fn io_err_mapper(fault: LogFault) -> (e: ReportableError)
    ensures
        e.message@ == (match fault {
            LogFault::NotFound => "bad log path"@,
            LogFault::Other(text) => text@,
        }),
{
    match fault {
        LogFault::NotFound => ReportableError { message: "bad log path".to_owned() },
        LogFault::Other(text) => ReportableError { message: text },
    }
}

/// A fault that comes with a text is told with that text at its end, whatever
/// it is, and each kind of fault is told in its own words.
pub proof fn a_fault_is_told_with_its_text(fault: ConfigFault)
    ensures
        fault matches ConfigFault::Message(m) ==> fault_message(fault) == seq![
            'm',
            'e',
            's',
            's',
            'a',
            'g',
            'e',
            ' ',
        ] + m@,
        fault matches ConfigFault::PathParse(p) ==> fault_message(fault) == seq![
            'b',
            'a',
            'd',
            ' ',
            'p',
            'a',
            't',
            'h',
            ' ',
        ] + p@,
        fault matches ConfigFault::FileParse { uri, cause } ==> fault_message(fault)
            == "file parsing "@ + uri@ + seq![',', ' '] + cause@,
        fault is Frozen ==> fault_message(fault) == "frozen config"@,
        fault is Type ==> fault_message(fault) == "config bad"@,
        fault is Foreign ==> fault_message(fault) == "foreign"@,
        fault is NotFound ==> fault_message(fault) == "not found"@,
{
    reveal_strlit("message ");
    reveal_strlit("bad path ");
    reveal_strlit(", ");
    assert("message "@ =~= seq!['m', 'e', 's', 's', 'a', 'g', 'e', ' ']);
    assert("bad path "@ =~= seq!['b', 'a', 'd', ' ', 'p', 'a', 't', 'h', ' ']);
    assert(", "@ =~= seq![',', ' ']);
}

} // verus!
