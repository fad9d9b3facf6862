//! Why a request could not be served.

use vstd::prelude::*;
use vstd::string::StringExecFns;

verus! {

/// Why a request could not be served.
#[derive(Debug, Clone, Copy, PartialEq, Eq, Structural)]
pub enum BrokerError {
    /// A message is not JSON.
    InvalidJson,
    /// A counter has no room for one more.
    CounterExhausted,
    /// No command is configured for the language.
    NoCommand,
    /// A query names no document.
    MissingUri,
    /// The language of a file could not be told.
    UnknownLanguage,
    /// A server did not initialize in time.
    InitializationTimedOut,
    /// A server did not answer a query in time.
    QueryTimedOut,
}

/// How `error` is reported when it came up with `subject`: a language, or a file as it is quoted.
pub open spec fn error_text(error: BrokerError, subject: Seq<char>) -> Seq<char> {
    match error {
        BrokerError::InvalidJson => "Message is not JSON"@,
        BrokerError::CounterExhausted => "A counter has no room for one more"@,
        BrokerError::NoCommand => "No command configured for language '"@ + subject + "'"@,
        BrokerError::MissingUri => "Query missing textDocument.uri"@,
        BrokerError::UnknownLanguage => "Could not detect language for "@ + subject,
        BrokerError::InitializationTimedOut => "LSP server initialization timed out"@,
        BrokerError::QueryTimedOut => "LSP server query timed out"@,
    }
}

/// How each failure is reported: those that concern a language or a file name it.
pub proof fn law_errors_are_reported(error: BrokerError, subject: Seq<char>)
    ensures
        error is NoCommand ==> error_text(error, subject) == "No command configured for language '"@
            + subject + "'"@,
        error is MissingUri ==> error_text(error, subject) == "Query missing textDocument.uri"@,
        error is UnknownLanguage ==> error_text(error, subject) == "Could not detect language for "@
            + subject,
        error is InitializationTimedOut ==> error_text(error, subject)
            == "LSP server initialization timed out"@,
        error is QueryTimedOut ==> error_text(error, subject) == "LSP server query timed out"@,
        error is InvalidJson ==> error_text(error, subject) == "Message is not JSON"@,
        error is CounterExhausted ==> error_text(error, subject)
            == "A counter has no room for one more"@,
{
}

impl BrokerError {
    /// How the error is reported when it came up with `subject`: a language, or a file as it is
    /// quoted.
    pub fn message(&self, subject: &str) -> (r: String)
        ensures
            r@ == error_text(*self, subject@),
    {
        match self {
            BrokerError::InvalidJson => "Message is not JSON".to_owned(),
            BrokerError::CounterExhausted => "A counter has no room for one more".to_owned(),
            BrokerError::NoCommand => "No command configured for language '".to_owned().concat(
                subject,
            ).concat("'"),
            BrokerError::MissingUri => "Query missing textDocument.uri".to_owned(),
            BrokerError::UnknownLanguage => "Could not detect language for ".to_owned().concat(
                subject,
            ),
            BrokerError::InitializationTimedOut => "LSP server initialization timed out".to_owned(),
            BrokerError::QueryTimedOut => "LSP server query timed out".to_owned(),
        }
    }
}

} // verus!
