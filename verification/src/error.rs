use vstd::prelude::*;

verus! {

/// What can go wrong between the roster page and the stores.
#[derive(Debug, Clone, PartialEq, Eq)]
pub enum Error {
    /// The network or the server failed; the text says how. A new cookie would not help.
    TransportFailure(String),
    /// The page was served, but to a visitor it does not know: the session cookie has
    /// expired.
    AuthenticationExpired,
    /// A store could not be reached; the text says how.
    ReconciliationUnavailable(String),
    /// The store holds no row for the key that was asked for.
    NotFound,
    /// Neither the stored cookie nor the seed cookie gave a roster.
    BootstrapFailed,
}

/// The text that [`Error::message`] gives for each error.
pub open spec fn message_of(error: Error) -> Seq<char> {
    match error {
        Error::TransportFailure(reason) => reason@,
        Error::AuthenticationExpired =>
            "Failed to scrape members, cookie not providing authenticated access"@,
        Error::ReconciliationUnavailable(reason) => reason@,
        Error::NotFound => "Query returned no rows"@,
        Error::BootstrapFailed =>
            "Failed to scrape members with known cookies, try obtaining another one"@,
    }
}

impl Error {
    /// The text shown to an operator for this error.
    pub fn message(&self) -> (text: String)
        ensures
            text@ == message_of(*self),
    {
        match self {
            Error::TransportFailure(reason) => reason.clone(),
            Error::AuthenticationExpired =>
                "Failed to scrape members, cookie not providing authenticated access".to_owned(),
            Error::ReconciliationUnavailable(reason) => reason.clone(),
            Error::NotFound => "Query returned no rows".to_owned(),
            Error::BootstrapFailed =>
                "Failed to scrape members with known cookies, try obtaining another one".to_owned(),
        }
    }
}

} // verus!
