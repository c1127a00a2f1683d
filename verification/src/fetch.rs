use vstd::prelude::*;
use crate::error::Error;
use crate::html::parsable;
use crate::roster::{
    entries_from_rows, entry_models, extracted, lemma_entries_bounded, read_rows, row_models,
    table_rows, Scrape,
};
use crate::text::{contains_text, decimal_text, digits_of, occurs_in};

verus! {

/// The text by which the roster page tells a visitor that it does not know them.
pub const UNAUTHENTICATED_MARKER: &'static str = "Sorry you're not authenticated";

/// How the reason of a refused status begins; the status follows in decimal.
pub const STATUS_REASON_PREFIX: &'static str = "Failed to scrape members, status code: ";

/// The reason given for a page that is too long to be parsed.
pub const OVERSIZE_REASON: &'static str = "Failed to scrape members, page too large";

/// What one request for the roster page came to.
#[derive(Debug, Clone, PartialEq, Eq)]
pub enum FetchOutcome {
    /// The page, as served to a visitor it knows.
    Success(String),
    /// The page was served, but it says that the visitor is not signed in.
    Unauthenticated,
    /// The network or the server failed; the text says how.
    TransportFailure(String),
}

/// The status is one of the 2xx class.
pub open spec fn is_success(status: u16) -> bool {
    200 <= status <= 299
}

/// The reason given for a status outside the 2xx class.
pub open spec fn status_reason(status: u16) -> Seq<char> {
    STATUS_REASON_PREFIX@ + digits_of(status as nat)
}

/// Classifies a response by its status and body. A status outside the 2xx class is a
/// transport failure. A 2xx response whose body holds the marker is unauthenticated,
/// though the transport succeeded. Any other 2xx response is a success and hands the
/// body on as it is.
pub fn classify_response(status: u16, body: String) -> (outcome: FetchOutcome)
    ensures
        match outcome {
            FetchOutcome::Success(html) => is_success(status) && !occurs_in(
                body@,
                UNAUTHENTICATED_MARKER@,
            ) && html@ == body@,
            FetchOutcome::Unauthenticated => is_success(status) && occurs_in(
                body@,
                UNAUTHENTICATED_MARKER@,
            ),
            FetchOutcome::TransportFailure(reason) => !is_success(status) && reason@
                == status_reason(status),
        },
{
    if status < 200 || status > 299 {
        let mut reason = STATUS_REASON_PREFIX.to_owned();
        let code = decimal_text(status as u64);
        reason.append(code.as_str());
        FetchOutcome::TransportFailure(reason)
    } else if contains_text(body.as_str(), UNAUTHENTICATED_MARKER) {
        FetchOutcome::Unauthenticated
    } else {
        FetchOutcome::Success(body)
    }
}

/// The roster that a response holds, or why it holds none. A status outside the 2xx
/// class is a transport failure that names the status. A 2xx body with the marker is an
/// expired authentication, however long the body is. A 2xx body without the marker
/// that is too long to be parsed is a transport failure. Any other 2xx body gives the
/// entries of its roster table, with the count of the rows that were skipped.
pub fn scrape_memberships(status: u16, body: String) -> (scraped: Result<Scrape, Error>)
    ensures
        match scraped {
            Ok(scrape) => {
                &&& is_success(status)
                &&& !occurs_in(body@, UNAUTHENTICATED_MARKER@)
                &&& parsable(body@)
                &&& entry_models(scrape.entries@) == extracted(body@)
                &&& scrape.skipped == table_rows(body@).len() - extracted(body@).len()
            },
            Err(Error::AuthenticationExpired) => is_success(status) && occurs_in(
                body@,
                UNAUTHENTICATED_MARKER@,
            ),
            Err(Error::TransportFailure(reason)) => if is_success(status) {
                !occurs_in(body@, UNAUTHENTICATED_MARKER@) && !parsable(body@) && reason@
                    == OVERSIZE_REASON@
            } else {
                reason@ == status_reason(status)
            },
            Err(_) => false,
        },
{
    match classify_response(status, body) {
        FetchOutcome::Success(html) => match read_rows(html.as_str()) {
            Some(rows) => {
                let entries = entries_from_rows(&rows);
                proof {
                    lemma_entries_bounded(row_models(rows@));
                }
                let skipped = rows.len() - entries.len();
                Ok(Scrape { entries, skipped })
            },
            None => Err(Error::TransportFailure(OVERSIZE_REASON.to_owned())),
        },
        FetchOutcome::Unauthenticated => Err(Error::AuthenticationExpired),
        FetchOutcome::TransportFailure(reason) => Err(Error::TransportFailure(reason)),
    }
}

} // verus!
