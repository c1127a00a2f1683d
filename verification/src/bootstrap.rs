use vstd::prelude::*;
use crate::error::Error;
use crate::roster::Scrape;

verus! {

/// Where the start-up sequence stands.
#[derive(Debug, Clone, Copy, PartialEq, Eq, Structural)]
pub enum BootstrapState {
    /// The next attempt uses the cookie that the session store holds.
    TryStoredCookie,
    /// The next attempt uses the operator's seed cookie.
    TrySeedCookie,
    /// An attempt gave a roster; the schedule may start.
    Reconciled,
    /// No attempt gave a roster; the process must stop.
    Fatal,
}

/// What one scrape attempt came to, as far as the start-up sequence cares.
#[derive(Debug, Clone, Copy, PartialEq, Eq, Structural)]
pub enum Attempt {
    /// A roster with at least one entry.
    Roster,
    /// A page that was read but gave no entry.
    Empty,
    /// The page did not know the visitor.
    Unauthenticated,
    /// The network, the server or a store failed.
    Failed,
}

/// What the caller is to do in a state.
#[derive(Debug, Clone, Copy, PartialEq, Eq, Structural)]
pub enum BootstrapAction {
    /// Fetch the roster page with the session store as it is.
    Fetch,
    /// Write the seed cookie to the session store, then fetch the roster page.
    SeedAndFetch,
    /// Reconcile the membership table with the roster of the last attempt.
    Reconcile,
    /// Give up with [`Error::BootstrapFailed`].
    Abort,
}

/// The state in which the sequence starts: with the stored cookie where the session
/// store holds one for the roster's origin, with the seed cookie otherwise.
pub open spec fn initial_state(stored_cookie: bool) -> BootstrapState {
    if stored_cookie {
        BootstrapState::TryStoredCookie
    } else {
        BootstrapState::TrySeedCookie
    }
}

/// The state after an attempt. A roster ends the sequence well. With the stored cookie,
/// an empty or unauthenticated page leads to the seed cookie, and a failure of the
/// transport ends the sequence, since another cookie would not mend it. With the seed
/// cookie, anything but a roster ends the sequence. The two final states are left by
/// no attempt.
pub open spec fn next_state(state: BootstrapState, attempt: Attempt) -> BootstrapState {
    match state {
        BootstrapState::TryStoredCookie => match attempt {
            Attempt::Roster => BootstrapState::Reconciled,
            Attempt::Empty | Attempt::Unauthenticated => BootstrapState::TrySeedCookie,
            Attempt::Failed => BootstrapState::Fatal,
        },
        BootstrapState::TrySeedCookie => match attempt {
            Attempt::Roster => BootstrapState::Reconciled,
            _ => BootstrapState::Fatal,
        },
        BootstrapState::Reconciled => BootstrapState::Reconciled,
        BootstrapState::Fatal => BootstrapState::Fatal,
    }
}

/// What the caller is to do in each state.
pub open spec fn action_of(state: BootstrapState) -> BootstrapAction {
    match state {
        BootstrapState::TryStoredCookie => BootstrapAction::Fetch,
        BootstrapState::TrySeedCookie => BootstrapAction::SeedAndFetch,
        BootstrapState::Reconciled => BootstrapAction::Reconcile,
        BootstrapState::Fatal => BootstrapAction::Abort,
    }
}

/// The sequence has ended in this state.
pub open spec fn is_final(state: BootstrapState) -> bool {
    state == BootstrapState::Reconciled || state == BootstrapState::Fatal
}

/// How the start-up sequence reads the result of a scrape: a roster where it has
/// entries, an empty page where it has none, an unauthenticated page where the
/// authentication has expired, and a failure for every other error.
pub open spec fn attempt_of(scraped: Result<Scrape, Error>) -> Attempt {
    match scraped {
        Ok(scrape) => if scrape.entries@.len() > 0 {
            Attempt::Roster
        } else {
            Attempt::Empty
        },
        Err(Error::AuthenticationExpired) => Attempt::Unauthenticated,
        Err(_) => Attempt::Failed,
    }
}

impl BootstrapState {
    /// The state in which the sequence starts.
    pub fn start(stored_cookie: bool) -> (state: BootstrapState)
        ensures
            state == initial_state(stored_cookie),
    {
        if stored_cookie {
            BootstrapState::TryStoredCookie
        } else {
            BootstrapState::TrySeedCookie
        }
    }

    /// The state after an attempt.
    pub fn step(self, attempt: Attempt) -> (next: BootstrapState)
        ensures
            next == next_state(self, attempt),
    {
        match self {
            BootstrapState::TryStoredCookie => match attempt {
                Attempt::Roster => BootstrapState::Reconciled,
                Attempt::Empty => BootstrapState::TrySeedCookie,
                Attempt::Unauthenticated => BootstrapState::TrySeedCookie,
                Attempt::Failed => BootstrapState::Fatal,
            },
            BootstrapState::TrySeedCookie => match attempt {
                Attempt::Roster => BootstrapState::Reconciled,
                _ => BootstrapState::Fatal,
            },
            BootstrapState::Reconciled => BootstrapState::Reconciled,
            BootstrapState::Fatal => BootstrapState::Fatal,
        }
    }

    /// What the caller is to do now.
    pub fn action(self) -> (action: BootstrapAction)
        ensures
            action == action_of(self),
    {
        match self {
            BootstrapState::TryStoredCookie => BootstrapAction::Fetch,
            BootstrapState::TrySeedCookie => BootstrapAction::SeedAndFetch,
            BootstrapState::Reconciled => BootstrapAction::Reconcile,
            BootstrapState::Fatal => BootstrapAction::Abort,
        }
    }

    /// How the sequence went: well where it has reached a roster, and failed in every
    /// other state, since the schedule must not start without one.
    pub fn conclude(self) -> (verdict: Result<(), Error>)
        ensures
            verdict is Ok <==> self == BootstrapState::Reconciled,
            verdict matches Err(error) ==> error == Error::BootstrapFailed,
    {
        match self {
            BootstrapState::Reconciled => Ok(()),
            _ => Err(Error::BootstrapFailed),
        }
    }

    /// Whether the sequence has ended.
    pub fn is_final(self) -> (ended: bool)
        ensures
            ended == is_final(self),
    {
        match self {
            BootstrapState::Reconciled => true,
            BootstrapState::Fatal => true,
            _ => false,
        }
    }
}

/// Reads the result of a scrape as an attempt.
pub fn classify_attempt(scraped: &Result<Scrape, Error>) -> (attempt: Attempt)
    ensures
        attempt == attempt_of(*scraped),
{
    match scraped {
        Ok(scrape) => if scrape.entries.len() > 0 {
            Attempt::Roster
        } else {
            Attempt::Empty
        },
        Err(Error::AuthenticationExpired) => Attempt::Unauthenticated,
        Err(_) => Attempt::Failed,
    }
}

/// The sequence makes at most two attempts: whatever they come to, it has ended after
/// the second. It ends well only on an attempt that gave a roster.
pub proof fn lemma_bootstrap_ends(stored_cookie: bool, first: Attempt, second: Attempt)
    ensures
        is_final(next_state(next_state(initial_state(stored_cookie), first), second)),
        next_state(next_state(initial_state(stored_cookie), first), second)
            == BootstrapState::Reconciled ==> first == Attempt::Roster || second
            == Attempt::Roster,
        !stored_cookie ==> is_final(next_state(initial_state(stored_cookie), first)),
{
}

} // verus!
