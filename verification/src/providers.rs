//! Stand-ins a host uses when it wires no application, browser, automation
//! or observation backend: each refuses explicitly instead of silently
//! skipping the work.

use vstd::prelude::*;
use vstd::string::*;
use crate::text::owned;

verus! {

/// Failure of acquiring or cleaning up a platform application session.
#[derive(Debug, Clone)]
pub enum ApplicationError {
    /// The application could not be launched.
    LaunchFailed {
        /// Reason.
        message: String,
    },
}

/// Failure of acquiring or cleaning up a browser session.
#[derive(Debug, Clone)]
pub enum BrowserError {
    /// The browser could not be launched.
    LaunchFailed {
        /// Reason.
        message: String,
    },
}

/// Automation backends an action may be routed to.
#[derive(Debug, Clone, Copy, PartialEq, Eq, Structural)]
pub enum BackendKind {
    /// Windows UI Automation.
    WindowsUia,
}

/// Failure reported by an automation backend.
#[derive(Debug, Clone)]
pub enum AutomationError {
    /// No backend can run the action.
    BackendUnavailable {
        /// Backend that was asked.
        backend: BackendKind,
        /// Reason.
        message: String,
    },
}

/// Why an observation could not decide.
#[derive(Debug, Clone, Copy, PartialEq, Eq, Structural)]
pub enum ObservationUnknownReason {
    /// No observation backend is wired.
    BackendUnavailable,
}

/// Outcome of an observation; only the undecided form is produced here.
#[derive(Debug, Clone)]
pub enum ObservationResult {
    /// The observation could not decide.
    Unknown {
        /// Backend that answered, if any.
        backend: Option<BackendKind>,
        /// Why it could not decide.
        reason: ObservationUnknownReason,
        /// Whether asking again may help.
        retryable: bool,
    },
}

/// Application provider of a host without platform application support.
#[derive(Debug, Default)]
pub struct UnavailableApplicationSessionProvider;

impl UnavailableApplicationSessionProvider {
    /// Refuses every launch.
    pub fn acquire<Spec, Session>(&self, spec: &Spec) -> (r: Result<Session, ApplicationError>)
        ensures
            r matches Err(ApplicationError::LaunchFailed { message })
                && message@ == "no application session provider has been configured"@,
    {
        Err(ApplicationError::LaunchFailed { message: owned("no application session provider has been configured") })
    }

    /// There is never anything to clean up.
    pub fn cleanup<Session>(&self, session: &Session) -> (r: Result<(), ApplicationError>)
        ensures
            r is Ok,
    {
        Ok(())
    }
}

/// Browser provider of a host without browser support.
#[derive(Debug, Default)]
pub struct UnavailableBrowserSessionProvider;

impl UnavailableBrowserSessionProvider {
    /// Refuses every launch.
    pub fn acquire<Spec, Session>(&self, spec: &Spec) -> (r: Result<Session, BrowserError>)
        ensures
            r matches Err(BrowserError::LaunchFailed { message })
                && message@ == "no browser session provider has been configured"@,
    {
        Err(BrowserError::LaunchFailed { message: owned("no browser session provider has been configured") })
    }

    /// There is never anything to clean up.
    pub fn cleanup<Session>(&self, session: &Session) -> (r: Result<(), BrowserError>)
        ensures
            r is Ok,
    {
        Ok(())
    }
}

/// Action dispatcher of a host without any automation backend.
#[derive(Debug, Default)]
pub struct UnavailableActionDispatcher;

impl UnavailableActionDispatcher {
    /// Refuses every action as having no backend.
    pub fn execute<Action, Outcome>(&self, action: &Action) -> (r: Result<Outcome, AutomationError>)
        ensures
            r matches Err(AutomationError::BackendUnavailable { backend, message })
                && backend == BackendKind::WindowsUia
                && message@ == "no automation backend has been configured"@,
    {
        Err(AutomationError::BackendUnavailable {
            backend: BackendKind::WindowsUia,
            message: owned("no automation backend has been configured"),
        })
    }
}

/// Observation dispatcher of a host without any observation backend.
#[derive(Debug, Default)]
pub struct UnavailableObservationDispatcher;

impl UnavailableObservationDispatcher {
    /// Answers every observation with an explicit, final Unknown.
    pub fn observe<Request>(&self, request: &Request) -> (r: ObservationResult)
        ensures
            r matches ObservationResult::Unknown { backend, reason, retryable }
                && backend is None && reason == ObservationUnknownReason::BackendUnavailable && !retryable,
    {
        ObservationResult::Unknown { backend: None, reason: ObservationUnknownReason::BackendUnavailable, retryable: false }
    }
}

} // verus!
