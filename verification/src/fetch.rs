//! The fetch policy: one request to the primary endpoint and, where that
//! fails, exactly one to the fallback endpoint.
//!
//! The policy decides; the caller performs the requests. It starts with
//! [`FetchPlan::begin`], performs each request it is handed and reports the
//! outcome to [`FetchPlan::resume`], until that yields [`FetchStep::Done`].

use crate::config::{AppError, FetchCause};
use vstd::prelude::*;

verus! {

/// The two endpoints of a mirror list.
#[derive(Clone, Copy, Debug, PartialEq, Eq, Structural)]
pub enum Endpoint {
    Primary,
    Fallback,
}

/// Where a target's mirror list is found and how long a request may take.
#[derive(Clone, Debug, PartialEq, Eq)]
pub struct FetchPlan {
    /// URL of the primary endpoint.
    pub primary_url: String,
    /// URL of the fallback endpoint.
    pub fallback_url: String,
    /// Timeout of each request, in milliseconds.
    pub timeout_ms: u64,
    /// Diagnostic to emit before the fallback endpoint is asked.
    pub fallback_notice: String,
}

/// A plan as plain values.
pub struct FetchPlanView {
    pub primary_url: Seq<char>,
    pub fallback_url: Seq<char>,
    pub timeout_ms: u64,
    pub fallback_notice: Seq<char>,
}

impl View for FetchPlan {
    type V = FetchPlanView;

    open spec fn view(&self) -> FetchPlanView {
        FetchPlanView {
            primary_url: self.primary_url@,
            fallback_url: self.fallback_url@,
            timeout_ms: self.timeout_ms,
            fallback_notice: self.fallback_notice@,
        }
    }
}

/// One GET request for the caller to perform.
#[derive(Clone, Debug, PartialEq, Eq)]
pub struct Request {
    /// The endpoint that is asked.
    pub endpoint: Endpoint,
    /// The URL to get.
    pub url: String,
    /// Timeout of the request, in milliseconds.
    pub timeout_ms: u64,
    /// Diagnostic to emit before the request is made.
    pub notice: Option<String>,
}

/// A request as plain values.
pub struct RequestView {
    pub endpoint: Endpoint,
    pub url: Seq<char>,
    pub timeout_ms: u64,
    pub notice: Option<Seq<char>>,
}

impl View for Request {
    type V = RequestView;

    open spec fn view(&self) -> RequestView {
        RequestView {
            endpoint: self.endpoint,
            url: self.url@,
            timeout_ms: self.timeout_ms,
            notice: match self.notice {
                Some(text) => Some(text@),
                None => None,
            },
        }
    }
}

/// What the caller does next.
pub enum FetchStep<T> {
    /// Perform this request and report its outcome.
    Ask(Request),
    /// The fetch is over, with the payload or the terminal error.
    Done(Result<T, AppError>),
}

/// A step as plain values.
pub enum FetchStepView<T> {
    Ask(RequestView),
    Done(Result<T, AppError>),
}

impl<T> View for FetchStep<T> {
    type V = FetchStepView<T>;

    open spec fn view(&self) -> FetchStepView<T> {
        match *self {
            FetchStep::Ask(request) => FetchStepView::Ask(request@),
            FetchStep::Done(result) => FetchStepView::Done(result),
        }
    }
}

impl FetchPlanView {
    /// The request to the primary endpoint: no diagnostic goes before it.
    pub open spec fn primary_request(self) -> RequestView {
        RequestView {
            endpoint: Endpoint::Primary,
            url: self.primary_url,
            timeout_ms: self.timeout_ms,
            notice: None,
        }
    }

    /// The request to the fallback endpoint, with the same timeout; the
    /// fallback notice goes before it.
    pub open spec fn fallback_request(self) -> RequestView {
        RequestView {
            endpoint: Endpoint::Fallback,
            url: self.fallback_url,
            timeout_ms: self.timeout_ms,
            notice: Some(self.fallback_notice),
        }
    }

    /// The step that follows the outcome of the request to `asked`: a payload
    /// ends the fetch with success; a failure of the primary request leads to
    /// the fallback request; a failure of the fallback request ends the fetch
    /// with that failure as the cause.
    pub open spec fn next_step<T>(self, asked: Endpoint, outcome: Result<T, FetchCause>) -> FetchStepView<T> {
        match outcome {
            Ok(payload) => FetchStepView::Done(Ok(payload)),
            Err(cause) => match asked {
                Endpoint::Primary => FetchStepView::Ask(self.fallback_request()),
                Endpoint::Fallback => FetchStepView::Done(Err(AppError::FetchError(cause))),
            },
        }
    }

    /// The result of the whole fetch, given what the primary request yields
    /// and what the fallback request would yield: the primary payload where
    /// there is one, else the fallback payload, else a fetch error with the
    /// cause of the fallback's failure.
    pub open spec fn result_of<T>(self, primary: Result<T, FetchCause>, fallback: Result<T, FetchCause>) -> Result<T, AppError> {
        match primary {
            Ok(payload) => Ok(payload),
            Err(_) => match fallback {
                Ok(payload) => Ok(payload),
                Err(cause) => Err(AppError::FetchError(cause)),
            },
        }
    }
}

impl FetchPlan {
    /// The first request: to the primary endpoint.
    pub fn begin(&self) -> (request: Request)
        ensures
            request@ == self@.primary_request(),
    {
        Request {
            endpoint: Endpoint::Primary,
            url: self.primary_url.clone(),
            timeout_ms: self.timeout_ms,
            notice: None,
        }
    }

    /// The step that follows the outcome of the request to `asked`.
    pub fn resume<T>(&self, asked: Endpoint, outcome: Result<T, FetchCause>) -> (step: FetchStep<T>)
        ensures
            step@ == self@.next_step(asked, outcome),
    {
        match outcome {
            Ok(payload) => FetchStep::Done(Ok(payload)),
            Err(cause) => match asked {
                Endpoint::Primary => FetchStep::Ask(
                    Request {
                        endpoint: Endpoint::Fallback,
                        url: self.fallback_url.clone(),
                        timeout_ms: self.timeout_ms,
                        notice: Some(self.fallback_notice.clone()),
                    },
                ),
                Endpoint::Fallback => FetchStep::Done(Err(AppError::FetchError(cause))),
            },
        }
    }
}

/// A payload from the primary endpoint ends the fetch at once: the fallback
/// endpoint is not asked.
pub proof fn lemma_primary_success_is_final<T>(plan: FetchPlanView, payload: T, fallback: Result<T, FetchCause>)
    ensures
        plan.next_step(Endpoint::Primary, Ok::<T, FetchCause>(payload)) == FetchStepView::Done(
            Ok::<T, AppError>(payload),
        ),
        plan.result_of(Ok(payload), fallback) == Ok::<T, AppError>(payload),
{
}

/// Where the primary request fails and the fallback request yields a payload,
/// the fallback endpoint is asked once, after the fallback notice, and the
/// fetch succeeds with the fallback's payload.
pub proof fn lemma_fallback_recovers<T>(plan: FetchPlanView, cause: FetchCause, payload: T)
    ensures
        plan.next_step(Endpoint::Primary, Err::<T, FetchCause>(cause)) == FetchStepView::<T>::Ask(
            plan.fallback_request(),
        ),
        plan.fallback_request().notice == Some(plan.fallback_notice),
        plan.next_step(Endpoint::Fallback, Ok::<T, FetchCause>(payload)) == FetchStepView::Done(
            Ok::<T, AppError>(payload),
        ),
        plan.result_of(Err(cause), Ok(payload)) == Ok::<T, AppError>(payload),
{
}

/// Where both requests fail, the fetch ends with a fetch error that carries
/// the cause of the fallback's failure; no further request is made.
pub proof fn lemma_total_failure<T>(plan: FetchPlanView, first: FetchCause, second: FetchCause)
    ensures
        plan.next_step(Endpoint::Fallback, Err::<T, FetchCause>(second)) == FetchStepView::<T>::Done(
            Err(AppError::FetchError(second)),
        ),
        plan.result_of(Err::<T, FetchCause>(first), Err::<T, FetchCause>(second)) == Err::<T, AppError>(
            AppError::FetchError(second),
        ),
{
}

/// Following the steps yields the result of the whole fetch: the first step
/// either ends with it, or asks the fallback endpoint, whose outcome ends
/// with it.
pub proof fn lemma_steps_yield_result<T>(plan: FetchPlanView, primary: Result<T, FetchCause>, fallback: Result<T, FetchCause>)
    ensures
        match plan.next_step(Endpoint::Primary, primary) {
            FetchStepView::Done(result) => result == plan.result_of(primary, fallback),
            FetchStepView::Ask(request) => request == plan.fallback_request() && plan.next_step(
                Endpoint::Fallback,
                fallback,
            ) == FetchStepView::Done(plan.result_of(primary, fallback)),
        },
{
}

/// No outcome of the fallback request leads to another request.
pub proof fn lemma_fallback_is_last<T>(plan: FetchPlanView, outcome: Result<T, FetchCause>)
    ensures
        plan.next_step(Endpoint::Fallback, outcome) is Done,
{
}

} // verus!
