//! What every target offers, and the error that a fetch operation surfaces.

use crate::fetch::{FetchPlan, FetchPlanView};
use crate::mirror::{mirror_views, Mirror, MirrorView};
use vstd::prelude::*;

verus! {

/// Why one request for a mirror list did not yield a payload.
#[derive(Clone, Copy, Debug, PartialEq, Eq, Structural)]
pub enum FetchCause {
    /// The connection could not be made or broke.
    Network,
    /// The timeout expired before the answer was complete.
    Timeout,
    /// The server answered with a status outside 2xx.
    Status,
    /// The body could not be decoded as text.
    Decode,
    /// The body was decoded but is not the expected structure.
    Parse,
}

/// The terminal errors of a target's fetch operation.
#[derive(Clone, Copy, Debug, PartialEq, Eq, Structural)]
pub enum AppError {
    /// Both the primary and the fallback request failed; carries the cause of
    /// the fallback's failure.
    FetchError(FetchCause),
}

/// The lines that a target writes.
pub trait LogFormatter {
    /// The comment line for `message`.
    spec fn comment_line(&self, message: Seq<char>) -> Seq<char>;

    /// The configuration line for `mirror`.
    spec fn mirror_line(&self, mirror: MirrorView) -> Seq<char>;

    /// Writes `message` as a comment line.
    fn format_comment(&self, message: &str) -> (line: String)
        ensures
            line@ == self.comment_line(message@),
    ;

    /// Writes the configuration line that names `mirror`.
    fn format_mirror(&self, mirror: &Mirror) -> (line: String)
        ensures
            line@ == self.mirror_line(mirror@),
    ;
}

/// Whether `longer` is `shorter` with the texts of `added` appended, one
/// message for each.
pub open spec fn extends_by(longer: Seq<String>, shorter: Seq<String>, added: Seq<Seq<char>>) -> bool {
    &&& longer.len() == shorter.len() + added.len()
    &&& forall|i: int| 0 <= i < shorter.len() ==> longer[i] == shorter[i]
    &&& forall|i: int|
        shorter.len() <= i < longer.len() ==> (#[trigger] longer[i])@ == added[i - shorter.len()]
}

/// The acquisition of a target's mirrors.
pub trait FetchMirrors {
    /// What a successful fetch hands over.
    type Payload;

    /// The progress messages that a payload gives rise to.
    spec fn progress_of(&self, payload: Self::Payload) -> Seq<Seq<char>>;

    /// Where this target's mirror list is found: both endpoints, the timeout
    /// of each request and the diagnostic that announces the fallback.
    spec fn plan(&self) -> FetchPlanView;

    /// The fetch plan of this target.
    fn fetch_plan(&self) -> (plan: FetchPlan)
        ensures
            plan@ == self.plan(),
    ;

    /// Turns what the fetch yielded into the ordered mirrors.
    ///
    /// A failed fetch is handed on unchanged, with no mirror and no progress
    /// message. A payload always yields mirrors: entries that are malformed
    /// are left out and never make the operation fail. The progress messages
    /// are appended to `progress`.
    fn fetch_mirrors(&self, fetched: Result<Self::Payload, AppError>, progress: &mut Vec<String>) -> (result: Result<Vec<Mirror>, AppError>)
        ensures
            match fetched {
                Ok(payload) => result is Ok && extends_by(
                    final(progress)@,
                    old(progress)@,
                    self.progress_of(payload),
                ),
                Err(error) => result == Err::<Vec<Mirror>, AppError>(error) && *final(progress) == *old(
                    progress,
                ),
            },
            result matches Ok(mirrors) ==> forall|i: int|
                0 <= i < mirrors@.len() ==> (#[trigger] mirror_views(mirrors@)[i]).well_formed(),
    ;
}

} // verus!
