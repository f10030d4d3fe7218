//! What the views of values hold: all that the values do, as it is.

use vstd::prelude::*;

use crate::answers::{result_view, size_view, time_view};
use crate::exchange::{
    progress_view, reading_view, steps_view, Action, ActionView, Event, EventView, Outcome,
    OutcomeView, Progress, ProgressView, Step, StepView,
};
use crate::ftp::optional_view;
use crate::patterns::groups_view;
use crate::reply::{Fed, FedView};
use crate::text::texts;
use crate::types::{ErrorView, FtpError, Line};

verus! {

/// A reply is viewed as its code and its characters.
pub proof fn law_line_view(line: Line)
    ensures
        line@.code == line.0,
        line@.text == line.1@,
{
}

/// An error is viewed as its kind and what it carries.
pub proof fn law_error_view(e: FtpError)
    ensures
        match e {
            FtpError::ConnectionError(cause) => e@ == ErrorView::Connection(cause),
            FtpError::SecureError(message) => e@ == ErrorView::Secure(message@),
            FtpError::InvalidResponse(message) => e@ == ErrorView::InvalidResponse(message@),
        },
{
}

/// A list of strings is viewed as the characters of each, in the same order.
pub proof fn law_texts(list: Seq<String>)
    ensures
        texts(list).len() == list.len(),
        forall|i: int| 0 <= i < list.len() ==> #[trigger] texts(list)[i] == list[i]@,
{
}

/// What an exchange gives is viewed as it is.
pub proof fn law_outcome_view(o: Outcome)
    ensures
        match o {
            Outcome::Unit => o@ is Unit,
            Outcome::Session(session) => o@ == (OutcomeView::Session { secure: session@ }),
            Outcome::Reply(line) => o@ is Reply && o@->Reply_0.code == line.0
                && o@->Reply_0.text == line.1@,
            Outcome::Directory(path) => o@ == OutcomeView::Directory(path@),
            Outcome::ModificationTime(None) => o@ == OutcomeView::ModificationTime(None),
            Outcome::ModificationTime(Some(t)) => o@ == OutcomeView::ModificationTime(
                Some(t as int),
            ),
            Outcome::FileSize(None) => o@ == OutcomeView::FileSize(None),
            Outcome::FileSize(Some(n)) => o@ == OutcomeView::FileSize(Some(n as nat)),
            Outcome::Listing(lines) => {
                &&& o@ is Listing
                &&& o@->Listing_0.len() == lines@.len()
                &&& forall|i: int|
                    0 <= i < lines@.len() ==> #[trigger] o@->Listing_0[i] == lines@[i]@
            },
            Outcome::Contents(bytes) => o@ == OutcomeView::Contents(bytes@),
        },
{
}

/// What is asked of a driver is viewed as it is.
pub proof fn law_action_view(a: Action)
    ensures
        match a {
            Action::OpenControl => a@ is OpenControl,
            Action::Send(text) => a@ == ActionView::Send(text@),
            Action::ReadLine => a@ is ReadLine,
            Action::OpenData(address) => a@ == ActionView::OpenData(address),
            Action::SecureControl => a@ is SecureControl,
            Action::SecureData => a@ is SecureData,
            Action::HandOver => a@ is HandOver,
            Action::ReadContents => a@ is ReadContents,
            Action::ReadText => a@ is ReadText,
            Action::CloseData => a@ is CloseData,
            Action::Upload => a@ is Upload,
        },
{
}

/// What an exchange is told is viewed as it is.
pub proof fn law_event_view(e: Event)
    ensures
        match e {
            Event::Start => e@ is Start,
            Event::Sent => e@ is Sent,
            Event::Line(line) => e@ == EventView::Line(line@),
            Event::Opened => e@ is Opened,
            Event::Secured => e@ is Secured,
            Event::HandshakeFailed(message) => e@ == EventView::HandshakeFailed(message@),
            Event::Handled => e@ is Handled,
            Event::ReaderFailed(error) => e@ == EventView::ReaderFailed(error@),
            Event::Contents(bytes) => e@ == EventView::Contents(bytes@),
            Event::Text(text) => e@ == EventView::Text(text@),
            Event::Closed => e@ is Closed,
            Event::Uploaded => e@ is Uploaded,
            Event::Failed(cause) => e@ == EventView::Failed(cause),
        },
{
}

/// How an exchange goes on is viewed as it is.
pub proof fn law_progress_view(r: Option<Progress>)
    ensures
        match r {
            Some(Progress::Perform(action, exchange)) => progress_view(r) == Some(
                ProgressView::Perform(action@, exchange@),
            ),
            Some(Progress::Done(Ok(outcome))) => progress_view(r) == Some(
                ProgressView::Done(Ok(outcome@)),
            ),
            Some(Progress::Done(Err(e))) => progress_view(r) == Some(ProgressView::Done(Err(e@))),
            None => progress_view(r) is None,
        },
{
}

/// What a line makes of a reply is viewed as it is.
pub proof fn law_fed_view(f: Fed)
    ensures
        match f {
            Fed::More(head) => f@ == FedView::More(head),
            Fed::Complete(line) => f@ is Complete && f@->Complete_0.code == line.0
                && f@->Complete_0.text == line.1@,
            Fed::Broken(e) => f@ == FedView::Broken(e@),
        },
{
}

/// A step is viewed as it is, and a list of steps in the same order.
pub proof fn law_step_view(s: Step, steps: Seq<Step>)
    ensures
        match s {
            Step::OpenControl => s@ is OpenControl,
            Step::Send(line) => s@ == StepView::Send(line@),
            Step::Expect(codes) => s@ == StepView::Expect(codes@),
            Step::ExpectFile => s@ is ExpectFile,
            Step::StopUnless(code) => s@ == StepView::StopUnless(code),
            Step::OpenData(line) => s@ == StepView::OpenData(line@),
            Step::SecureControl => s@ is SecureControl,
            Step::SecureData => s@ is SecureData,
            Step::HandOver => s@ is HandOver,
            Step::Download => s@ is Download,
            Step::List => s@ is List,
            Step::CloseData => s@ is CloseData,
            Step::Upload => s@ is Upload,
            Step::Read(reading) => s@ == StepView::Read(reading),
        },
        steps_view(steps).len() == steps.len(),
        forall|i: int| 0 <= i < steps.len() ==> #[trigger] steps_view(steps)[i] == steps[i]@,
{
}

/// Optional and failing results are viewed as they are.
pub proof fn law_result_views(
    groups: Option<Vec<String>>,
    time: Option<i64>,
    size: Option<usize>,
    text: Option<&str>,
    reading: Option<Result<Outcome, FtpError>>,
)
    ensures
        match groups {
            Some(g) => {
                &&& groups_view(groups) is Some
                &&& groups_view(groups)->0.len() == g@.len()
                &&& forall|i: int|
                    0 <= i < g@.len() ==> #[trigger] groups_view(groups)->0[i] == g@[i]@
            },
            None => groups_view(groups) is None,
        },
        match time {
            Some(t) => time_view(time) == Some(t as int),
            None => time_view(time) is None,
        },
        match size {
            Some(n) => size_view(size) == Some(n as nat),
            None => size_view(size) is None,
        },
        match text {
            Some(s) => optional_view(text) == Some(s@),
            None => optional_view(text) is None,
        },
        match reading {
            Some(Ok(o)) => reading_view(reading) == Some(Ok::<OutcomeView, ErrorView>(o@)),
            Some(Err(e)) => reading_view(reading) == Some(Err::<OutcomeView, ErrorView>(e@)),
            None => reading_view(reading) is None,
        },
{
}

/// A result is viewed with its value as it is, or with the view of its error.
pub proof fn law_failing_view<T>(r: Result<T, FtpError>)
    ensures
        match r {
            Ok(value) => result_view(r) == Ok::<T, ErrorView>(value),
            Err(e) => result_view(r) == Err::<T, ErrorView>(e@),
        },
{
}

} // verus!
