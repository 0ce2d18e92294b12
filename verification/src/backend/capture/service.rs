//! The screen-capture pipeline as a supervised service.

use vstd::prelude::*;

use crate::app::Service;

verus! {

/// Owns the recorder `R` of the screen-capture pipeline while it runs.
pub struct CaptureService<R> {
    recorder: Option<R>,
}

impl<R> CaptureService<R> {
    /// The recorder that runs.
    pub closed spec fn running(&self) -> Option<R> {
        self.recorder
    }

    /// A service without a recorder.
    pub fn new() -> (service: CaptureService<R>)
        ensures
            service.running() is None,
    {
        CaptureService { recorder: None }
    }

    /// Whether starting the service means starting a recorder: not where one runs already.
    pub fn needs_recorder(&self) -> (needed: bool)
        ensures
            needed == (self.running() is None),
    {
        self.recorder.is_none()
    }

    /// Takes note of how starting a recorder went.
    pub fn started<E>(&mut self, recorder: Result<R, E>) -> (result: Result<(), E>)
        requires
            old(self).running() is None,
        ensures
            match recorder {
                Ok(r) => result is Ok && final(self).running() == Some(r),
                Err(e) => result == Err::<(), E>(e) && final(self).running() is None,
            },
    {
        match recorder {
            Ok(r) => {
                self.recorder = Some(r);
                Ok(())
            },
            Err(e) => Err(e),
        }
    }

    /// Stops the recorder, if one runs, by `stop_recorder`. However that goes, the service then
    /// has none, and what `stop_recorder` said is handed on. Without a recorder nothing happens.
    pub fn stop<E, F: FnOnce(R) -> Result<(), E>>(&mut self, stop_recorder: F) -> (result: Result<
        (),
        E,
    >)
        requires
            old(self).running() matches Some(r) ==> call_requires(stop_recorder, (r,)),
        ensures
            stopped(old(self).running(), final(self).running(), stop_recorder, result),
    {
        match self.recorder.take() {
            Some(recorder) => stop_recorder(recorder),
            None => Ok(()),
        }
    }
}

/// A service that held `before` and holds `after` was stopped by `stop_recorder`, with `result`.
pub open spec fn stopped<R, E, F: FnOnce(R) -> Result<(), E>>(
    before: Option<R>,
    after: Option<R>,
    stop_recorder: F,
    result: Result<(), E>,
) -> bool {
    &&& after is None
    &&& match before {
        Some(r) => call_ensures(stop_recorder, (r,), result),
        None => result is Ok,
    }
}

/// Stopping a service again right after it was stopped always succeeds, however the first stop
/// went.
pub proof fn lemma_second_stop_succeeds<
    R,
    E,
    F: FnOnce(R) -> Result<(), E>,
    G: FnOnce(R) -> Result<(), E>,
>(
    before: Option<R>,
    between: Option<R>,
    after: Option<R>,
    first: F,
    second: G,
    result: Result<(), E>,
    again: Result<(), E>,
)
    requires
        stopped(before, between, first, result),
        stopped(between, after, second, again),
    ensures
        after is None,
        again is Ok,
{
}

impl<R> Service for CaptureService<R> {
    fn name(&self) -> (name: &'static str)
        ensures
            name@ == "capture"@,
    {
        "capture"
    }
}

/// Stopping asks the recorder that runs and hands on its answer; without one there is nothing to
/// ask, and stopping succeeds. In either case none is held afterwards.
pub proof fn lemma_stop_hands_on_the_answer<R, E, F: FnOnce(R) -> Result<(), E>>(
    recorder: R,
    after: Option<R>,
    stop_recorder: F,
    result: Result<(), E>,
)
    ensures
        stopped(Some(recorder), after, stop_recorder, result) ==> call_ensures(
            stop_recorder,
            (recorder,),
            result,
        ) && after is None,
        stopped(None, after, stop_recorder, result) ==> result is Ok && after is None,
{
}

} // verus!
