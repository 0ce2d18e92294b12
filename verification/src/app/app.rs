use std::sync::Arc;
use vstd::prelude::*;

use crate::app::game::GameState;
use crate::app::supervisor::{StartRun, StopRun, Supervisor};
use crate::app::AppContext;
use crate::backend::capture::service::CaptureService;

verus! {

/// The application.
pub struct App {
    supervisor: Supervisor,
}

/// What the application is doing.
#[derive(Debug, Clone, Copy, PartialEq, Eq, Structural)]
pub enum Stage {
    Starting(StartRun),
    /// All services run.
    Waiting,
    Stopping(StopRun),
    /// All services have been stopped.
    Finished,
    /// A service failed to start.
    Failed,
}

/// What is to be done next.
#[derive(Debug, Clone, Copy, PartialEq, Eq, Structural)]
pub enum Action {
    /// Start the service with this index.
    Start(usize),
    /// Wait for a shutdown signal.
    AwaitShutdown,
    /// Stop the service with this index.
    Stop(usize),
    /// All is done.
    Finish,
    /// Give up.
    Abort,
}

/// What happened in the world.
#[derive(Debug, Clone, Copy, PartialEq, Eq, Structural)]
pub enum Event {
    /// The service was started, or failed to.
    Started(bool),
    /// The user asked for an end.
    ShutdownRequested,
    /// The service was stopped, or failed to.
    Stopped(bool),
}

impl App {
    /// The services of the application.
    pub closed spec fn services(&self) -> Seq<Seq<char>> {
        self.supervisor.names()
    }

    /// What the services share.
    pub closed spec fn shared(&self) -> AppContext {
        self.supervisor.shared()
    }

    /// The application with its one service, which captures the screen.
    pub fn new() -> (app: App)
        ensures
            app.services() == seq!["capture"@],
            app.shared().wf(),
            app.shared().history() == seq![GameState::Unknown],
    {
        let context = Arc::new(AppContext::new());
        let mut supervisor = Supervisor::new(context);
        let capture: CaptureService<()> = CaptureService::new();
        supervisor.register(&capture);
        assert(supervisor.names() =~= seq!["capture"@]);
        App { supervisor }
    }

    /// The name of a service.
    pub fn service_name(&self, index: usize) -> (name: &'static str)
        requires
            index < self.services().len(),
        ensures
            name@ == self.services()[index as int],
    {
        self.supervisor.service_name(index)
    }

    /// Begins the full lifecycle: start every service, block until a shutdown signal, then
    /// stop every service in reverse order.
    pub fn run(&self) -> (lifecycle: Lifecycle)
        ensures
            lifecycle == begin(self.services().len() as usize),
            self.services().len() <= usize::MAX,
    {
        let start: StartRun = self.supervisor.start_all();
        Lifecycle {
            count: self.supervisor.count(),
            stage: match start.next() {
                Some(_) => Stage::Starting(start),
                None => Stage::Waiting,
            },
        }
    }
}

/// The application between start and end. It decides; the caller performs the actions and
/// reports the events.
#[derive(Debug, Clone, Copy, PartialEq, Eq, Structural)]
pub struct Lifecycle {
    /// How many services there are.
    pub count: usize,
    pub stage: Stage,
}

/// The lifecycle of `count` services at its beginning.
pub open spec fn begin(count: usize) -> Lifecycle {
    Lifecycle {
        count,
        stage: if count > 0 {
            Stage::Starting(StartRun { started: 0, count })
        } else {
            Stage::Waiting
        },
    }
}

impl Lifecycle {
    pub open spec fn wf(self) -> bool {
        match self.stage {
            Stage::Starting(run) => run.count == self.count && run.started < run.count,
            Stage::Stopping(run) => 0 < run.left <= self.count,
            _ => true,
        }
    }

    /// What is to be done now.
    pub open spec fn next_action(self) -> Action {
        match self.stage {
            Stage::Starting(run) => Action::Start(run.started),
            Stage::Waiting => Action::AwaitShutdown,
            Stage::Stopping(run) => Action::Stop((run.left - 1) as usize),
            Stage::Finished => Action::Finish,
            Stage::Failed => Action::Abort,
        }
    }

    /// `event` answers what the lifecycle waits for.
    pub open spec fn accepts(self, event: Event) -> bool {
        match self.stage {
            Stage::Starting(_) => event is Started,
            Stage::Waiting => event is ShutdownRequested,
            Stage::Stopping(_) => event is Stopped,
            _ => false,
        }
    }

    /// The lifecycle after `event`.
    pub open spec fn after(self, event: Event) -> Lifecycle {
        let stage = match (self.stage, event) {
            (Stage::Starting(run), Event::Started(true)) => if run.started + 1 < run.count {
                Stage::Starting(StartRun { started: (run.started + 1) as usize, ..run })
            } else {
                Stage::Waiting
            },
            (Stage::Starting(_), _) => Stage::Failed,
            (Stage::Waiting, _) => if self.count > 0 {
                Stage::Stopping(StopRun { left: self.count })
            } else {
                Stage::Finished
            },
            (Stage::Stopping(run), _) => if run.left > 1 {
                Stage::Stopping(StopRun { left: (run.left - 1) as usize })
            } else {
                Stage::Finished
            },
            (stage, _) => stage,
        };
        Lifecycle { stage, ..self }
    }

    /// What is to be done now.
    pub fn action(&self) -> (action: Action)
        requires
            self.wf(),
        ensures
            action == self.next_action(),
    {
        match self.stage {
            Stage::Starting(run) => Action::Start(run.started),
            Stage::Waiting => Action::AwaitShutdown,
            Stage::Stopping(run) => Action::Stop(run.left - 1),
            Stage::Finished => Action::Finish,
            Stage::Failed => Action::Abort,
        }
    }

    /// Takes note of what happened; `action` then says what is to be done.
    pub fn step(&mut self, event: Event)
        requires
            old(self).wf(),
            old(self).accepts(event),
        ensures
            *final(self) == old(self).after(event),
            final(self).wf(),
    {
        let stage: Stage = match (self.stage, event) {
            (Stage::Starting(run), Event::Started(ok)) => {
                let mut run = run;
                let result: Result<(), ()> = if ok {
                    Ok(())
                } else {
                    Err(())
                };
                match run.on_start(result) {
                    Ok(_) => match run.next() {
                        Some(_) => Stage::Starting(run),
                        None => Stage::Waiting,
                    },
                    Err(_) => Stage::Failed,
                }
            },
            (Stage::Waiting, _) => if self.count > 0 {
                Stage::Stopping(StopRun { left: self.count })
            } else {
                Stage::Finished
            },
            (Stage::Stopping(run), Event::Stopped(ok)) => {
                let mut run = run;
                let result: Result<(), ()> = if ok {
                    Ok(())
                } else {
                    Err(())
                };
                run.on_stop(&result);
                match run.next() {
                    Some(_) => Stage::Stopping(run),
                    None => Stage::Finished,
                }
            },
            (stage, _) => stage,
        };
        self.stage = stage;
    }
}

/// The lifecycle after a row of events.
pub open spec fn lifecycle_after(start: Lifecycle, events: Seq<Event>) -> Lifecycle
    decreases events.len(),
{
    if events.len() == 0 {
        start
    } else {
        lifecycle_after(start, events.drop_last()).after(events.last())
    }
}

/// Every event of the row answers what the lifecycle waits for when it happens.
pub open spec fn is_run(start: Lifecycle, events: Seq<Event>) -> bool
    decreases events.len(),
{
    events.len() > 0 ==> {
        &&& is_run(start, events.drop_last())
        &&& lifecycle_after(start, events.drop_last()).accepts(events.last())
    }
}

/// The actions that a row of events answered.
pub open spec fn actions_done(start: Lifecycle, events: Seq<Event>) -> Seq<Action>
    decreases events.len(),
{
    if events.len() == 0 {
        Seq::empty()
    } else {
        actions_done(start, events.drop_last()).push(
            lifecycle_after(start, events.drop_last()).next_action(),
        )
    }
}

/// The first `n` services are started, in registration order.
pub open spec fn starts(n: nat) -> Seq<Action> {
    Seq::new(n, |i: int| Action::Start(i as usize))
}

/// Of `count` services the last `n` are stopped, in reverse registration order.
pub open spec fn stops(count: nat, n: nat) -> Seq<Action> {
    Seq::new(n, |i: int| Action::Stop((count - 1 - i) as usize))
}

/// Services are started in registration order and, after the shutdown signal, every one of
/// them is stopped in reverse order, whatever failed to stop. A service that fails to start
/// ends the lifecycle at once.
pub proof fn lemma_lifecycle_order(count: usize, events: Seq<Event>)
    requires
        is_run(begin(count), events),
    ensures
        ({
            let now = lifecycle_after(begin(count), events);
            let done = actions_done(begin(count), events);
            let n = count as nat;
            &&& now.wf()
            &&& now.count == count
            &&& match now.stage {
                Stage::Starting(run) => done == starts(run.started as nat),
                Stage::Waiting => done == starts(n),
                Stage::Stopping(run) => done == starts(n).push(Action::AwaitShutdown) + stops(
                    n,
                    (n - run.left) as nat,
                ),
                Stage::Finished => done == starts(n).push(Action::AwaitShutdown) + stops(n, n),
                Stage::Failed => 0 < done.len() <= n && done == starts(done.len()) && events.last()
                    == Event::Started(false),
            }
        }),
    decreases events.len(),
{
    let done = actions_done(begin(count), events);
    let n = count as nat;
    if events.len() == 0 {
        assert(done =~= starts(0));
    } else {
        lemma_lifecycle_order(count, events.drop_last());
        let before = lifecycle_after(begin(count), events.drop_last());
        let done_before = actions_done(begin(count), events.drop_last());
        match before.stage {
            Stage::Starting(run) => {
                assert(done =~= starts((run.started + 1) as nat));
            },
            Stage::Waiting => {
                assert(done =~= starts(n).push(Action::AwaitShutdown) + stops(n, 0));
            },
            Stage::Stopping(run) => {
                assert(done =~= starts(n).push(Action::AwaitShutdown) + stops(
                    n,
                    (n - run.left + 1) as nat,
                ));
            },
            _ => {},
        }
    }
}

/// What is done in answer to each event. Services start one after the other, the first one
/// that fails ends the lifecycle, and once all run a shutdown is awaited; then they stop one after
/// the other, from the last to the first, whether stopping them succeeds or not.
pub proof fn lemma_answers_lead_on(s: Lifecycle, event: Event)
    requires
        s.wf(),
        s.accepts(event),
    ensures
        ({
            let next = s.after(event);
            let job = next.next_action();
            &&& next.count == s.count
            &&& match (s.next_action(), event) {
                (Action::Start(i), Event::Started(ok)) => job == if !ok {
                    Action::Abort
                } else if i + 1 < s.count {
                    Action::Start((i + 1) as usize)
                } else {
                    Action::AwaitShutdown
                },
                (Action::AwaitShutdown, Event::ShutdownRequested) => job == if s.count > 0 {
                    Action::Stop((s.count - 1) as usize)
                } else {
                    Action::Finish
                },
                (Action::Stop(i), Event::Stopped(_)) => job == if i > 0 {
                    Action::Stop((i - 1) as usize)
                } else {
                    Action::Finish
                },
                _ => false,
            }
        }),
{
}

/// Whatever can come of an action is accepted, and the first action is to start the first service.
pub proof fn lemma_every_answer_is_accepted(s: Lifecycle, event: Event, count: usize)
    ensures
        s.accepts(event) <==> match s.next_action() {
            Action::Start(_) => event is Started,
            Action::AwaitShutdown => event is ShutdownRequested,
            Action::Stop(_) => event is Stopped,
            Action::Finish | Action::Abort => false,
        },
        begin(count).count == count,
        begin(count).wf(),
        begin(count).next_action() == if count > 0 {
            Action::Start(0)
        } else {
            Action::AwaitShutdown
        },
{
}

} // verus!
