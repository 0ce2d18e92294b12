use std::sync::Arc;
use vstd::prelude::*;

use crate::app::{AppContext, Service};

verus! {

/// Knows the services of the application and the order in which they start and stop.
pub struct Supervisor {
    services: Vec<&'static str>,
    context: Arc<AppContext>,
}

impl Supervisor {
    /// The names of the services, in the order of their registration.
    pub closed spec fn names(&self) -> Seq<Seq<char>> {
        self.services@.map_values(|name: &'static str| name@)
    }

    /// What the services share.
    pub closed spec fn shared(&self) -> AppContext {
        *self.context
    }

    /// A supervisor without services.
    pub fn new(context: Arc<AppContext>) -> (supervisor: Supervisor)
        ensures
            supervisor.names().len() == 0,
            supervisor.shared() == *context,
    {
        Supervisor { services: Vec::new(), context }
    }

    /// Register a service under the name that it gives.
    pub fn register<S: Service>(&mut self, service: &S)
        ensures
            exists|name: &'static str| #[trigger]
                call_ensures(S::name, (service,), name) && final(self).names() == old(
                    self,
                ).names().push(name@),
            final(self).shared() == old(self).shared(),
    {
        let name: &'static str = service.name();
        self.services.push(name);
        assert(self.names() =~= old(self).names().push(name@));
    }

    /// The number of services.
    pub fn count(&self) -> (count: usize)
        ensures
            count == self.names().len(),
    {
        self.services.len()
    }

    /// The name of a service, by its place in the order of registration.
    pub fn service_name(&self, index: usize) -> (name: &'static str)
        requires
            index < self.names().len(),
        ensures
            name@ == self.names()[index as int],
    {
        self.services[index]
    }

    /// Begins to start every registered service, in registration order.
    pub fn start_all(&self) -> (run: StartRun)
        ensures
            run.started == 0,
            run.count == self.names().len(),
            run.wf(),
    {
        StartRun { started: 0, count: self.services.len() }
    }

    /// Begins to stop the services, in reverse registration order so that downstream
    /// consumers drain before their upstream producers disappear.
    pub fn stop_all(&self) -> (run: StopRun)
        ensures
            run.left == self.names().len(),
    {
        StopRun { left: self.services.len() }
    }
}

/// Services being started.
#[derive(Debug, Clone, Copy, PartialEq, Eq, Structural)]
pub struct StartRun {
    /// How many have started.
    pub started: usize,
    /// How many there are.
    pub count: usize,
}

impl StartRun {
    pub open spec fn wf(self) -> bool {
        self.started <= self.count
    }

    /// The service to start now; none where all have started.
    pub open spec fn next_index(self) -> Option<usize> {
        if self.started < self.count {
            Some(self.started)
        } else {
            None
        }
    }

    /// The service to start now; none where all have started.
    pub fn next(&self) -> (index: Option<usize>)
        ensures
            index == self.next_index(),
    {
        if self.started < self.count {
            Some(self.started)
        } else {
            None
        }
    }

    /// Takes note of how starting the service went. The first failure ends the run.
    pub fn on_start<E>(&mut self, result: Result<(), E>) -> (go_on: Result<(), E>)
        requires
            old(self).wf(),
            old(self).next_index() is Some,
        ensures
            go_on == result,
            final(self).wf(),
            final(self).count == old(self).count,
            final(self).started == if result is Ok {
                old(self).started + 1
            } else {
                old(self).started as int
            },
    {
        if result.is_ok() {
            self.started = self.started + 1;
        }
        result
    }
}

/// Services being stopped.
#[derive(Debug, Clone, Copy, PartialEq, Eq, Structural)]
pub struct StopRun {
    /// How many are still to be stopped: those registered first.
    pub left: usize,
}

impl StopRun {
    /// The service to stop now; none where all have stopped.
    pub open spec fn next_index(self) -> Option<usize> {
        if self.left > 0 {
            Some((self.left - 1) as usize)
        } else {
            None
        }
    }

    /// The service to stop now; none where all have stopped.
    pub fn next(&self) -> (index: Option<usize>)
        ensures
            index == self.next_index(),
    {
        if self.left > 0 {
            Some(self.left - 1)
        } else {
            None
        }
    }

    /// Takes note that stopping the service is over. Best effort: a service that fails to
    /// stop does not keep the others from being stopped.
    pub fn on_stop<E>(&mut self, _result: &Result<(), E>)
        requires
            old(self).next_index() is Some,
        ensures
            final(self).left == old(self).left - 1,
    {
        self.left = self.left - 1;
    }
}

/// The service to start is the one behind those that have started, and the service to stop the
/// last one of those that are left.
pub proof fn lemma_next_service(start: StartRun, stop: StopRun)
    ensures
        start.next_index() matches Some(i) ==> i == start.started && i < start.count,
        start.next_index() is None <==> start.started >= start.count,
        stop.next_index() matches Some(i) ==> i + 1 == stop.left,
        stop.next_index() is None <==> stop.left == 0,
{
}

} // verus!
