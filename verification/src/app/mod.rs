pub mod app;
pub mod game;
pub mod supervisor;
pub mod task;

pub use app::App;

use std::sync::Arc;
use tokio::sync::watch;
use vstd::prelude::*;

use crate::app::game::GameState;
use crate::app::task::TaskManager;

verus! {

/// The sending half of a tokio watch channel: a single value and the receivers that watch it.
#[verifier::external_type_specification]
#[verifier::external_body]
#[verifier::reject_recursive_types(T)]
pub struct ExWatchSender<T>(tokio::sync::watch::Sender<T>);

/// The receiving half of a tokio watch channel.
#[verifier::external_type_specification]
#[verifier::external_body]
#[verifier::reject_recursive_types(T)]
pub struct ExWatchReceiver<T>(tokio::sync::watch::Receiver<T>);

/// The values that the sender's channel has held so far, the current one last. Only the
/// sender changes the value, and a sender cannot be copied.
pub uninterp spec fn watched(tx: watch::Sender<GameState>) -> Seq<GameState>;

/// Which channel a sender sends to: fixed when the channel is made.
pub uninterp spec fn channel_of(tx: watch::Sender<GameState>) -> int;

/// Which channel a receiver watches: fixed when the receiver is made.
pub uninterp spec fn channel_watched(rx: watch::Receiver<GameState>) -> int;

/// Calls `tokio::sync::watch::channel`, which makes a channel that holds `init`.
#[verifier::external_body]
fn watch_channel(init: GameState) -> (tx: watch::Sender<GameState>)
    ensures
        watched(tx) == seq![init],
{
    let (tx, _rx) = watch::channel(init);
    tx
}

/// Calls `Sender::send_if_modified` with the closure that publishes `state`. Where the closure
/// changes the value, the channel holds the new one and every receiver is woken; where it does
/// not, nothing happens. The channel stays the same one.
#[verifier::external_body]
fn watch_publish(tx: &mut watch::Sender<GameState>, state: GameState) -> (changed: bool)
    ensures
        changed == (watched(*old(tx)).last() != state),
        watched(*final(tx)) == if changed {
            watched(*old(tx)).push(state)
        } else {
            watched(*old(tx))
        },
        channel_of(*final(tx)) == channel_of(*old(tx)),
{
    tx.send_if_modified(|current| current.publish(state))
}

/// Calls `Sender::borrow`, which reads the value that the channel holds.
#[verifier::external_body]
fn watch_read(tx: &watch::Sender<GameState>) -> (state: GameState)
    ensures
        state == watched(*tx).last(),
{
    *tx.borrow()
}

/// The values that the channel has held and that a receiver takes for seen.
pub uninterp spec fn seen_by(rx: watch::Receiver<GameState>) -> Seq<GameState>;

/// Calls `Sender::subscribe`, which makes a receiver that takes the value now in the channel
/// for seen and is woken by the next one.
#[verifier::external_body]
fn watch_subscribe(tx: &watch::Sender<GameState>) -> (rx: watch::Receiver<GameState>)
    ensures
        seen_by(rx) == watched(*tx),
        channel_watched(rx) == channel_of(*tx),
{
    tx.subscribe()
}

/// Calls `Receiver::borrow`, which reads the value that the channel holds, and
/// `Ref::has_changed`, which compares the version of that value with the one that the receiver
/// takes for seen. Every value has a version of its own, until the counter wraps: what is read
/// of a channel that has held so many values is not claimed.
#[verifier::external_body]
fn watch_look(_tx: &watch::Sender<GameState>, rx: &watch::Receiver<GameState>) -> (look: (
    GameState,
    bool,
))
    ensures
        channel_watched(*rx) == channel_of(*_tx) ==> look.0 == watched(*_tx).last(),
        channel_watched(*rx) == channel_of(*_tx) && watched(*_tx).len() < 0x4000_0000 ==> look.1 == (
        watched(*_tx).len() != seen_by(*rx).len()),
{
    let value = rx.borrow();
    (*value, value.has_changed())
}

/// What the services of the application share.
pub struct AppContext {
    /// Single source of truth for the high-level game state.
    state_tx: watch::Sender<GameState>,
    pub task_manager: Arc<TaskManager>,
}

impl AppContext {
    /// The states published so far, the initial one first and the current one last.
    pub closed spec fn history(&self) -> Seq<GameState> {
        watched(self.state_tx)
    }

    /// The channel through which the state is published.
    pub closed spec fn channel(&self) -> int {
        channel_of(self.state_tx)
    }

    /// `receiver` is one of this context.
    pub open spec fn serves(&self, receiver: watch::Receiver<GameState>) -> bool {
        channel_watched(receiver) == self.channel()
    }

    /// A state has been published that `receiver` has not seen: it is woken.
    pub open spec fn wakes(&self, receiver: watch::Receiver<GameState>) -> bool {
        self.history().len() != seen_by(receiver).len()
    }

    /// The task manager that the services share.
    pub closed spec fn tasks(&self) -> TaskManager {
        *self.task_manager
    }

    /// There is a current state, and no state repeats the one before it.
    pub open spec fn wf(&self) -> bool {
        &&& self.history().len() > 0
        &&& forall|i: int|
            0 < i < self.history().len() ==> self.history()[i - 1] != #[trigger] self.history()[i]
    }

    /// A context in which nothing has been perceived yet.
    pub fn new() -> (context: AppContext)
        ensures
            context.wf(),
            context.history() == seq![GameState::Unknown],
            context.tasks().initial() is None,
    {
        let state_tx = watch_channel(GameState::default());
        let task_manager = Arc::new(TaskManager::new());
        AppContext { state_tx, task_manager }
    }

    /// Publish a game state. Receivers are only woken when the value actually changes, so
    /// that they see each real transition once.
    pub fn set_state(&mut self, state: GameState)
        ensures
            old(self).wf() ==> final(self).wf(),
            final(self).history() == published(old(self).history(), state),
            final(self).channel() == old(self).channel(),
            final(self).tasks() == old(self).tasks(),
    {
        let _ = watch_publish(&mut self.state_tx, state);
    }

    /// Cheap snapshot of the current game state.
    pub fn state(&self) -> (state: GameState)
        ensures
            state == self.history().last(),
    {
        watch_read(&self.state_tx)
    }

    /// Subscribe to state changes. Each consumer owns its own receiver, which takes the
    /// current state for seen.
    pub fn subscribe_state(&self) -> (receiver: watch::Receiver<GameState>)
        ensures
            seen_by(receiver) == self.history(),
            self.serves(receiver),
    {
        watch_subscribe(&self.state_tx)
    }

    /// What a receiver of this context reads now, and whether a state is there that it has not
    /// seen.
    pub fn received(&self, receiver: &watch::Receiver<GameState>) -> (look: (GameState, bool))
        ensures
            self.serves(*receiver) ==> look.0 == self.history().last(),
            self.serves(*receiver) && self.history().len() < 0x4000_0000 ==> look.1 == self.wakes(
                *receiver,
            ),
    {
        watch_look(&self.state_tx, receiver)
    }
}

/// The history after `state` has been published: a state that is current already adds nothing.
pub open spec fn published(history: Seq<GameState>, state: GameState) -> Seq<GameState> {
    if history.last() == state {
        history
    } else {
        history.push(state)
    }
}

/// The history after a row of states has been published.
pub open spec fn published_all(history: Seq<GameState>, states: Seq<GameState>) -> Seq<GameState>
    decreases states.len(),
{
    if states.len() == 0 {
        history
    } else {
        published(published_all(history, states.drop_last()), states.last())
    }
}

/// Whatever is published, the current state is what was published last, and receivers are
/// woken once for each real transition: no state in the history repeats the one before it.
pub proof fn lemma_one_wake_per_transition(history: Seq<GameState>, states: Seq<GameState>)
    requires
        history.len() > 0,
        forall|i: int| 0 < i < history.len() ==> history[i - 1] != #[trigger] history[i],
    ensures
        ({
            let after = published_all(history, states);
            &&& after.len() >= history.len()
            &&& after.take(history.len() as int) == history
            &&& states.len() > 0 ==> after.last() == states.last()
            &&& forall|i: int| 0 < i < after.len() ==> after[i - 1] != #[trigger] after[i]
        }),
    decreases states.len(),
{
    if states.len() == 0 {
        assert(history.take(history.len() as int) =~= history);
    } else {
        lemma_one_wake_per_transition(history, states.drop_last());
        let before = published_all(history, states.drop_last());
        let after = published_all(history, states);
        assert(after.take(history.len() as int) =~= before.take(history.len() as int));
    }
}

/// Publishing a state reaches every receiver: what was subscribed before stays subscribed and
/// reads the new state. A receiver that had seen everything is woken if and only if the state
/// differs from the one before, and publishing the same state again wakes nobody.
pub proof fn lemma_receivers_follow(
    before: AppContext,
    after: AppContext,
    again: AppContext,
    state: GameState,
    receiver: watch::Receiver<GameState>,
)
    requires
        before.history().len() > 0,
        after.history() == published(before.history(), state),
        after.channel() == before.channel(),
        again.history() == published(after.history(), state),
        again.channel() == after.channel(),
        before.serves(receiver),
    ensures
        after.serves(receiver),
        again.serves(receiver),
        after.history().last() == state,
        again.history() == after.history(),
        seen_by(receiver) == before.history() ==> (after.wakes(receiver) <==> before.history().last()
            != state),
        again.wakes(receiver) == after.wakes(receiver),
{
}

/// A supervised, long-lived module of the system.
pub trait Service {
    /// Human-readable name, used in lifecycle logs.
    fn name(&self) -> &'static str;
}

/// Publishing a state adds it to what was published before and nothing else, and that only where
/// it differs from the last one.
pub proof fn lemma_publishing_adds_one_state(history: Seq<GameState>, state: GameState)
    requires
        history.len() > 0,
    ensures
        history[history.len() - 1] == state ==> published(history, state) == history,
        history[history.len() - 1] != state ==> published(history, state).len() == history.len()
            + 1 && published(history, state)[history.len() as int] == state,
        forall|i: int|
            0 <= i < history.len() ==> #[trigger] published(history, state)[i] == history[i],
{
}

} // verus!
