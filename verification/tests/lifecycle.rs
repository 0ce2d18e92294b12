use std::sync::Arc;
use typhoon_rs::app::app::{Action, Event};
use typhoon_rs::app::game::GameState;
use typhoon_rs::app::supervisor::Supervisor;
use typhoon_rs::app::task::TaskManager;
use typhoon_rs::app::{App, AppContext, Service};
use typhoon_rs::backend::capture::service::CaptureService;

#[test]
fn states_wake_receivers_once_per_transition() {
    let mut context = AppContext::new();
    assert_eq!(context.state(), GameState::Unknown);
    let mut rx = context.subscribe_state();
    assert!(!rx.has_changed().unwrap());
    context.set_state(GameState::Unknown);
    assert!(!rx.has_changed().unwrap());
    context.set_state(GameState::Playing);
    assert!(rx.has_changed().unwrap());
    assert_eq!(*rx.borrow_and_update(), GameState::Playing);
    context.set_state(GameState::Playing);
    assert!(!rx.has_changed().unwrap());
    assert_eq!(context.state(), GameState::Playing);
    context.set_state(GameState::Paused);
    assert!(!context.subscribe_state().has_changed().unwrap());
    assert_eq!(*context.subscribe_state().borrow(), GameState::Paused);
}

#[test]
fn receivers_follow_the_published_state() {
    let mut context = AppContext::new();
    let early = context.subscribe_state();
    assert_eq!(context.received(&early), (GameState::Unknown, false));
    context.set_state(GameState::MainMenu);
    let late = context.subscribe_state();
    assert_eq!(context.received(&early), (GameState::MainMenu, true));
    assert_eq!(context.received(&late), (GameState::MainMenu, false));
    context.set_state(GameState::MainMenu);
    assert_eq!(context.received(&late), (GameState::MainMenu, false));
    context.set_state(GameState::Playing);
    assert_eq!(context.received(&early), (GameState::Playing, true));
    assert_eq!(context.received(&late), (GameState::Playing, true));
}

#[test]
fn publishing_reports_transitions() {
    let mut s = GameState::default();
    assert_eq!(s, GameState::Unknown);
    assert!(!s.publish(GameState::Unknown));
    assert!(s.publish(GameState::MainMenu));
    assert_eq!(s, GameState::MainMenu);
}

#[test]
fn the_application_has_one_service() {
    let app = App::new();
    assert_eq!(app.service_name(0), "capture");
    let mut life = app.run();
    assert_eq!(life.action(), Action::Start(0));
    life.step(Event::Started(true));
    assert_eq!(life.action(), Action::AwaitShutdown);
    life.step(Event::ShutdownRequested);
    assert_eq!(life.action(), Action::Stop(0));
    life.step(Event::Stopped(false));
    assert_eq!(life.action(), Action::Finish);
}

#[test]
fn a_service_that_fails_to_start_aborts() {
    let mut life = App::new().run();
    life.step(Event::Started(false));
    assert_eq!(life.action(), Action::Abort);
}

struct Named(&'static str);

impl Service for Named {
    fn name(&self) -> &'static str {
        self.0
    }
}

#[test]
fn services_stop_in_reverse_order() {
    let mut supervisor = Supervisor::new(Arc::new(AppContext::new()));
    supervisor.register(&Named("a"));
    supervisor.register(&Named("b"));
    supervisor.register(&Named("c"));
    assert_eq!(supervisor.count(), 3);
    let mut started: Vec<&str> = Vec::new();
    let mut run = supervisor.start_all();
    while let Some(i) = run.next() {
        started.push(supervisor.service_name(i));
        assert_eq!(run.on_start::<()>(Ok(())), Ok(()));
    }
    assert_eq!(started, vec!["a", "b", "c"]);
    let mut stopped: Vec<&str> = Vec::new();
    let mut run = supervisor.stop_all();
    while let Some(i) = run.next() {
        stopped.push(supervisor.service_name(i));
        run.on_stop(&Err("ignored"));
    }
    assert_eq!(stopped, vec!["c", "b", "a"]);
    let mut run = supervisor.start_all();
    assert_eq!(run.on_start(Err("down")), Err("down"));
    assert_eq!(run.next(), Some(0));
}

#[test]
fn the_capture_service_owns_its_recorder() {
    let mut service: CaptureService<u32> = CaptureService::new();
    assert_eq!(service.name(), "capture");
    assert!(service.needs_recorder());
    assert_eq!(service.started(Err("no window")), Err("no window"));
    assert!(service.needs_recorder());
    assert_eq!(service.started::<&str>(Ok(3)), Ok(()));
    assert!(!service.needs_recorder());
    let mut stopped: Vec<u32> = Vec::new();
    let result: Result<(), &str> = service.stop(|r| {
        stopped.push(r);
        Err("disk full")
    });
    assert_eq!(result, Err("disk full"));
    assert_eq!(stopped, vec![3]);
    assert!(service.needs_recorder());
    // None is held any more, so a second stop has nothing to do.
    let again: Result<(), &str> = service.stop(|_| Err("never asked"));
    assert_eq!(again, Ok(()));
    assert!(service.started(Ok::<u32, &str>(4)).is_ok());
    assert_eq!(service.stop(|_| Ok::<(), &str>(())), Ok(()));
    assert!(service.needs_recorder());
    assert!(service.needs_recorder());
}

#[test]
fn a_task_manager_can_be_made() {
    let _ = TaskManager::new();
}
