use hotwatch::{Action, Dispatcher, Flow, Phase, Signal};

#[test]
fn flow_defaults_to_continue() {
    assert_eq!(Flow::default(), Flow::Continue);
}

#[test]
fn new_loop_waits() {
    let d = Dispatcher::new(true);
    assert_eq!(d.phase, Phase::Waiting);
    assert!(d.blocking);
    assert!(!d.is_stopped());
}

#[test]
fn blocking_exit_skips_rest_of_batch_and_later_batches() {
    let mut d = Dispatcher::new(true);
    assert_eq!(d.step(Signal::Events(3)), Action::Route(0));
    assert_eq!(d.step(Signal::Routed(Flow::Continue)), Action::Route(1));
    assert_eq!(d.step(Signal::Routed(Flow::Exit)), Action::Stop);
    assert!(d.is_stopped());
    assert_eq!(d.step(Signal::Routed(Flow::Continue)), Action::Stop);
    assert_eq!(d.step(Signal::Events(2)), Action::Stop);
    assert_eq!(d.step(Signal::Errors(1)), Action::Stop);
}

#[test]
fn blocking_loop_keeps_going_while_handlers_continue() {
    let mut d = Dispatcher::new(true);
    assert_eq!(d.step(Signal::Events(2)), Action::Route(0));
    assert_eq!(d.step(Signal::Routed(Flow::Continue)), Action::Route(1));
    assert_eq!(d.step(Signal::Routed(Flow::Continue)), Action::Receive);
    assert_eq!(d.phase, Phase::Waiting);
    assert_eq!(d.step(Signal::Events(1)), Action::Route(0));
}

#[test]
fn background_loop_ignores_exit() {
    let mut d = Dispatcher::new(false);
    assert_eq!(d.step(Signal::Events(3)), Action::Route(0));
    assert_eq!(d.step(Signal::Routed(Flow::Exit)), Action::Route(1));
    assert_eq!(d.step(Signal::Routed(Flow::Exit)), Action::Route(2));
    assert_eq!(d.step(Signal::Routed(Flow::Exit)), Action::Receive);
    assert!(!d.is_stopped());
}

#[test]
fn background_loop_stops_only_when_source_is_gone() {
    let mut d = Dispatcher::new(false);
    assert_eq!(d.step(Signal::Errors(4)), Action::Receive);
    assert_eq!(d.step(Signal::Events(0)), Action::Receive);
    assert_eq!(d.step(Signal::Disconnected), Action::Stop);
    assert_eq!(d.phase, Phase::Stopped);
}

#[test]
fn error_batch_does_not_block_next_batch() {
    let mut d = Dispatcher::new(true);
    assert_eq!(d.step(Signal::Errors(2)), Action::Receive);
    assert_eq!(d.phase, Phase::Waiting);
    assert_eq!(d.step(Signal::Events(1)), Action::Route(0));
    assert_eq!(d.step(Signal::Routed(Flow::Continue)), Action::Receive);
}

#[test]
fn disconnect_while_routing_stops() {
    let mut d = Dispatcher::new(false);
    assert_eq!(d.step(Signal::Events(5)), Action::Route(0));
    assert_eq!(d.step(Signal::Disconnected), Action::Stop);
    assert!(d.is_stopped());
}

#[test]
fn delivery_while_routing_keeps_current_event() {
    let mut d = Dispatcher::new(true);
    assert_eq!(d.step(Signal::Events(2)), Action::Route(0));
    assert_eq!(d.step(Signal::Events(9)), Action::Route(0));
    assert_eq!(d.phase, Phase::Routing { len: 2, next: 0 });
}

#[test]
fn answer_while_waiting_is_ignored() {
    let mut d = Dispatcher::new(true);
    assert_eq!(d.step(Signal::Routed(Flow::Exit)), Action::Receive);
    assert_eq!(d.phase, Phase::Waiting);
}

#[test]
fn largest_batch_is_routed_to_its_end() {
    let mut d = Dispatcher { blocking: false, phase: Phase::Routing { len: usize::MAX, next: usize::MAX - 2 } };
    assert_eq!(d.step(Signal::Routed(Flow::Continue)), Action::Route(usize::MAX - 1));
    assert_eq!(d.step(Signal::Routed(Flow::Continue)), Action::Receive);
}
