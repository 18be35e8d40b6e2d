use pdd::arguments::Arguments;
use pdd::engine::{Action, Engine, Event, OperationResult, Status, Stop};
use pdd::sequencer::Sequencer;

fn sequencer(list: &[&str]) -> Sequencer {
    let args: Vec<String> = list.iter().map(|s| s.to_string()).collect();
    Sequencer::new(Arguments::parse(&args).unwrap())
}

/// Runs an engine on an input that fails to open, or that is empty.
fn run(mut engine: Engine, input_opens: bool) -> OperationResult {
    loop {
        let event = match engine.action() {
            Action::OpenInput => {
                if input_opens {
                    Event::InputOpened
                } else {
                    Event::InputFailed("gone".to_string())
                }
            }
            Action::OpenSink(_) => Event::SinkOpened,
            Action::Read { .. } => Event::Block(0),
            Action::Deliver => unreachable!(),
            Action::Close => Event::Closed,
            Action::Done => break,
        };
        assert!(engine.step(event));
    }
    engine.finish().unwrap()
}

#[test]
fn operations_run_in_the_order_given() {
    let mut seq = sequencer(&["if=a", "of=x", "--", "if=b", "of=y", "of=z", "bs=7"]);
    assert!(!seq.is_finished());
    assert_eq!(seq.operation().unwrap().input_file, "a");
    let first = seq.engine().unwrap();
    assert_eq!(first.sink_count(), 1);
    assert!(seq.record(run(first, true)));

    assert_eq!(seq.operation().unwrap().input_file, "b");
    let mut second = seq.engine().unwrap();
    assert_eq!(second.sink_count(), 2);
    assert!(second.step(Event::InputOpened));
    assert!(second.step(Event::SinkOpened));
    assert!(second.step(Event::SinkOpened));
    assert_eq!(second.action(), Action::Read { max: 7, follow: false });
    assert!(second.step(Event::Block(0)));
    assert!(second.step(Event::Closed));
    assert!(seq.record(second.finish().unwrap()));

    assert!(seq.is_finished());
    assert!(seq.operation().is_none());
    assert!(seq.engine().is_none());
    assert_eq!(seq.results().len(), 2);
    assert!(!seq.any_fatal());
}

#[test]
fn failed_operation_does_not_stop_the_next() {
    let mut seq = sequencer(&["if=a", "of=x", "--", "if=b", "of=y"]);
    let first = seq.engine().unwrap();
    assert!(seq.record(run(first, false)));
    assert!(seq.any_fatal());
    assert!(!seq.is_finished());
    assert_eq!(seq.operation().unwrap().input_file, "b");
    let second = seq.engine().unwrap();
    assert!(seq.record(run(second, true)));
    assert!(seq.is_finished());
    assert!(seq.any_fatal());
    assert_eq!(seq.results()[0].status(), Status::DidNotRun);
    assert_eq!(seq.results()[0].stop, Stop::InputUnavailable);
    assert_eq!(seq.results()[1].status(), Status::Complete);
}

#[test]
fn no_result_is_taken_beyond_the_last_operation() {
    let mut seq = sequencer(&["if=a", "of=x"]);
    let engine = seq.engine().unwrap();
    let result = run(engine, true);
    assert!(seq.record(result.clone()));
    assert!(!seq.record(result));
    assert_eq!(seq.results().len(), 1);
}

#[test]
fn nothing_to_run() {
    let seq = sequencer(&[]);
    assert!(seq.is_finished());
    assert!(seq.engine().is_none());
    assert!(!seq.any_fatal());
    assert!(seq.results().is_empty());
}
