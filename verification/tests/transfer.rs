use fire_dl::transfer::{Action, Event, Phase, Transfer};

fn run(unlink_existing: bool, events: &[Event]) -> (Vec<Action>, Phase) {
    let mut t = Transfer::new(unlink_existing);
    let actions = events.iter().map(|e| t.step(*e)).collect();
    (actions, t.current())
}

#[test]
fn download_without_existing_file() {
    let (actions, phase) = run(
        false,
        &[
            Event::Begin,
            Event::Done,
            Event::Done,
            Event::Chunk,
            Event::Done,
            Event::Chunk,
            Event::Done,
            Event::End,
            Event::Done,
            Event::Done,
        ],
    );
    assert_eq!(
        actions,
        vec![
            Action::Request,
            Action::CreateTemp,
            Action::ReadChunk,
            Action::WriteChunk,
            Action::ReadChunk,
            Action::WriteChunk,
            Action::ReadChunk,
            Action::Flush,
            Action::Rename,
            Action::ReportSuccess,
        ]
    );
    assert_eq!(phase, Phase::Succeeded);
}

#[test]
fn existing_file_is_removed_between_flush_and_rename() {
    let (actions, phase) = run(
        true,
        &[
            Event::Begin,
            Event::Done,
            Event::Done,
            Event::Chunk,
            Event::Done,
            Event::End,
            Event::Done,
            Event::Done,
            Event::Done,
        ],
    );
    assert_eq!(
        actions,
        vec![
            Action::Request,
            Action::CreateTemp,
            Action::ReadChunk,
            Action::WriteChunk,
            Action::ReadChunk,
            Action::Flush,
            Action::RemoveExisting,
            Action::Rename,
            Action::ReportSuccess,
        ]
    );
    assert_eq!(phase, Phase::Succeeded);
}

#[test]
fn empty_body_is_flushed_and_renamed() {
    let (actions, _) = run(false, &[Event::Begin, Event::Done, Event::Done, Event::End, Event::Done]);
    assert_eq!(
        actions,
        vec![Action::Request, Action::CreateTemp, Action::ReadChunk, Action::Flush, Action::Rename]
    );
}

#[test]
fn failed_request_ends_the_job() {
    let (actions, phase) = run(false, &[Event::Begin, Event::Error, Event::Done, Event::Begin]);
    assert_eq!(
        actions,
        vec![Action::Request, Action::ReportFailure, Action::Nothing, Action::Nothing]
    );
    assert_eq!(phase, Phase::Failed);
}

#[test]
fn failed_write_leaves_the_temporary_file() {
    let (actions, phase) = run(
        true,
        &[Event::Begin, Event::Done, Event::Done, Event::Chunk, Event::Error, Event::Done, Event::End],
    );
    assert_eq!(
        actions,
        vec![
            Action::Request,
            Action::CreateTemp,
            Action::ReadChunk,
            Action::WriteChunk,
            Action::ReportFailure,
            Action::Nothing,
            Action::Nothing,
        ]
    );
    assert_eq!(phase, Phase::Failed);
}

#[test]
fn every_step_can_fail() {
    let good = [
        Event::Begin,
        Event::Done,
        Event::Done,
        Event::Chunk,
        Event::Done,
        Event::End,
        Event::Done,
        Event::Done,
        Event::Done,
    ];
    for cut in 1..good.len() {
        let mut events = good[..cut].to_vec();
        events.push(Event::Error);
        let (actions, phase) = run(true, &events);
        assert_eq!(actions[cut], Action::ReportFailure);
        assert_eq!(phase, Phase::Failed);
        assert!(!actions[..cut].contains(&Action::ReportSuccess));
    }
    let (actions, phase) = run(true, &good);
    assert_eq!(actions[good.len() - 1], Action::ReportSuccess);
    assert_eq!(phase, Phase::Succeeded);
}

#[test]
fn events_out_of_place_are_ignored() {
    let mut t = Transfer::new(false);
    assert_eq!(t.step(Event::Done), Action::Nothing);
    assert_eq!(t.step(Event::Chunk), Action::Nothing);
    assert_eq!(t.step(Event::Error), Action::Nothing);
    assert_eq!(t.current(), Phase::Idle);
    assert_eq!(t.step(Event::Begin), Action::Request);
    assert_eq!(t.step(Event::Begin), Action::Nothing);
    assert_eq!(t.step(Event::Chunk), Action::Nothing);
    assert_eq!(t.current(), Phase::Requesting);
    assert!(!t.is_over());
}

#[test]
fn nothing_follows_success() {
    let mut t = Transfer::new(false);
    for e in [Event::Begin, Event::Done, Event::Done, Event::End, Event::Done, Event::Done] {
        t.step(e);
    }
    assert!(t.is_over());
    assert_eq!(t.current(), Phase::Succeeded);
    for e in [Event::Begin, Event::Done, Event::Chunk, Event::End, Event::Error] {
        assert_eq!(t.step(e), Action::Nothing);
        assert_eq!(t.current(), Phase::Succeeded);
    }
}

#[test]
fn request_is_sent_once() {
    let events = [
        Event::Begin,
        Event::Begin,
        Event::Done,
        Event::Begin,
        Event::Done,
        Event::End,
        Event::Begin,
        Event::Done,
        Event::Done,
        Event::Begin,
    ];
    for unlink_existing in [false, true] {
        let (actions, _) = run(unlink_existing, &events);
        assert_eq!(actions.iter().filter(|a| **a == Action::Request).count(), 1);
    }
}
