use merkle_gpu::queue::{DevicePoll, PollKind, QueueWait, SignalPoll, WaitVerdict};

#[test]
fn polling_waits_for_the_submission() {
    assert_eq!(QueueWait::poll_kind(true), PollKind::WaitForSubmission);
    assert_eq!(QueueWait::poll_kind(false), PollKind::Poll);
}

#[test]
fn the_callback_signals_once() {
    let mut wait = QueueWait::new();
    assert!(wait.on_callback());
    assert!(!wait.on_callback());
    let reaction = wait.on_device_poll(DevicePoll::Finished);
    assert!(!reaction.signal);
    assert!(!reaction.observed);
    assert!(wait.callback_fired);
}

#[test]
fn a_poll_that_sees_completion_signals() {
    let mut wait = QueueWait::new();
    let reaction = wait.on_device_poll(DevicePoll::Unfinished);
    assert!(!reaction.signal && !reaction.failed && !reaction.observed);
    let reaction = wait.on_device_poll(DevicePoll::Finished);
    assert!(reaction.signal && reaction.observed && !reaction.failed);
    assert!(!wait.on_callback());
    assert!(!wait.on_device_poll(DevicePoll::Finished).signal);
    assert_eq!(wait.polls, 3);
}

#[test]
fn a_failed_poll_gives_up() {
    let mut wait = QueueWait::new();
    let reaction = wait.on_device_poll(DevicePoll::Failed);
    assert!(reaction.failed && reaction.signal);
    assert!(!wait.callback_fired);
    assert!(!wait.on_device_poll(DevicePoll::Failed).signal);
}

#[test]
fn without_failed_polls_a_signal_means_completion() {
    for mask in 0..81usize {
        let mut wait = QueueWait::new();
        let mut signals = 0;
        let mut done = false;
        let mut rest = mask;
        for _ in 0..4 {
            let signal = match rest % 3 {
                0 => wait.on_device_poll(DevicePoll::Unfinished).signal,
                1 => wait.on_device_poll(DevicePoll::Finished).signal,
                _ => wait.on_callback(),
            };
            done |= rest % 3 != 0;
            signals += signal as u32;
            rest /= 3;
        }
        assert_eq!(signals > 0, done);
        assert_eq!(wait.callback_fired, done);
    }
}

#[test]
fn any_run_of_events_signals_at_most_once() {
    let outcomes = [DevicePoll::Unfinished, DevicePoll::Finished, DevicePoll::Failed];
    for mask in 0..256usize {
        let mut wait = QueueWait::new();
        let mut signals = 0;
        let mut ended = false;
        for step in 0..4 {
            let event = mask >> (2 * step) & 3;
            let signal = if event == 3 {
                wait.on_callback()
            } else {
                wait.on_device_poll(outcomes[event]).signal
            };
            ended |= event != 0;
            signals += signal as u32;
        }
        assert_eq!(signals, ended as u32);
    }
}

#[test]
fn polls_are_logged_now_and_again() {
    let mut wait = QueueWait::new();
    let logged: Vec<u64> = (0..1001)
        .filter_map(|_| {
            let reaction = wait.on_device_poll(DevicePoll::Unfinished);
            if reaction.log_status {
                Some(wait.polls)
            } else {
                None
            }
        })
        .collect();
    assert_eq!(logged, vec![1, 500, 1000]);
}

#[test]
fn verdicts() {
    let mut wait = QueueWait::new();
    wait.polls = 1999;
    assert_eq!(wait.on_signal_poll(SignalPoll::Signalled), WaitVerdict::Done);
    assert_eq!(wait.on_signal_poll(SignalPoll::Dropped), WaitVerdict::ReceiverDropped);
    assert_eq!(
        wait.on_signal_poll(SignalPoll::Pending),
        WaitVerdict::Pending { log: false }
    );
    wait.on_device_poll(DevicePoll::Unfinished);
    assert_eq!(
        wait.on_signal_poll(SignalPoll::Pending),
        WaitVerdict::Pending { log: true }
    );
    assert_eq!(
        WaitVerdict::dropped_message(),
        "queue completion receiver dropped (oneshot)"
    );
    assert_eq!(
        DevicePoll::failed_message("Timeout"),
        "device.poll returned error: Timeout"
    );
}
