//! Waiting for the GPU queue to drain.
use vstd::prelude::*;
use vstd::string::*;

verus! {

/// How to poll the device.
#[derive(Clone, Copy, Debug, PartialEq, Eq, Structural)]
pub enum PollKind {
    /// Look at what is done.
    Poll,
    /// Wait for the last submission.
    WaitForSubmission,
}

/// The outcome of polling the device.
#[derive(Clone, Copy, Debug, PartialEq, Eq, Structural)]
pub enum DevicePoll {
    /// What was waited for is done.
    Finished,
    /// It is not done yet.
    Unfinished,
    /// Polling failed.
    Failed,
}

/// What a poll of the device asks for.
#[derive(Clone, Copy, Debug, PartialEq, Eq, Structural)]
pub struct PollReaction {
    /// Signal completion now.
    pub signal: bool,
    /// This poll is the first sign of completion.
    pub observed: bool,
    /// Give up with an error.
    pub failed: bool,
    /// Note the poll in the log.
    pub log_status: bool,
}

/// The outcome of polling the completion signal.
#[derive(Clone, Copy, Debug, PartialEq, Eq, Structural)]
pub enum SignalPoll {
    /// Completion was signalled.
    Signalled,
    /// Nobody can signal any more.
    Dropped,
    /// Not yet.
    Pending,
}

/// What the wait comes to.
#[derive(Clone, Copy, Debug, PartialEq, Eq, Structural)]
pub enum WaitVerdict {
    /// The queue has drained.
    Done,
    /// Nobody can signal completion any more.
    ReceiverDropped,
    /// Go on waiting, with a note in the log or without.
    Pending { log: bool },
}

impl WaitVerdict {
    /// What the error says when the signal is lost.
    pub fn dropped_message() -> (message: &'static str)
        ensures
            message@ == "queue completion receiver dropped (oneshot)"@,
    {
        "queue completion receiver dropped (oneshot)"
    }
}

impl DevicePoll {
    /// What the error says when polling fails; `detail` is the device's.
    pub fn failed_message(detail: &str) -> (message: String)
        ensures
            message@ == "device.poll returned error: "@ + detail@,
    {
        let mut out = String::new();
        out.append("device.poll returned error: ");
        out.append(detail);
        assert(out@ =~= "device.poll returned error: "@ + detail@);
        out
    }
}

/// Something that happens during a wait.
pub enum WaitEvent {
    /// The device says that the submitted work is done.
    Callback,
    /// The device was polled.
    Polled(DevicePoll),
}

impl WaitEvent {
    /// The wait is over with this event: the work is done, or polling failed.
    pub open spec fn ends_wait(self) -> bool {
        match self {
            WaitEvent::Callback => true,
            WaitEvent::Polled(outcome) => outcome != DevicePoll::Unfinished,
        }
    }

    /// The event says that the work is done.
    pub open spec fn work_done(self) -> bool {
        match self {
            WaitEvent::Callback => true,
            WaitEvent::Polled(outcome) => outcome == DevicePoll::Finished,
        }
    }
}

/// A wait for the queue to drain. Completion is signalled once, by the device's callback or by the
/// poll that first sees it.
#[derive(Clone, Copy, Debug, PartialEq, Eq, Structural)]
pub struct QueueWait {
    /// Polls so far.
    pub polls: u64,
    /// Completion was seen.
    pub callback_fired: bool,
    /// Completion was signalled.
    pub sender_taken: bool,
}

impl QueueWait {
    /// Completion that was seen has been signalled.
    pub open spec fn wf(self) -> bool {
        self.callback_fired ==> self.sender_taken
    }

    /// The wait after the device's callback.
    pub open spec fn after_callback(self) -> QueueWait {
        QueueWait { callback_fired: true, sender_taken: true, ..self }
    }

    /// The wait after a poll of the device.
    pub open spec fn after_poll(self, outcome: DevicePoll) -> QueueWait {
        QueueWait {
            polls: (self.polls + 1) as u64,
            callback_fired: self.callback_fired || outcome == DevicePoll::Finished,
            sender_taken: self.sender_taken || outcome != DevicePoll::Unfinished,
        }
    }

    /// The wait after an event.
    pub open spec fn after(self, event: WaitEvent) -> QueueWait {
        match event {
            WaitEvent::Callback => self.after_callback(),
            WaitEvent::Polled(outcome) => self.after_poll(outcome),
        }
    }

    /// The event asks for completion to be signalled now.
    pub open spec fn signals_on(self, event: WaitEvent) -> bool {
        event.ends_wait() && !self.sender_taken
    }

    /// How often completion is signalled over a run of events.
    pub open spec fn signals(self, events: Seq<WaitEvent>) -> nat
        decreases events.len(),
    {
        if events.len() == 0 {
            0
        } else {
            let first: nat = if self.signals_on(events[0]) {
                1
            } else {
                0
            };
            first + self.after(events[0]).signals(events.drop_first())
        }
    }

    /// Over any run of events completion is signalled at most once: not again once it was, and
    /// else just when some event ends the wait.
    pub proof fn lemma_signalled_once(self, events: Seq<WaitEvent>)
        ensures
            self.sender_taken ==> self.signals(events) == 0,
            !self.sender_taken ==> self.signals(events) == (if exists|i: int|
                0 <= i < events.len() && (#[trigger] events[i]).ends_wait() {
                1nat
            } else {
                0nat
            }),
        decreases events.len(),
    {
        if events.len() > 0 {
            let rest = events.drop_first();
            self.after(events[0]).lemma_signalled_once(rest);
            if !self.sender_taken && !events[0].ends_wait() {
                if exists|i: int| 0 <= i < events.len() && (#[trigger] events[i]).ends_wait() {
                    let i = choose|i: int|
                        0 <= i < events.len() && (#[trigger] events[i]).ends_wait();
                    assert(rest[i - 1] == events[i]);
                }
                if exists|i: int| 0 <= i < rest.len() && (#[trigger] rest[i]).ends_wait() {
                    let i = choose|i: int|
                        0 <= i < rest.len() && (#[trigger] rest[i]).ends_wait();
                    assert(events[i + 1] == rest[i]);
                }
            }
        }
    }

    /// The wait after a run of events.
    pub open spec fn after_all(self, events: Seq<WaitEvent>) -> QueueWait
        decreases events.len(),
    {
        if events.len() == 0 {
            self
        } else {
            self.after(events[0]).after_all(events.drop_first())
        }
    }

    /// Completion counts as seen after a run of events just where it was before, or some event
    /// says that the work is done.
    pub proof fn lemma_seen_when_done(self, events: Seq<WaitEvent>)
        ensures
            self.after_all(events).callback_fired <==> self.callback_fired || exists|i: int|
                0 <= i < events.len() && (#[trigger] events[i]).work_done(),
        decreases events.len(),
    {
        if events.len() > 0 {
            let rest = events.drop_first();
            self.after(events[0]).lemma_seen_when_done(rest);
            if exists|i: int| 0 <= i < events.len() && (#[trigger] events[i]).work_done() {
                let i = choose|i: int| 0 <= i < events.len() && (#[trigger] events[i]).work_done();
                if i > 0 {
                    assert(rest[i - 1] == events[i]);
                }
            }
            if exists|i: int| 0 <= i < rest.len() && (#[trigger] rest[i]).work_done() {
                let i = choose|i: int| 0 <= i < rest.len() && (#[trigger] rest[i]).work_done();
                assert(events[i + 1] == rest[i]);
            }
        }
    }

    /// A wait in which no poll fails ends only once the work is done: where completion was
    /// signalled, some event was the device's callback or a poll that found the work done.
    pub proof fn lemma_signal_means_done(self, events: Seq<WaitEvent>)
        requires
            !self.sender_taken,
            forall|i: int|
                0 <= i < events.len() ==> #[trigger] events[i] != WaitEvent::Polled(
                    DevicePoll::Failed,
                ),
        ensures
            self.signals(events) > 0 <==> exists|i: int|
                0 <= i < events.len() && (#[trigger] events[i]).work_done(),
            self.signals(events) > 0 ==> self.after_all(events).callback_fired,
    {
        self.lemma_signalled_once(events);
        self.lemma_seen_when_done(events);
        if exists|i: int| 0 <= i < events.len() && (#[trigger] events[i]).ends_wait() {
            let i = choose|i: int| 0 <= i < events.len() && (#[trigger] events[i]).ends_wait();
            assert(events[i] != WaitEvent::Polled(DevicePoll::Failed));
            assert(events[i].work_done());
        }
        if exists|i: int| 0 <= i < events.len() && (#[trigger] events[i]).work_done() {
            let i = choose|i: int| 0 <= i < events.len() && (#[trigger] events[i]).work_done();
            assert(events[i].ends_wait());
        }
    }

    /// Completion is signalled, where it was not yet, on the device's callback, on a poll that
    /// finds the work done and on a poll that fails; and on nothing else.
    pub proof fn lemma_when_signalled(self)
        ensures
            self.signals_on(WaitEvent::Callback) == !self.sender_taken,
            self.signals_on(WaitEvent::Polled(DevicePoll::Finished)) == !self.sender_taken,
            self.signals_on(WaitEvent::Polled(DevicePoll::Failed)) == !self.sender_taken,
            !self.signals_on(WaitEvent::Polled(DevicePoll::Unfinished)),
    {
    }

    /// Completion counts as seen on the device's callback and on a poll that finds the work done,
    /// and as signalled on those and on a poll that fails. A poll that finds work left changes
    /// neither.
    pub proof fn lemma_what_is_seen(self)
        ensures
            self.after(WaitEvent::Callback).callback_fired,
            self.after(WaitEvent::Callback).sender_taken,
            self.after(WaitEvent::Polled(DevicePoll::Finished)).callback_fired,
            self.after(WaitEvent::Polled(DevicePoll::Finished)).sender_taken,
            self.after(WaitEvent::Polled(DevicePoll::Failed)).callback_fired == self.callback_fired,
            self.after(WaitEvent::Polled(DevicePoll::Failed)).sender_taken,
            self.after(WaitEvent::Polled(DevicePoll::Unfinished)).callback_fired
                == self.callback_fired,
            self.after(WaitEvent::Polled(DevicePoll::Unfinished)).sender_taken
                == self.sender_taken,
    {
    }

    /// Each poll of the device counts as one, and nothing else counts.
    pub proof fn lemma_polls_counted(self, outcome: DevicePoll)
        requires
            self.polls < u64::MAX,
        ensures
            self.after(WaitEvent::Polled(outcome)).polls == self.polls + 1,
            self.after(WaitEvent::Callback).polls == self.polls,
    {
    }

    /// A wait that has just begun.
    pub fn new() -> (wait: QueueWait)
        ensures
            wait == (QueueWait { polls: 0, callback_fired: false, sender_taken: false }),
            wait.wf(),
    {
        QueueWait { polls: 0, callback_fired: false, sender_taken: false }
    }

    /// How to poll: for the last submission, where there is one.
    pub fn poll_kind(has_submission: bool) -> (kind: PollKind)
        ensures
            kind == if has_submission {
                PollKind::WaitForSubmission
            } else {
                PollKind::Poll
            },
    {
        if has_submission {
            PollKind::WaitForSubmission
        } else {
            PollKind::Poll
        }
    }

    /// The device says that the submitted work is done. Returns whether to signal completion.
    pub fn on_callback(&mut self) -> (signal: bool)
        requires
            old(self).wf(),
        ensures
            final(self).wf(),
            signal == old(self).signals_on(WaitEvent::Callback),
            *final(self) == old(self).after_callback(),
    {
        let signal = !self.sender_taken;
        self.callback_fired = true;
        self.sender_taken = true;
        signal
    }

    /// Takes in the outcome of a poll of the device.
    pub fn on_device_poll(&mut self, outcome: DevicePoll) -> (reaction: PollReaction)
        requires
            old(self).wf(),
            old(self).polls < u64::MAX,
        ensures
            final(self).wf(),
            *final(self) == old(self).after_poll(outcome),
            reaction.signal == old(self).signals_on(WaitEvent::Polled(outcome)),
            reaction.observed == (outcome == DevicePoll::Finished && !old(self).callback_fired),
            reaction.failed == (outcome == DevicePoll::Failed),
            reaction.log_status == (final(self).polls == 1 || final(self).polls % 500 == 0),
    {
        self.polls = self.polls + 1;
        let log_status = self.polls == 1 || self.polls % 500 == 0;
        match outcome {
            DevicePoll::Finished => {
                let already = self.callback_fired;
                self.callback_fired = true;
                let mut signal = false;
                if !already {
                    signal = !self.sender_taken;
                    self.sender_taken = true;
                }
                PollReaction { signal, observed: !already, failed: false, log_status }
            },
            DevicePoll::Failed => {
                let signal = !self.sender_taken;
                self.sender_taken = true;
                PollReaction { signal, observed: false, failed: true, log_status }
            },
            DevicePoll::Unfinished => PollReaction {
                signal: false,
                observed: false,
                failed: false,
                log_status,
            },
        }
    }

    /// Takes in the state of the completion signal.
    pub fn on_signal_poll(&self, outcome: SignalPoll) -> (verdict: WaitVerdict)
        ensures
            verdict == match outcome {
                SignalPoll::Signalled => WaitVerdict::Done,
                SignalPoll::Dropped => WaitVerdict::ReceiverDropped,
                SignalPoll::Pending => WaitVerdict::Pending { log: self.polls % 2000 == 0 },
            },
    {
        match outcome {
            SignalPoll::Signalled => WaitVerdict::Done,
            SignalPoll::Dropped => WaitVerdict::ReceiverDropped,
            SignalPoll::Pending => WaitVerdict::Pending { log: self.polls % 2000 == 0 },
        }
    }
}

} // verus!
