//! The request dispatcher: a machine with two states that pairs every
//! request it processes with one response.
//!
//! The dispatcher does no device access of its own. For each request it
//! names the one [`Action`] that the server has to perform, and the outcome
//! of that action is turned into the response by [`answer_enumeration`] or
//! [`answer_probe`]. A shutdown request is not answered: the dispatcher
//! terminates and the server stops reading. Once terminated, the dispatcher
//! refuses every request.
use vstd::prelude::*;
use vstd::string::StringExecFns;
use crate::schema::{BlockDevice, Request, RequestView, Response, ResponseView, Superblock};
use crate::source::{device_views, Device, DeviceView, ProbedSuperblock, ProbedSuperblockView};
use crate::translate::{block_device_of, block_devices_of, superblock_of};

verus! {

/// The state of a dispatcher.
#[derive(Debug, Clone, Copy, PartialEq, Eq, Structural)]
pub enum DispatcherState {
    /// Waiting for the next request.
    Ready,
    /// Shut down. No further request is processed.
    Terminated,
}

/// What the server has to do for a request.
#[derive(Debug, Clone, PartialEq, Eq)]
pub enum Action {
    /// Enumerate all devices and answer with [`answer_enumeration`].
    Enumerate,
    /// Probe the superblock at the path and answer with [`answer_probe`].
    Probe(String),
    /// Stop reading requests. Nothing is answered.
    Halt,
    /// The dispatcher has terminated and the request is not processed.
    /// Nothing is answered.
    Refuse,
}

/// View of an [`Action`].
pub enum ActionView {
    Enumerate,
    Probe(Seq<char>),
    Halt,
    Refuse,
}

impl View for Action {
    type V = ActionView;

    open spec fn view(&self) -> ActionView {
        match *self {
            Action::Enumerate => ActionView::Enumerate,
            Action::Probe(path) => ActionView::Probe(path@),
            Action::Halt => ActionView::Halt,
            Action::Refuse => ActionView::Refuse,
        }
    }
}

impl ActionView {
    /// The action ends in a response.
    pub open spec fn is_answered(self) -> bool {
        self is Enumerate || self is Probe
    }
}

/// The state after a request.
pub open spec fn next_state(state: DispatcherState, request: RequestView) -> DispatcherState {
    match state {
        DispatcherState::Terminated => DispatcherState::Terminated,
        DispatcherState::Ready => match request {
            RequestView::Shutdown => DispatcherState::Terminated,
            _ => DispatcherState::Ready,
        },
    }
}

/// The action for a request.
pub open spec fn action_for(state: DispatcherState, request: RequestView) -> ActionView {
    match state {
        DispatcherState::Terminated => ActionView::Refuse,
        DispatcherState::Ready => match request {
            RequestView::GetBlockDevices => ActionView::Enumerate,
            RequestView::GetSuperblock(path) => ActionView::Probe(path),
            RequestView::Shutdown => ActionView::Halt,
        },
    }
}

/// The state after a queue of requests, taken in order.
pub open spec fn state_after(state: DispatcherState, requests: Seq<RequestView>)
    -> DispatcherState
    decreases requests.len(),
{
    if requests.len() == 0 {
        state
    } else {
        next_state(state_after(state, requests.drop_last()), requests.last())
    }
}

/// The action for the request at position `i` of a queue that is taken in
/// order from `state`.
pub open spec fn action_at(state: DispatcherState, requests: Seq<RequestView>, i: int)
    -> ActionView
    recommends
        0 <= i < requests.len(),
{
    action_for(state_after(state, requests.take(i)), requests[i])
}

/// The message that reports a failed probe: the path, a colon and a space,
/// and the reason.
pub open spec fn failure_message(path: Seq<char>, reason: Seq<char>) -> Seq<char> {
    path + ": "@ + reason
}

/// The response to an enumeration that found `devices`.
pub open spec fn enumeration_answer(devices: Seq<DeviceView>) -> ResponseView {
    ResponseView::BlockDevices(block_devices_of(devices))
}

/// View of the outcome of a probe: the superblock, or the reason of the
/// failure.
pub open spec fn outcome_view(outcome: Result<ProbedSuperblock, String>) -> Result<
    ProbedSuperblockView,
    Seq<char>,
> {
    match outcome {
        Ok(probed) => Ok(probed@),
        Err(reason) => Err(reason@),
    }
}

/// The response to a probe of `path` that ended in `outcome`.
pub open spec fn probe_answer(path: Seq<char>, outcome: Result<ProbedSuperblockView, Seq<char>>)
    -> ResponseView {
    match outcome {
        Ok(probed) => ResponseView::Superblock(superblock_of(probed)),
        Err(reason) => ResponseView::Error(failure_message(path, reason)),
    }
}

/// A request dispatcher.
#[derive(Debug)]
pub struct Dispatcher {
    state: DispatcherState,
}

impl View for Dispatcher {
    type V = DispatcherState;

    closed spec fn view(&self) -> DispatcherState {
        self.state
    }
}

impl Dispatcher {
    /// A dispatcher that is ready for its first request.
    pub fn new() -> (out: Dispatcher)
        ensures
            out@ == DispatcherState::Ready,
    {
        Dispatcher { state: DispatcherState::Ready }
    }

    /// The current state.
    pub fn state(&self) -> (out: DispatcherState)
        ensures
            out == self@,
    {
        self.state
    }

    /// Whether the dispatcher has shut down.
    pub fn is_terminated(&self) -> (out: bool)
        ensures
            out == (self@ == DispatcherState::Terminated),
    {
        self.state == DispatcherState::Terminated
    }

    /// Takes one request and names what the server has to do for it.
    pub fn accept(&mut self, request: Request) -> (out: Action)
        ensures
            out@ == action_for(old(self)@, request@),
            final(self)@ == next_state(old(self)@, request@),
    {
        match self.state {
            DispatcherState::Terminated => Action::Refuse,
            DispatcherState::Ready => match request {
                Request::GetBlockDevices => Action::Enumerate,
                Request::GetSuperblock(path) => Action::Probe(path),
                Request::Shutdown => {
                    self.state = DispatcherState::Terminated;
                    Action::Halt
                },
            },
        }
    }
}

impl Default for Dispatcher {
    /// A dispatcher that is ready for its first request.
    fn default() -> (out: Dispatcher)
        ensures
            out@ == DispatcherState::Ready,
    {
        Dispatcher::new()
    }
}

/// The response to an enumeration: every device mapped, in order.
pub fn answer_enumeration(devices: &Vec<Device>) -> (out: Response)
    ensures
        out@ == enumeration_answer(device_views(devices@)),
        out is BlockDevices,
        out->BlockDevices_0@.len() == devices@.len(),
        forall|i: int|
            0 <= i < devices@.len() ==> (#[trigger] out->BlockDevices_0@[i])@ == block_device_of(
                devices@[i]@,
            ),
{
    Response::BlockDevices(BlockDevice::from_devices(devices))
}

/// The response to a probe: the superblock mapped where the probe found one,
/// else an error whose message names the path and the reason and is never
/// empty.
pub fn answer_probe(path: &String, outcome: Result<ProbedSuperblock, String>) -> (out: Response)
    ensures
        out@ == probe_answer(path@, outcome_view(outcome)),
        outcome is Ok ==> out is Superblock,
        outcome is Err ==> out is Error && out->Error_0@.len() > 0,
{
    match outcome {
        Ok(probed) => Response::Superblock(Superblock::from_probe(probed)),
        Err(reason) => {
            let mut message = path.clone();
            message.append(": ");
            message.append(reason.as_str());
            proof {
                reveal_strlit(": ");
            }
            Response::Error(message)
        },
    }
}

/// A dispatcher that has terminated stays terminated and refuses every
/// request of any queue.
pub proof fn lemma_terminated_is_absorbing(requests: Seq<RequestView>)
    ensures
        state_after(DispatcherState::Terminated, requests) == DispatcherState::Terminated,
        forall|i: int|
            0 <= i < requests.len() ==> #[trigger] action_at(
                DispatcherState::Terminated,
                requests,
                i,
            ) == ActionView::Refuse,
    decreases requests.len(),
{
    if requests.len() > 0 {
        lemma_terminated_is_absorbing(requests.drop_last());
    }
    assert forall|i: int| 0 <= i < requests.len() implies #[trigger] action_at(
        DispatcherState::Terminated,
        requests,
        i,
    ) == ActionView::Refuse by {
        lemma_terminated_is_absorbing(requests.take(i));
    }
}

/// Once a shutdown request has been processed, the dispatcher is terminated
/// after every longer prefix of the queue.
pub proof fn lemma_terminated_after_shutdown(
    state: DispatcherState,
    requests: Seq<RequestView>,
    i: int,
)
    requires
        0 <= i < requests.len(),
        requests[i] == RequestView::Shutdown,
    ensures
        state_after(state, requests) == DispatcherState::Terminated,
    decreases requests.len(),
{
    if i == requests.len() - 1 {
    } else {
        lemma_terminated_after_shutdown(state, requests.drop_last(), i);
    }
}

/// Once a shutdown request has been processed, no later request of the
/// queue is processed, however many follow: each of them is refused and
/// none is answered.
pub proof fn lemma_nothing_after_shutdown(
    state: DispatcherState,
    requests: Seq<RequestView>,
    i: int,
    j: int,
)
    requires
        0 <= i < j < requests.len(),
        requests[i] == RequestView::Shutdown,
    ensures
        action_at(state, requests, j) == ActionView::Refuse,
        !action_at(state, requests, j).is_answered(),
        state_after(state, requests) == DispatcherState::Terminated,
{
    lemma_terminated_after_shutdown(state, requests.take(j), i);
    lemma_terminated_after_shutdown(state, requests, i);
}

/// Until a shutdown request arrives, a ready dispatcher stays ready and
/// every request is answered: device queries by an enumeration, superblock
/// queries by a probe of the path that was asked for.
pub proof fn lemma_ready_until_shutdown(requests: Seq<RequestView>, j: int)
    requires
        0 <= j < requests.len(),
        forall|i: int| 0 <= i < j ==> requests[i] != RequestView::Shutdown,
    ensures
        state_after(DispatcherState::Ready, requests.take(j)) == DispatcherState::Ready,
        requests[j] != RequestView::Shutdown ==> action_at(
            DispatcherState::Ready,
            requests,
            j,
        ).is_answered(),
    decreases j,
{
    if j > 0 {
        lemma_ready_until_shutdown(requests, j - 1);
        assert(requests.take(j).drop_last() =~= requests.take(j - 1));
    }
}

/// The message of a failed probe is never empty.
pub proof fn lemma_failure_message_not_empty(path: Seq<char>, reason: Seq<char>)
    ensures
        failure_message(path, reason).len() == path.len() + 2 + reason.len(),
{
    reveal_strlit(": ");
}

} // verus!
