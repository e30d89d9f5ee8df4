//! How the viewer is handed the terminal that `direnv` writes to.

use vstd::prelude::*;

verus! {

/// One thing to do. Each but the last ones is answered with yes or no.
#[derive(Debug, Clone, Copy, PartialEq, Eq, Structural)]
pub enum PtyStep {
    /// Connect to the background process. Did it work?
    Connect,
    /// Send the request. Did it work?
    Send,
    /// Wait for the reply. Did it come in time?
    AwaitReply,
    /// Receive the reply. Did it work?
    Receive,
    /// Take the descriptor from the reply, if there is one. Last step.
    TakeDescriptor,
    /// There is none. Last step.
    GiveUp,
}

impl PtyStep {
    /// The step that follows, where `yes` is the answer.
    pub open spec fn successor(self, yes: bool) -> Option<PtyStep> {
        match self {
            PtyStep::TakeDescriptor => None,
            PtyStep::GiveUp => None,
            _ => Some(
                if !yes {
                    PtyStep::GiveUp
                } else if self is Connect {
                    PtyStep::Send
                } else if self is Send {
                    PtyStep::AwaitReply
                } else if self is AwaitReply {
                    PtyStep::Receive
                } else {
                    PtyStep::TakeDescriptor
                },
            ),
        }
    }

    /// The first step.
    pub fn first() -> (step: Self)
        ensures
            step == PtyStep::Connect,
    {
        PtyStep::Connect
    }

    /// The step that follows, where `yes` is the answer.
    pub fn next(self, yes: bool) -> (step: Option<Self>)
        ensures
            step == self.successor(yes),
    {
        let onward = match self {
            PtyStep::Connect => PtyStep::Send,
            PtyStep::Send => PtyStep::AwaitReply,
            PtyStep::AwaitReply => PtyStep::Receive,
            PtyStep::Receive => PtyStep::TakeDescriptor,
            PtyStep::TakeDescriptor => {
                return None;
            },
            PtyStep::GiveUp => {
                return None;
            },
        };
        if yes {
            Some(onward)
        } else {
            Some(PtyStep::GiveUp)
        }
    }
}

/// How many steps can still follow.
pub open spec fn steps_left(step: PtyStep) -> nat {
    match step {
        PtyStep::Connect => 4,
        PtyStep::Send => 3,
        PtyStep::AwaitReply => 2,
        PtyStep::Receive => 1,
        _ => 0,
    }
}

/// The last step of a request that has come to `step`, where `answers` gives the
/// answers.
pub open spec fn last_step(step: PtyStep, answers: spec_fn(PtyStep) -> bool) -> PtyStep
    decreases steps_left(step),
{
    match step.successor(answers(step)) {
        Some(next) => last_step(next, answers),
        None => step,
    }
}

/// A descriptor is looked for only if everything before has worked; otherwise the
/// request is given up.
pub proof fn law_request_needs_every_step(answers: spec_fn(PtyStep) -> bool)
    ensures
        last_step(PtyStep::Connect, answers) == (if answers(PtyStep::Connect) && answers(
            PtyStep::Send,
        ) && answers(PtyStep::AwaitReply) && answers(PtyStep::Receive) {
            PtyStep::TakeDescriptor
        } else {
            PtyStep::GiveUp
        }),
{
    reveal_with_fuel(last_step, 6);
}

/// What the background process is sent: the word `WATCH` on a line.
pub fn watch_request() -> (bytes: Vec<u8>)
    ensures
        bytes@ == vstd::utf8::encode_utf8("WATCH\n"@),
{
    "WATCH\n".as_bytes_vec()
}

/// A control message that came with the reply.
#[derive(Debug)]
pub enum ControlMsg {
    /// Descriptors are passed.
    Rights(Vec<i32>),
    /// Something else.
    Other,
}

/// A message that passes at least one descriptor.
pub open spec fn passes(msg: ControlMsg) -> bool {
    msg matches ControlMsg::Rights(fds) && fds@.len() > 0
}

/// The first descriptor that is passed: that of the first message that passes one.
pub fn first_passed_fd(msgs: &Vec<ControlMsg>) -> (fd: Option<i32>)
    ensures
        fd is None <==> forall|i: int| 0 <= i < msgs@.len() ==> !passes(#[trigger] msgs@[i]),
        fd matches Some(passed) ==> exists|i: int|
            {
                &&& 0 <= i < msgs@.len()
                &&& passes(#[trigger] msgs@[i])
                &&& msgs@[i]->Rights_0@[0] == passed
                &&& forall|k: int| 0 <= k < i ==> !passes(#[trigger] msgs@[k])
            },
{
    let mut i: usize = 0;
    while i < msgs.len()
        invariant
            i <= msgs@.len(),
            forall|k: int| 0 <= k < i ==> !passes(#[trigger] msgs@[k]),
        decreases msgs@.len() - i,
    {
        if let ControlMsg::Rights(fds) = &msgs[i] {
            if fds.len() > 0 {
                assert(passes(msgs@[i as int]));
                return Some(fds[0]);
            }
        }
        i = i + 1;
    }
    None
}

/// A request goes on in this order as long as each step works: connect, send, wait,
/// receive, take the descriptor. What does not work has it given up, at once.
pub proof fn law_request_goes_in_order(
    step: PtyStep,
    yes: bool,
    first: PtyStep,
    next: Option<PtyStep>,
)
    requires
        call_ensures(PtyStep::first, (), first),
        call_ensures(PtyStep::next, (step, yes), next),
    ensures
        first == PtyStep::Connect,
        next is None <==> step == PtyStep::TakeDescriptor || step == PtyStep::GiveUp,
        next is Some && !yes ==> next == Some(PtyStep::GiveUp),
        yes && step == PtyStep::Connect ==> next == Some(PtyStep::Send),
        yes && step == PtyStep::Send ==> next == Some(PtyStep::AwaitReply),
        yes && step == PtyStep::AwaitReply ==> next == Some(PtyStep::Receive),
        yes && step == PtyStep::Receive ==> next == Some(PtyStep::TakeDescriptor),
{
}

/// The request is five letters and a line feed.
pub proof fn law_request_is_a_line(bytes: Vec<u8>)
    requires
        call_ensures(watch_request, (), bytes),
    ensures
        bytes@ == seq![0x57u8, 0x41, 0x54, 0x43, 0x48, 0x0a],
{
    reveal_strlit("WATCH\n");
    let text = "WATCH\n"@;
    assert(vstd::utf8::is_ascii_chars(text));
    vstd::utf8::is_ascii_chars_encode_utf8(text);
    assert(bytes@ =~= seq![0x57u8, 0x41, 0x54, 0x43, 0x48, 0x0a]);
}

/// The descriptor is the first one of the first message that passes any; messages
/// that pass none, and those of another kind, are gone over. There is none exactly if
/// no message passes one.
pub proof fn law_first_descriptor_is_taken(msgs: &Vec<ControlMsg>, fd: Option<i32>, i: int)
    requires
        call_ensures(first_passed_fd, (msgs,), fd),
        0 <= i < msgs@.len(),
        msgs@[i] matches ControlMsg::Rights(fds) && fds@.len() > 0,
        forall|k: int|
            0 <= k < i ==> (#[trigger] msgs@[k] is Other || msgs@[k]->Rights_0@.len() == 0),
    ensures
        fd == Some(msgs@[i]->Rights_0@[0]),
{
    assert(passes(msgs@[i]));
    assert forall|k: int| 0 <= k < i implies !passes(#[trigger] msgs@[k]) by {
        assert(msgs@[k] is Other || msgs@[k]->Rights_0@.len() == 0);
    }
}

/// Without a message that passes a descriptor there is none.
pub proof fn law_no_descriptor_is_made_up(msgs: &Vec<ControlMsg>, fd: Option<i32>)
    requires
        call_ensures(first_passed_fd, (msgs,), fd),
        forall|k: int|
            0 <= k < msgs@.len() ==> (#[trigger] msgs@[k] is Other || msgs@[k]->Rights_0@.len()
                == 0),
    ensures
        fd is None,
{
    assert forall|k: int| 0 <= k < msgs@.len() implies !passes(#[trigger] msgs@[k]) by {
        assert(msgs@[k] is Other || msgs@[k]->Rights_0@.len() == 0);
    }
}

} // verus!
