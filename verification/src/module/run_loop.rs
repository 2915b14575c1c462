//! The decisions of a running module's main loop: what to do with each
//! thing that arrives from the node. Waiting for those things, and doing
//! what is decided, is the caller's part.

use vstd::prelude::*;

verus! {

/// What the main loop of a connected module receives next.
#[derive(Debug, Clone, Copy, PartialEq, Eq, Structural)]
pub enum LoopInput {
    /// A message from the node that carries an event.
    EventMessage,
    /// A message from the node that carries no event, or a failed receive.
    OtherMessage,
    /// An invocation (CLI or RPC) with its reply channel.
    Invocation,
    /// The invocation channel closed: the node unloads the module.
    InvocationsClosed,
    /// The periodic timer elapsed.
    Timer,
}

/// What the main loop does with it.
#[derive(Debug, Clone, Copy, PartialEq, Eq, Structural)]
pub enum LoopStep {
    /// Pass the event to the event handler; its result is not awaited on.
    HandleEvent,
    /// Nothing to do.
    Ignore,
    /// Dispatch the invocation and send back its result.
    Dispatch,
    /// Leave the loop: the module is unloading.
    Unload,
    /// Run the periodic callback, where there is one, and log that the
    /// module runs.
    Tick,
}

/// The step for an input: events are handled, other messages ignored,
/// invocations dispatched, a closed invocation channel ends the loop and
/// the timer ticks.
pub open spec fn step_for(input: LoopInput) -> LoopStep {
    match input {
        LoopInput::EventMessage => LoopStep::HandleEvent,
        LoopInput::OtherMessage => LoopStep::Ignore,
        LoopInput::Invocation => LoopStep::Dispatch,
        LoopInput::InvocationsClosed => LoopStep::Unload,
        LoopInput::Timer => LoopStep::Tick,
    }
}

/// Every message from the node that carries an event goes to the event
/// handler, and nothing else does; only messages without an event are
/// ignored; and no two kinds of input lead to the same step.
pub proof fn lemma_loop_steps(a: LoopInput, b: LoopInput)
    ensures
        (step_for(a) == LoopStep::HandleEvent) <==> (a == LoopInput::EventMessage),
        (step_for(a) == LoopStep::Ignore) <==> (a == LoopInput::OtherMessage),
        (step_for(a) == LoopStep::Dispatch) <==> (a == LoopInput::Invocation),
        (step_for(a) == LoopStep::Unload) <==> (a == LoopInput::InvocationsClosed),
        (step_for(a) == LoopStep::Tick) <==> (a == LoopInput::Timer),
        step_for(a) == step_for(b) ==> a == b,
{
}

/// The step for an input.
pub fn loop_step(input: LoopInput) -> (r: LoopStep)
    ensures
        r == step_for(input),
{
    match input {
        LoopInput::EventMessage => LoopStep::HandleEvent,
        LoopInput::OtherMessage => LoopStep::Ignore,
        LoopInput::Invocation => LoopStep::Dispatch,
        LoopInput::InvocationsClosed => LoopStep::Unload,
        LoopInput::Timer => LoopStep::Tick,
    }
}

/// What starting a module does after connecting: register each RPC
/// method in order, then subscribe to the events, then run the setup
/// callback where there is one, then loop. A failure at any of these ends
/// the run with that failure.
#[derive(Debug, Clone, Copy, PartialEq, Eq, Structural)]
pub enum StartupStep {
    RegisterMethod(usize),
    Subscribe,
    Setup,
    Loop,
}

/// The startup step after `done` steps, with `methods` RPC methods.
pub open spec fn startup_step_at(done: nat, methods: nat, has_setup: bool) -> StartupStep {
    if done < methods {
        StartupStep::RegisterMethod(done as usize)
    } else if done == methods {
        StartupStep::Subscribe
    } else if done == methods + 1 && has_setup {
        StartupStep::Setup
    } else {
        StartupStep::Loop
    }
}

/// The startup step after `done` steps have succeeded.
pub fn startup_step(done: usize, methods: usize, has_setup: bool) -> (r: StartupStep)
    requires
        methods < usize::MAX,
    ensures
        r == startup_step_at(done as nat, methods as nat, has_setup),
{
    if done < methods {
        StartupStep::RegisterMethod(done)
    } else if done == methods {
        StartupStep::Subscribe
    } else if done == methods + 1 && has_setup {
        StartupStep::Setup
    } else {
        StartupStep::Loop
    }
}

} // verus!
