//! The work of a refresh, laid out for the caller to perform.
use crate::command::{Chip, Command};
use vstd::prelude::*;

verus! {

/// One thing to do on the panel's interface.
#[derive(Debug, PartialEq, Eq)]
pub enum Step {
    /// Pulse the hardware reset line.
    Reset,
    /// Wait until the controller is no longer busy.
    BusyWait,
    /// Send a command.
    Execute(Command),
    /// Send a command to one controller of a cascaded panel.
    ExecuteOn(Chip, Command),
    /// Send data bytes.
    Data(Vec<u8>),
    /// Let this many milliseconds pass.
    DelayMs(u32),
}

/// What a [`Step`] does, with the data as a sequence of bytes.
pub enum Effect {
    Reset,
    BusyWait,
    Execute(Command),
    ExecuteOn(Chip, Command),
    Data(Seq<u8>),
    DelayMs(u32),
}

impl View for Step {
    type V = Effect;

    open spec fn view(&self) -> Effect {
        match *self {
            Step::Reset => Effect::Reset,
            Step::BusyWait => Effect::BusyWait,
            Step::Execute(command) => Effect::Execute(command),
            Step::ExecuteOn(chip, command) => Effect::ExecuteOn(chip, command),
            Step::Data(bytes) => Effect::Data(bytes@),
            Step::DelayMs(ms) => Effect::DelayMs(ms),
        }
    }
}

/// Steps in the order in which they are to be performed. A step that fails ends
/// the script: those after it are not performed.
#[derive(Debug, PartialEq, Eq)]
pub struct Script {
    pub steps: Vec<Step>,
}

impl View for Script {
    type V = Seq<Effect>;

    open spec fn view(&self) -> Seq<Effect> {
        self.steps@.map_values(|step: Step| step@)
    }
}

impl Script {
    /// A script without steps.
    pub fn new() -> (r: Self)
        ensures
            r@ == Seq::<Effect>::empty(),
    {
        let r = Script { steps: Vec::new() };
        assert(r@ =~= Seq::<Effect>::empty());
        r
    }

    /// Adds a step at the end.
    pub fn push(&mut self, step: Step)
        ensures
            final(self)@ == old(self)@.push(step@),
    {
        self.steps.push(step);
        assert(self@ =~= old(self)@.push(step@));
    }
}

} // verus!
