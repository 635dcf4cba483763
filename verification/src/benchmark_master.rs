//! Where the benchmark master stands between check-in and shutdown.

use vstd::prelude::*;

verus! {

/// The phases of the benchmark master.
#[allow(non_camel_case_types)]
#[derive(Clone, Copy, Debug, PartialEq, Eq, Structural)]
pub enum State {
    /// Clients are checking in.
    INIT,
    /// Every client has checked in; a benchmark can be asked for.
    READY,
    SETUP,
    RUN,
    CLEANUP,
    FINISHED,
    STOPPED,
}

/// Why the state was not changed.
#[derive(Clone, Copy, Debug, PartialEq, Eq, Structural)]
pub enum StateError {
    /// The state was `from`, where `expected` was required to go on to `to`.
    InvalidTransition { from: State, to: State, expected: State },
}

/// Holds the state of the benchmark master. There is one holder for one
/// master: whoever is to see the state shares this holder.
#[derive(Debug)]
pub struct StateHolder(pub State);

impl View for StateHolder {
    type V = State;

    open spec fn view(&self) -> State {
        self.0
    }
}

impl StateHolder {
    /// A holder in the state `INIT`.
    pub fn init() -> (holder: StateHolder)
        ensures
            holder@ == State::INIT,
    {
        StateHolder(State::INIT)
    }

    /// Sets the state to `v`, whatever it was.
    pub fn assign(&mut self, v: State)
        ensures
            final(self)@ == v,
    {
        self.0 = v;
    }

    /// Sets the state to `new_value` if it is `old_value`, and refuses
    /// otherwise, leaving the state as it is and reporting what it is.
    pub fn cas(&mut self, old_value: State, new_value: State) -> (res: Result<(), StateError>)
        ensures
            old(self)@ == old_value ==> res == Ok::<(), StateError>(()) && final(self)@
                == new_value,
            old(self)@ != old_value ==> final(self)@ == old(self)@ && res == Err::<(), StateError>(
                StateError::InvalidTransition {
                    from: old(self)@,
                    to: new_value,
                    expected: old_value,
                },
            ),
    {
        if self.0 == old_value {
            self.0 = new_value;
            Ok(())
        } else {
            Err(StateError::InvalidTransition { from: self.0, to: new_value, expected: old_value })
        }
    }

    /// The state.
    pub fn get(&self) -> (state: State)
        ensures
            state == self@,
    {
        self.0
    }
}

} // verus!
