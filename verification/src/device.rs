//! The two I/O devices of an engine: where its input comes from and where its
//! output goes.
//!
//! A device either serves the request, or signals that the engine is to halt, or
//! (for input) fails. What a device does is a function of its model: the values
//! that it still holds or has taken, and what it does at its end.

use vstd::prelude::*;
use crate::fault::Fault;

verus! {

/// What an input device does once it has handed out all its values.
#[derive(Debug, Clone, Copy, PartialEq, Eq, Structural)]
pub enum Exhausted {
    /// It signals the engine to halt.
    Halt,
    /// It fails: the program asked for more than there is.
    Fail,
}

/// An input device, as the specifications see it.
pub struct InputModel {
    /// The values that it will hand out, next one first.
    pub pending: Seq<i64>,
    /// What it does after the last of them.
    pub at_end: Exhausted,
}

impl InputModel {
    /// What the device gives to the next request: a value, the signal to halt
    /// (`None`), or a failure.
    pub open spec fn answer(self) -> Result<Option<i64>, Fault> {
        if self.pending.len() > 0 {
            Ok(Some(self.pending[0]))
        } else {
            match self.at_end {
                Exhausted::Halt => Ok(None),
                Exhausted::Fail => Err(Fault::NoInput),
            }
        }
    }

    /// The device after one request. A request that it could not serve
    /// leaves it as it was.
    pub open spec fn advance(self) -> InputModel {
        if self.pending.len() > 0 {
            InputModel { pending: self.pending.drop_first(), at_end: self.at_end }
        } else {
            self
        }
    }
}

/// An output device, as the specifications see it.
pub struct OutputModel {
    /// The values that it has taken, oldest first.
    pub sent: Seq<i64>,
    /// How many more values it takes before it signals the engine to halt;
    /// `None` where it takes any number.
    pub room: Option<nat>,
}

impl OutputModel {
    /// Whether the device takes one more value.
    pub open spec fn accepts(self) -> bool {
        self.room != Some(0nat)
    }

    /// The device after it was offered `value`. A value that it did not take
    /// leaves it as it was.
    pub open spec fn advance(self, value: i64) -> OutputModel {
        match self.room {
            None => OutputModel { sent: self.sent.push(value), room: None },
            Some(n) => if n > 0 {
                OutputModel { sent: self.sent.push(value), room: Some((n - 1) as nat) }
            } else {
                self
            },
        }
    }
}

/// Where an engine gets its input from.
pub trait Input {
    /// What the device holds. Nothing is known of a device that does not say.
    open spec fn input_model(&self) -> InputModel {
        arbitrary()
    }

    /// Serves one request for input: a value, `None` to make the engine halt, or
    /// a failure.
    fn next_input(&mut self) -> (answer: Result<Option<i64>, Fault>)
        ensures
            answer == old(self).input_model().answer(),
            final(self).input_model() == old(self).input_model().advance(),
    ;
}

/// Where an engine sends its output to.
pub trait Output {
    /// What the device has taken, and how much more it takes. Nothing is known
    /// of a device that does not say.
    open spec fn output_model(&self) -> OutputModel {
        arbitrary()
    }

    /// Offers one value to the device: `Some` where it took the value, `None` to
    /// make the engine halt.
    fn send(&mut self, value: i64) -> (taken: Option<()>)
        ensures
            taken.is_some() == old(self).output_model().accepts(),
            final(self).output_model() == old(self).output_model().advance(value),
    ;
}

/// An input device that hands out the values of a list, first one first.
pub struct QueueInput {
    items: Vec<i64>,
    next: usize,
    at_end: Exhausted,
}

impl QueueInput {
    /// A device that hands out `values` and fails when asked for more.
    pub fn new(values: Vec<i64>) -> (queue: Self)
        ensures
            queue.input_model() == (InputModel { pending: values@, at_end: Exhausted::Fail }),
    {
        let queue = QueueInput { items: values, next: 0, at_end: Exhausted::Fail };
        assert(queue.items@.subrange(0, queue.items.len() as int) =~= values@);
        queue
    }

    /// A device that hands out `values` and signals the engine to halt when asked
    /// for more.
    pub fn halting(values: Vec<i64>) -> (queue: Self)
        ensures
            queue.input_model() == (InputModel { pending: values@, at_end: Exhausted::Halt }),
    {
        let queue = QueueInput { items: values, next: 0, at_end: Exhausted::Halt };
        assert(queue.items@.subrange(0, queue.items.len() as int) =~= values@);
        queue
    }

    /// Puts `value` behind the values that the device still holds.
    pub fn push(&mut self, value: i64)
        ensures
            final(self).input_model() == (InputModel {
                pending: old(self).input_model().pending.push(value),
                at_end: old(self).input_model().at_end,
            }),
    {
        if self.next > self.items.len() {
            self.next = self.items.len();
        }
        self.items.push(value);
        assert(self.input_model().pending =~= old(self).input_model().pending.push(value));
    }

    /// The value that the device hands out next, where it holds one.
    pub fn peek(&self) -> (value: Option<i64>)
        ensures
            value == if self.input_model().pending.len() > 0 {
                Some(self.input_model().pending[0])
            } else {
                None
            },
    {
        if self.next < self.items.len() {
            Some(self.items[self.next])
        } else {
            None
        }
    }

    /// The value that the device hands out after the next one, where it holds
    /// two.
    pub fn second(&self) -> (value: Option<i64>)
        ensures
            value == if self.input_model().pending.len() > 1 {
                Some(self.input_model().pending[1])
            } else {
                None
            },
    {
        if self.next < self.items.len() && self.items.len() - self.next > 1 {
            Some(self.items[self.next + 1])
        } else {
            None
        }
    }

    /// How many values the device still holds.
    pub fn remaining(&self) -> (n: usize)
        ensures
            n == self.input_model().pending.len(),
    {
        if self.next <= self.items.len() {
            self.items.len() - self.next
        } else {
            0
        }
    }
}

impl Input for QueueInput {
    closed spec fn input_model(&self) -> InputModel {
        InputModel {
            pending: if self.next <= self.items.len() {
                self.items@.subrange(self.next as int, self.items.len() as int)
            } else {
                Seq::empty()
            },
            at_end: self.at_end,
        }
    }

    fn next_input(&mut self) -> (answer: Result<Option<i64>, Fault>) {
        if self.next < self.items.len() {
            let value: i64 = self.items[self.next];
            self.next = self.next + 1;
            assert(self.input_model().pending =~= old(self).input_model().pending.drop_first());
            Ok(Some(value))
        } else {
            match self.at_end {
                Exhausted::Halt => Ok(None),
                Exhausted::Fail => Err(Fault::NoInput),
            }
        }
    }
}

/// An output device that keeps the values it is sent, in order.
pub struct VecOutput {
    items: Vec<i64>,
    room: Option<usize>,
}

impl VecOutput {
    /// A device that takes any number of values.
    pub fn new() -> (out: Self)
        ensures
            out.output_model() == (OutputModel { sent: Seq::empty(), room: None }),
    {
        VecOutput { items: Vec::new(), room: None }
    }

    /// A device that takes `room` values and then signals the engine to halt.
    pub fn with_room(room: usize) -> (out: Self)
        ensures
            out.output_model() == (OutputModel { sent: Seq::empty(), room: Some(room as nat) }),
    {
        VecOutput { items: Vec::new(), room: Some(room) }
    }

    /// The values that the device has taken so far.
    pub fn values(&self) -> (values: &Vec<i64>)
        ensures
            values@ == self.output_model().sent,
    {
        &self.items
    }

    /// Gives up the device for the values that it has taken.
    pub fn into_vec(self) -> (values: Vec<i64>)
        ensures
            values@ == self.output_model().sent,
    {
        self.items
    }

    /// Takes the values out of the device, which then holds none and has the room
    /// that it had.
    pub fn take(&mut self) -> (values: Vec<i64>)
        ensures
            values@ == old(self).output_model().sent,
            final(self).output_model() == (OutputModel {
                sent: Seq::empty(),
                room: old(self).output_model().room,
            }),
    {
        let mut values: Vec<i64> = Vec::new();
        std::mem::swap(&mut values, &mut self.items);
        values
    }
}

impl Output for VecOutput {
    closed spec fn output_model(&self) -> OutputModel {
        OutputModel {
            sent: self.items@,
            room: match self.room {
                Some(n) => Some(n as nat),
                None => None,
            },
        }
    }

    fn send(&mut self, value: i64) -> (taken: Option<()>) {
        match self.room {
            None => {
                self.items.push(value);
                Some(())
            },
            Some(n) => {
                if n > 0 {
                    self.items.push(value);
                    self.room = Some(n - 1);
                    Some(())
                } else {
                    None
                }
            },
        }
    }
}

} // verus!
