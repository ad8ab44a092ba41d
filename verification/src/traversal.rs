//! The decisions of one ray cast, as a state machine.
//!
//! The caller owns the ray, the grid stepper, the world and the visitor. It
//! performs the action that the machine has pending and reports what came of
//! it as an event; the machine answers with its next state. Nothing here
//! looks at coordinates: an impact is carried from the cast that produced it
//! to the visitor.
use vstd::prelude::*;
use crate::hit::{overwrite, Hit, Impact};
use crate::vector::{direction_usable, positive_finite_bits, Cell};

verus! {

/// Where a ray cast stands.
#[derive(Clone, Copy, Debug, PartialEq, Eq)]
pub enum Traversal {
    /// The stepper is to propose the next candidate cell.
    Stepping,
    /// The world has been asked for the block in `cell`.
    Looking { cell: Cell },
    /// The block in `cell` is being cast against, box by box in the order of
    /// its box list; `found` is the impact of the last box hit so far.
    Casting { cell: Cell, found: Option<Impact> },
    /// The visitor has been handed `hit`.
    Visiting { hit: Hit },
    /// The ray cast is over: the visitor asked to stop, or the direction of
    /// the ray has no usable length.
    Stopped,
}

/// What the caller reports back.
#[derive(Clone, Copy, Debug, PartialEq, Eq)]
pub enum Event {
    /// The stepper proposed this cell.
    Entered(Cell),
    /// The world holds no block in the cell asked for.
    Vacant,
    /// The world holds a block in the cell asked for.
    Occupied,
    /// The ray was cast against the next collision box of the block; `None`
    /// where it misses the box within the maximum distance.
    Cast(Option<Impact>),
    /// The block has no further collision box.
    Swept,
    /// The visitor answered: `true` to go on, `false` to stop.
    Visited(bool),
}

/// What the caller is to do next.
#[derive(Clone, Copy, Debug, PartialEq, Eq)]
pub enum Action {
    /// Let the stepper go on; answer `Entered` when it proposes its next cell.
    Advance,
    /// Ask the world for the block in this cell; answer `Vacant` or `Occupied`.
    Lookup(Cell),
    /// Cast the ray against the next collision box of the block in this cell,
    /// moved to the cell's position; answer `Cast`, or `Swept` once the block
    /// has no box left.
    Cast(Cell),
    /// Hand this report to the visitor; answer `Visited`.
    Visit(Hit),
    /// Stop the stepper. Nothing more is to be looked up, cast or visited.
    Stop,
}

impl Traversal {
    /// The state in which a ray cast begins, given the length of the ray's
    /// direction as a binary64 pattern. A direction that cannot be scaled to
    /// unit length makes the cast a traversal of nothing.
    pub open spec fn spec_start(length: u64) -> Traversal {
        if positive_finite_bits(length) {
            Traversal::Stepping
        } else {
            Traversal::Stopped
        }
    }

    /// The state after `event`. An event that does not answer the pending
    /// action changes nothing.
    pub open spec fn spec_step(self, event: Event) -> Traversal {
        match (self, event) {
            (Traversal::Stepping, Event::Entered(cell)) => Traversal::Looking { cell },
            (Traversal::Looking { cell }, Event::Vacant) => Traversal::Visiting {
                hit: Hit::spec_nothing(cell),
            },
            (Traversal::Looking { cell }, Event::Occupied) => Traversal::Casting {
                cell,
                found: None,
            },
            (Traversal::Casting { cell, found }, Event::Cast(outcome)) => Traversal::Casting {
                cell,
                found: overwrite(found, outcome),
            },
            (Traversal::Casting { cell, found }, Event::Swept) => Traversal::Visiting {
                hit: Hit::spec_report(cell, found),
            },
            (Traversal::Visiting { hit }, Event::Visited(keep_going)) => if keep_going {
                Traversal::Stepping
            } else {
                Traversal::Stopped
            },
            _ => self,
        }
    }

    /// The action that the state waits for.
    pub open spec fn spec_pending(self) -> Action {
        match self {
            Traversal::Stepping => Action::Advance,
            Traversal::Looking { cell } => Action::Lookup(cell),
            Traversal::Casting { cell, found } => Action::Cast(cell),
            Traversal::Visiting { hit } => Action::Visit(hit),
            Traversal::Stopped => Action::Stop,
        }
    }

    /// Begins a ray cast. `length` is the pattern of the length of the ray's
    /// direction, before it is scaled to unit length.
    pub fn start(length: u64) -> (state: Traversal)
        ensures
            state == Traversal::spec_start(length),
    {
        if direction_usable(length) {
            Traversal::Stepping
        } else {
            Traversal::Stopped
        }
    }

    /// Takes in what came of the pending action.
    pub fn step(self, event: Event) -> (next: Traversal)
        ensures
            next == self.spec_step(event),
    {
        match self {
            Traversal::Stepping => match event {
                Event::Entered(cell) => Traversal::Looking { cell },
                _ => self,
            },
            Traversal::Looking { cell } => match event {
                Event::Vacant => Traversal::Visiting { hit: Hit::nothing(cell) },
                Event::Occupied => Traversal::Casting { cell, found: None },
                _ => self,
            },
            Traversal::Casting { cell, found } => match event {
                Event::Cast(outcome) => match outcome {
                    Some(_) => Traversal::Casting { cell, found: outcome },
                    None => self,
                },
                Event::Swept => Traversal::Visiting { hit: Hit::report(cell, found) },
                _ => self,
            },
            Traversal::Visiting { hit } => match event {
                Event::Visited(keep_going) => if keep_going {
                    Traversal::Stepping
                } else {
                    Traversal::Stopped
                },
                _ => self,
            },
            Traversal::Stopped => self,
        }
    }

    /// The action to perform now.
    pub fn pending(&self) -> (action: Action)
        ensures
            action == self.spec_pending(),
    {
        match self {
            Traversal::Stepping => Action::Advance,
            Traversal::Looking { cell } => Action::Lookup(*cell),
            Traversal::Casting { cell, found } => Action::Cast(*cell),
            Traversal::Visiting { hit } => Action::Visit(*hit),
            Traversal::Stopped => Action::Stop,
        }
    }

    /// Tells whether the ray cast is over, so that the stepper has to stop.
    pub fn is_stopped(&self) -> (r: bool)
        ensures
            r == (*self == Traversal::Stopped),
    {
        match self {
            Traversal::Stopped => true,
            _ => false,
        }
    }
}

/// What the grid stepper is to be answered once a cell is done with, given
/// whether the cast goes on: the stepper stops when its callback returns
/// `true`, and goes on to its next cell when it returns `false`.
pub fn stepper_answer(keep_going: bool) -> (stop: bool)
    ensures
        stop == !keep_going,
{
    !keep_going
}

/// The state reached from `start` once `events` have come in, in order.
pub open spec fn run(start: Traversal, events: Seq<Event>) -> Traversal
    decreases events.len(),
{
    if events.len() == 0 {
        start
    } else {
        run(start.spec_step(events[0]), events.skip(1))
    }
}

/// The cells taken from the stepper, in order, while `events` came in from
/// `start` on.
pub open spec fn entries(start: Traversal, events: Seq<Event>) -> Seq<Cell>
    decreases events.len(),
{
    if events.len() == 0 {
        Seq::empty()
    } else {
        let rest = entries(start.spec_step(events[0]), events.skip(1));
        match (start, events[0]) {
            (Traversal::Stepping, Event::Entered(cell)) => seq![cell] + rest,
            _ => rest,
        }
    }
}

/// The cells for which the world answered, in order, while `events` came in
/// from `start` on.
pub open spec fn lookups(start: Traversal, events: Seq<Event>) -> Seq<Cell>
    decreases events.len(),
{
    if events.len() == 0 {
        Seq::empty()
    } else {
        let rest = lookups(start.spec_step(events[0]), events.skip(1));
        match (start, events[0]) {
            (Traversal::Looking { cell }, Event::Vacant) => seq![cell] + rest,
            (Traversal::Looking { cell }, Event::Occupied) => seq![cell] + rest,
            _ => rest,
        }
    }
}

/// The number of casts whose outcome came in while `events` came in from
/// `start` on.
pub open spec fn casts(start: Traversal, events: Seq<Event>) -> nat
    decreases events.len(),
{
    if events.len() == 0 {
        0
    } else {
        let rest = casts(start.spec_step(events[0]), events.skip(1));
        match (start, events[0]) {
            (Traversal::Casting { cell, found }, Event::Cast(outcome)) => 1 + rest,
            _ => rest,
        }
    }
}

/// The reports that the visitor answered, in order, while `events` came in
/// from `start` on.
pub open spec fn visits(start: Traversal, events: Seq<Event>) -> Seq<Hit>
    decreases events.len(),
{
    if events.len() == 0 {
        Seq::empty()
    } else {
        let rest = visits(start.spec_step(events[0]), events.skip(1));
        match (start, events[0]) {
            (Traversal::Visiting { hit }, Event::Visited(keep_going)) => seq![hit] + rest,
            _ => rest,
        }
    }
}

} // verus!
