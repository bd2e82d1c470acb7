//! The decisions of whoever drives a tree: how long it is grown, and what
//! a key press asks for. The driver itself, which draws the frames and
//! waits for keys, is not here.

use crate::tree::Tree;
use rand::rngs::StdRng;
use vstd::prelude::*;

verus! {

/// The most ticks a tree is given.
pub const TICK_BUDGET: u16 = 150;

/// What a key press asks for.
#[derive(PartialEq, Eq, Structural, Debug, Clone, Copy)]
pub enum Key {
    /// Leave.
    Quit,
    /// Switch the overlay that shows the count of ticks and the age of the root.
    Overlay,
    /// Nothing.
    Other,
}

/// What the key with the given character asks for: `q` leaves and `d`
/// switches the overlay.
pub fn read_key(c: char) -> (key: Key)
    ensures
        key == if c == 'q' {
            Key::Quit
        } else if c == 'd' {
            Key::Overlay
        } else {
            Key::Other
        },
{
    if c == 'q' {
        Key::Quit
    } else if c == 'd' {
        Key::Overlay
    } else {
        Key::Other
    }
}

/// The state of a driver: the ticks it has made and whether the overlay is shown.
#[derive(Debug, Clone, Copy)]
pub struct Driver {
    pub ticks: u16,
    pub overlay: bool,
}

impl Driver {
    /// A driver that has made no tick and shows no overlay.
    pub fn new() -> (d: Driver)
        ensures
            d.ticks == 0,
            !d.overlay,
    {
        Driver { ticks: 0, overlay: false }
    }

    /// The tree is to grow on: the budget is not spent and some node is still alive.
    pub open spec fn wants_tick(self, t: Tree) -> bool {
        self.ticks < TICK_BUDGET && !t.dead()
    }

    /// True when the tree is to grow on.
    pub fn goes_on(&self, t: &Tree) -> (on: bool)
        ensures
            on == self.wants_tick(*t),
    {
        self.ticks < TICK_BUDGET && !t.is_dead()
    }

    /// Grows the tree by one tick and counts it.
    pub fn tick(&mut self, t: &mut Tree, rng: &mut StdRng)
        requires
            old(self).ticks < TICK_BUDGET,
            old(t).wf(),
        ensures
            final(self).ticks == old(self).ticks + 1,
            final(self).overlay == old(self).overlay,
            final(t).wf(),
            Tree::ticked(*old(t), *final(t)),
    {
        self.ticks += 1;
        t.grow(rng);
    }

    /// Takes a key press: switches the overlay where the key asks for it,
    /// and says whether the key asks to leave.
    pub fn press(&mut self, key: Key) -> (quit: bool)
        ensures
            quit == (key == Key::Quit),
            final(self).overlay == (old(self).overlay != (key == Key::Overlay)),
            final(self).ticks == old(self).ticks,
    {
        match key {
            Key::Quit => true,
            Key::Overlay => {
                self.overlay = !self.overlay;
                false
            },
            Key::Other => false,
        }
    }
}

} // verus!
