//! Growth of a stylised tree on a character grid: a recursive structure of
//! nodes that age, drift, branch, turn to leaves and die, one tick at a time,
//! together with the flat list of glyphs that shows its current shape.
//!
//! Chance enters only where values are drawn from the generator into a
//! plain record: what a node needs for a tick, and the accent it is shown
//! with. Everything else is a function of the tree and of those records.
//!
//! * [`chance`]: the random source and the record of what one node draws in a tick.
//! * [`node`]: the mathematical model of a node and of one tick of it.
//! * [`tree`]: the tree itself and its growth.
//! * [`glyph`]: the glyphs a tree is shown with.
//! * [`screen`]: where on a character grid a place of the tree falls.
//! * [`driver`]: how long a tree is grown, and what a key press asks for.
//! * [`laws`]: what holds of every tick and of every run of ticks.

pub mod chance;
pub mod driver;
pub mod glyph;
pub mod laws;
pub mod node;
pub mod screen;
pub mod tree;
