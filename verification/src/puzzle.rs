//! Tasks that are solved with the computer, or beside it.
//!
//! - [`fuel`]: the fuel that modules need;
//! - [`gravity`]: a program with two arguments;
//! - [`wire`]: where two wires cross;
//! - [`password`]: numbers that are passwords;
//! - [`diagnostic`] and [`boost`]: programs with one input;
//! - [`orbit`]: objects in orbit, which form a tree;
//! - [`image`]: images in layers;
//! - [`asteroid`]: asteroids that hide each other;
//! - [`hull`]: a robot that paints;
//! - [`moons`]: moons that pull at each other;
//! - [`arcade`]: a game on a screen;
//! - [`reaction`]: chemicals that are made of each other;
//! - [`droid`] and [`maze`]: a droid that explores an area, and distances in it;
//! - [`plane`], [`names`] and [`number`]: maps from points, numbers for names,
//!   and common divisors.

pub mod arcade;
pub mod asteroid;
pub mod boost;
pub mod diagnostic;
pub mod droid;
pub mod fuel;
pub mod gravity;
pub mod hull;
pub mod image;
pub mod maze;
pub mod moons;
pub mod names;
pub mod number;
pub mod orbit;
pub mod password;
pub mod plane;
pub mod reaction;
pub mod wire;
