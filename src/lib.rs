// A 2-D position-based dynamics step on fixed-point integers (fixed, world, contact,
// broad_phase, solver, step), and a set of small verified exercises beside it.
pub mod adder;
pub mod broad_phase;
pub mod closures;
pub mod coins;
pub mod contact;
pub mod fixed;
pub mod generics;
pub mod gui;
pub mod minigrep;
pub mod ownership;
pub mod restaurant;
pub mod shapes;
pub mod solver;
pub mod step;
pub mod summary;
pub mod text;
pub mod world;
