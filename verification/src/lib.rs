//! A four-way intersection: traffic-light controller, vehicle routing,
//! collision avoidance and dashboard layout, with their contracts.

pub mod direction;
pub mod geometry;
pub mod controller;
pub mod path;
pub mod vehicle;
pub mod simulation;
pub mod font;
pub mod display;
