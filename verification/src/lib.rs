//! Tracks what a user does in each X window: keys pressed, clicks, pointer movements and
//! time spent, and lays the totals out as a terminal screen.
#![allow(non_snake_case)]

pub mod selftop;
pub mod x11wrapper;
pub mod text;
pub mod report;
pub mod record;
pub mod focus;
