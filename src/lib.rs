//! Core of a scrollable terminal calendar: dates as Julian day numbers, weeks
//! of styled dates, a factory of weeks, the window of weeks on screen, and the
//! projection of that window onto a grid of character cells.

pub mod date;
pub mod week;
pub mod deque;
pub mod factory;
pub mod window;
pub mod moon;
pub mod canvas;
pub mod calendar;
pub mod jumpto;
pub mod viewer;
