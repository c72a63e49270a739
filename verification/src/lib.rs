//! A network speed monitor's logic: parsing of the kernel's interface and
//! routing tables, the monitor's state and the way keys and speed-test
//! reports move it, and the text that the terminal and the command line show.
//!
//! Measuring (reading the kernel's files, timing, transferring data) is the
//! caller's part; speed samples have whatever type the caller measures in.
pub mod app;
pub mod cli;
pub mod controls;
pub mod network;
pub mod speedtest;
pub mod text;
pub mod view;
