//! Core of a disk-health exporter: which devices are tracked, what is read from each of
//! them on a scrape, and what is published for every reading.
//!
//! The crate holds decisions only. Reading the device tree, talking to the disks, serving
//! scrapes and storing the published values is left to the program built around it, which
//! performs each [`controller::Command`] and reports back with an [`controller::Event`].

pub mod attribute;
pub mod controller;
pub mod device_type;
pub mod enumerator;
pub mod registry;
pub mod sample;
pub mod trace;
pub mod verdict;
