//! Rooms of a multiplayer circuit table: documents, instruments, players, and the rules
//! that keep them sound.
//!
//! Numbers of the physical world are bit patterns here ([`binary64::Real`]); what has to be
//! computed with them is handed in by the caller, and so is everything that the solver, the
//! disk, the network and the clock have to say.

pub mod binary64;
pub mod chat;
pub mod clock;
pub mod coalescing;
pub mod codes;
pub mod commands;
pub mod demo;
pub mod document;
pub mod fixture;
pub mod gated;
pub mod handle;
pub mod legends;
pub mod lists;
pub mod messages;
pub mod modules;
pub mod moog;
pub mod ms20;
pub mod netlabels;
pub mod netlist;
pub mod parts;
pub mod probes;
pub mod registry;
pub mod regions;
pub mod room;
pub mod save;
pub mod scopes;
pub mod seeds;
pub mod sensors;
pub mod sequencer;
pub mod session;
pub mod sheet;
pub mod slew;
pub mod spans;
pub mod text;
pub mod tick;

