//! A bridge between a host application and a vehicle CAN bus behind a
//! USB-to-serial CAN adapter: the packet codec of the adapter's wire protocol,
//! the framer that recovers packets from fragmented serial reads, the
//! decisions of the thread that owns the port, and the schedulers that pace
//! outbound frames.

use vstd::prelude::*;

pub mod text;
pub mod can_protocol;
pub mod framer;
pub mod io_thread;
pub mod vehicle_control;
pub mod csv_loop;
pub mod infinite_loop;
pub mod state;
pub mod system_monitor_thread;

pub use state::AppState;

verus! {

/// The settings of one connection to the adapter.
#[derive(Debug, Clone)]
pub struct SerialConfig {
    pub port: String,
    pub baud_rate: u32,
    pub can_baud_rate: u32,
    pub frame_type: String,
    pub protocol_length: String,
    pub can_mode: String,
}

/// A CAN message as it is shown to the user.
#[derive(Debug, Clone)]
pub struct CanMessage {
    pub id: String,
    pub data: String,
    pub timestamp: String,
    pub direction: String,
    pub frame_type: String,
}

/// One row of a preloaded replay.
#[derive(Debug, Clone)]
pub struct CsvLoopProgress {
    pub index: usize,
    pub total: usize,
    pub can_id: String,
    pub can_data: String,
    pub vehicle_control: Option<vehicle_control::VehicleControl>,
}

/// An encoded packet on its way to the thread that owns the port.
#[derive(Debug, Clone)]
pub struct SendMessage {
    pub packet: Vec<u8>,
}

} // verus!
