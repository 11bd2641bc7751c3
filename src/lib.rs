//! Core of a multi-link, policy-driven UDP transmitter: fragment codec,
//! rate throttle, scheduling policies, RTT bookkeeping and receive-side
//! reassembly.
pub mod fragment;
pub mod link_info;
pub mod mac_queue;
pub mod packet;
pub mod policies;
pub mod record;
pub mod rtt;
pub mod rtt_records;
pub mod source;
pub mod throttle;
pub mod trace_reader;
pub mod tx_part_ctl;
pub mod version_manager;
