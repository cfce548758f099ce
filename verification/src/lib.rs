//! # solana_net_core
//!
//! Low-latency network primitives for Solana: membership checks for validator keys and
//! trusted IP addresses, and the decisions of an AF_XDP zero-copy capture loop.
//!
//! - [`whitelist`]: validator-key membership, by a pairwise scan and by binary search.
//! - [`ip_table`]: trusted-IP membership, 16 addresses per step.
//! - [`lanes`]: the equality masks that the scans are built on.
//! - [`afxdp`]: the capture front-end and its two-phase start-up.
//! - [`worker`]: the capture loop as a state machine.
//! - [`steps`]: laws of the loop's steps, event by event.
//! - [`runs`]: laws of what the steps have in common and of whole runs.
//! - [`recycling`]: the steps that move frame descriptors between the pocket and the rings.
//! - [`pocket`]: the ring of descriptors that wait for the fill queue.
//! - [`rings`]: the rings shared with the consumer.
//! - [`frame`]: frame descriptors.
//! - [`dma`]: addresses of the UMEM region.

pub mod afxdp;
pub mod dma;
pub mod frame;
pub mod ip_table;
pub mod lanes;
pub mod pocket;
pub mod recycling;
pub mod rings;
pub mod runs;
pub mod steps;
pub mod whitelist;
pub mod worker;

pub use afxdp::{AfXdpGossipFilter, AfXdpState};
pub use dma::{get_umem_base_dma, DmaRegion};
pub use ip_table::{is_ip_trusted, AlignedIpTable};
pub use whitelist::{update_static_keys, ValidatorWhitelist};
