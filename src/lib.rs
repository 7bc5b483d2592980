//! Root-network logic of a multi-subnetwork staking system: the periodic
//! emission computation, root weight submission, root registration and the
//! creation of subnetworks under a global cap.

pub mod epoch;
pub mod fixed;
pub mod network;
pub mod register;
pub mod state;
pub mod weights;
