//! Parking-area occupancy from fixed camera views: per-camera spot layouts,
//! the overlap classification rule, and the registry that publishes the
//! latest result of every camera.
pub mod detection;
pub mod error;
pub mod parking_lot;
pub mod session;
pub mod spot;
pub mod worker;
