//! A client-side telemetry engine: it records metrics, assembles them into
//! pings and delivers the pings, under a consent flag that the user may
//! change at any time.
//!
//! The engine is one owned object, [`Glean`]. Its behaviour is specified by
//! the state machine of the module [`model`].

pub mod dispatcher;
pub mod encoding;
pub mod engine;
pub mod metrics;
pub mod model;
pub mod net;
pub mod ping;
pub mod private;
pub mod upload;

pub use crate::engine::{ClientInfoMetrics, Configuration, DataDirectory, Glean, PersistedState, Task};
pub use crate::metrics::{CommonMetricData, Lifetime};
pub use crate::model::EngineState;
