//! A typed declaration of a RabbitMQ broker's desired vhost/queue topology and an
//! observe-only reconciler that compares it with what the broker's management API
//! reports. The comparison, the status it produces and the reconcile decisions are
//! verified here; the network and cluster I/O that feeds them lives outside.

pub mod clock;
pub mod crd;
pub mod fetch;
pub mod observed;
pub mod properties;
pub mod reconcile;
