pub mod devices;
pub mod ethernet;
pub mod host;
pub mod links;
pub mod protocols;
pub mod simulator;
pub mod switch;
