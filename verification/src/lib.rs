pub mod configuration;
pub mod decimal;
pub mod environment;
pub mod domain;
pub mod query;
pub mod registry;
pub mod requirement;
pub mod response;
pub mod resolver;
pub mod store;
