pub mod auth;
pub mod bolt;
pub mod config;
pub mod connection;
pub mod errors;
pub mod operation;
pub mod packstream;
pub mod routing;
pub mod text;
pub mod version;

pub use config::{BackoffConfig, BackoffConfigBuilder, Config, ConfigBuilder, Database, LiveConfig};
pub use connection::Routing;
pub use errors::Error;
pub use operation::Operation;
pub use routing::{Route, RouteBuilder, RoutingTable, Server, ServerView};
pub use version::Version;
