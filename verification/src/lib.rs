//! The verified core of a relay framework for the Nostr protocol.

pub mod active_subscriptions;
pub mod config;
pub mod cpu_affinity;
pub mod crypto;
pub mod database;
pub mod diagnostics;
pub mod error;
pub mod event_ingester;
pub mod event_processor;
pub mod export_import;
pub mod global_config;
pub mod global_metrics;
pub mod handlers;
pub mod hex_text;
pub mod id_set;
pub mod index_model;
pub mod keyed_lists;
pub mod lmdb_integrity;
pub mod lmdb_keys;
pub mod message_converter;
pub mod metrics;
pub mod middleware_chain;
pub mod middlewares;
pub mod negentropy_sync;
pub mod nostr_handler;
pub mod nostr_middleware;
pub mod protocol;
pub mod reconciliation;
pub mod relay_builder;
pub mod relay_middleware;
pub mod sdk;
pub mod settings;
pub mod state;
pub mod subdomain;
pub mod subscription_index;
pub mod subscription_registry;
pub mod text;
pub mod util;
pub mod web;

pub use config::{RelayConfig, ScopeConfig, WebSocketConfig};
pub use crypto::CryptoHelper;
pub use error::Error;
pub use event_ingester::{EventIngester, IngesterError};
pub use event_processor::{DefaultRelayProcessor, EventContext, EventProcessor, StoreCommand};
pub use handlers::RelayInfo;
pub use middleware_chain::{chain, Chain};
pub use nostr_handler::NostrHandlerFactory;
pub use nostr_middleware::MessageSender;
pub use self::relay_builder::{HtmlOption, RelayBuilder};
pub use relay_middleware::RelayMiddleware;
pub use state::NostrConnectionState;
pub use subscription_registry::SubscriptionRegistry;
