use vstd::prelude::*;
use crate::events::EventTopic;
use crate::registry::Services;

verus! {

/// Settings of the outbound HTTP client.
#[derive(Debug)]
pub struct HttpClientConfig {
    pub user_agent: String,
    /// How long a call may take, in milliseconds.
    pub default_timeout_ms: u64,
}

/// Settings of the HTTP front end.
#[derive(Debug)]
pub struct HttpConfig {
    pub client: HttpClientConfig,
    pub host: String,
    pub port: u16,
    pub cors: Vec<String>,
}

/// Where user-action events go.
#[derive(Debug)]
pub struct EventConfig {
    pub user_action: EventTopic,
}

/// Everything the gateway is configured with.
pub struct Configuration {
    pub http: HttpConfig,
    pub services: Services,
    pub events: Option<EventConfig>,
}

} // verus!
