use vstd::prelude::*;

verus! {

/// Errors surfaced to applications.
#[derive(Clone, Debug, PartialEq, Eq)]
pub enum WrapperError {
    /// The transport could not be set up.
    Connection(String),
    /// Any other session-level failure.
    Session(String),
    /// The transport has no broadcast of this name.
    BroadcastNotFound(String),
    /// The track is not registered, or its producer does not exist yet.
    TrackNotFound(String),
    /// Reconnection gave up after this many attempts.
    ReconnectionFailed { attempts: usize },
    /// The configuration is not usable.
    InvalidConfig(String),
    /// The operation needs a live session.
    NotConnected,
    /// A catalog document did not parse.
    Malformed(String),
}

impl WrapperError {
    /// A human-readable description of the error.
    pub fn message(&self) -> (r: String)
        ensures
            match self {
                WrapperError::Connection(m) => r@ == m@,
                WrapperError::Session(m) => r@ == m@,
                WrapperError::BroadcastNotFound(m) => r@ == m@,
                WrapperError::TrackNotFound(m) => r@ == m@,
                WrapperError::ReconnectionFailed { .. } => r@ == "reconnection failed"@,
                WrapperError::InvalidConfig(m) => r@ == m@,
                WrapperError::NotConnected => r@ == "session not connected"@,
                WrapperError::Malformed(m) => r@ == m@,
            },
    {
        match self {
            WrapperError::Connection(m) => m.clone(),
            WrapperError::Session(m) => m.clone(),
            WrapperError::BroadcastNotFound(m) => m.clone(),
            WrapperError::TrackNotFound(m) => m.clone(),
            WrapperError::ReconnectionFailed { .. } => "reconnection failed".to_string(),
            WrapperError::InvalidConfig(m) => m.clone(),
            WrapperError::NotConnected => "session not connected".to_string(),
            WrapperError::Malformed(m) => m.clone(),
        }
    }
}


/// Whether `url::Url::parse` accepts the text as an absolute URL.
pub uninterp spec fn url_accepts(s: Seq<char>) -> bool;

/// Relies on `url::Url::parse`: whether the text parses as an absolute URL,
/// which depends on the text alone.
#[verifier::external_body]
fn url_is_valid(s: &str) -> (r: bool)
    ensures
        r == url_accepts(s@),
{
    url::Url::parse(s).is_ok()
}

/// Default first reconnection delay, in milliseconds.
pub const DEFAULT_RECONNECT_DELAY_MS: u64 = 500;

/// Default longest reconnection delay, in milliseconds.
pub const DEFAULT_MAX_RECONNECT_DELAY_MS: u64 = 10_000;

/// Default relay address.
pub const DEFAULT_URL: &'static str = "https://relay.moq.dev/anon";

/// How to reach the relay and how to retry. Delays are in milliseconds; a
/// limit of zero reconnection attempts means no limit.
#[derive(Clone, Debug)]
pub struct ConnectionConfig {
    pub url: String,
    pub max_reconnect_attempts: usize,
    pub reconnect_delay_ms: u64,
    pub max_reconnect_delay_ms: u64,
    pub ipv4_only: bool,
}

/// The delay after one more failure: twice the last, at most `max`.
pub open spec fn backoff(current: u64, max: u64) -> u64 {
    if 2 * current > max { max } else { (2 * current) as u64 }
}

impl ConnectionConfig {
    /// The default configuration: the public relay, unlimited attempts,
    /// half a second first delay, ten seconds longest delay, dual-stack
    /// binding.
    pub fn default_config() -> (r: Self)
        ensures
            r.url@ == DEFAULT_URL@,
            r.max_reconnect_attempts == 0,
            r.reconnect_delay_ms == DEFAULT_RECONNECT_DELAY_MS,
            r.max_reconnect_delay_ms == DEFAULT_MAX_RECONNECT_DELAY_MS,
            !r.ipv4_only,
    {
        ConnectionConfig {
            url: DEFAULT_URL.to_string(),
            max_reconnect_attempts: 0,
            reconnect_delay_ms: DEFAULT_RECONNECT_DELAY_MS,
            max_reconnect_delay_ms: DEFAULT_MAX_RECONNECT_DELAY_MS,
            ipv4_only: false,
        }
    }

    /// The delay before the next attempt, after an attempt that waited
    /// `current`: doubled, and clamped to the longest delay.
    pub fn next_reconnect_delay(&self, current: u64) -> (r: u64)
        ensures
            r == backoff(current, self.max_reconnect_delay_ms),
    {
        if current > self.max_reconnect_delay_ms / 2 {
            self.max_reconnect_delay_ms
        } else {
            let d = current * 2;
            if d > self.max_reconnect_delay_ms {
                self.max_reconnect_delay_ms
            } else {
                d
            }
        }
    }

    /// Whether another attempt may follow `attempts` failed ones.
    pub fn may_retry(&self, attempts: usize) -> (r: bool)
        ensures
            r == (self.max_reconnect_attempts == 0 || attempts < self.max_reconnect_attempts),
    {
        self.max_reconnect_attempts == 0 || attempts < self.max_reconnect_attempts
    }
}

/// What a session is created with.
#[derive(Clone, Debug)]
pub struct SessionConfig {
    pub broadcast_name: String,
    pub connection: ConnectionConfig,
    pub auto_reconnect: bool,
}

impl SessionConfig {
    /// A configuration for `url`, given whether the URL parses: refused with
    /// `InvalidConfig` when it does not; otherwise the default connection
    /// settings with that URL, and reconnection on.
    pub fn with_checked_url(broadcast_name: &str, url: &str, url_ok: bool) -> (r: Result<Self, WrapperError>)
        ensures
            !url_ok ==> r matches Err(WrapperError::InvalidConfig(_)),
            url_ok ==> (r matches Ok(c) && {
                &&& c.broadcast_name@ == broadcast_name@
                &&& c.connection.url@ == url@
                &&& c.connection.max_reconnect_attempts == 0
                &&& c.connection.reconnect_delay_ms == DEFAULT_RECONNECT_DELAY_MS
                &&& c.connection.max_reconnect_delay_ms == DEFAULT_MAX_RECONNECT_DELAY_MS
                &&& !c.connection.ipv4_only
                &&& c.auto_reconnect
            }),
    {
        if !url_ok {
            return Err(WrapperError::InvalidConfig("Invalid URL".to_string()));
        }
        let mut connection = ConnectionConfig::default_config();
        connection.url = url.to_string();
        Ok(SessionConfig { broadcast_name: broadcast_name.to_string(), connection, auto_reconnect: true })
    }

    /// A configuration for `url`; refused with `InvalidConfig` when the URL
    /// does not parse.
    pub fn new(broadcast_name: &str, url: &str) -> (r: Result<Self, WrapperError>)
        ensures
            !url_accepts(url@) ==> r matches Err(WrapperError::InvalidConfig(_)),
            url_accepts(url@) ==> (r matches Ok(c) && {
                &&& c.broadcast_name@ == broadcast_name@
                &&& c.connection.url@ == url@
                &&& c.connection.max_reconnect_attempts == 0
                &&& c.connection.reconnect_delay_ms == DEFAULT_RECONNECT_DELAY_MS
                &&& c.connection.max_reconnect_delay_ms == DEFAULT_MAX_RECONNECT_DELAY_MS
                &&& !c.connection.ipv4_only
                &&& c.auto_reconnect
            }),
    {
        let ok = url_is_valid(url);
        Self::with_checked_url(broadcast_name, url, ok)
    }
}

} // verus!
