use crate::auth::{ClientCertificate, ConnectionTLSConfig, TlsView};
use crate::errors::Error;
use std::sync::Arc;
use vstd::prelude::*;
use vstd::std_specs::convert::FromSpecImpl;

verus! {

/// Rows fetched in one request when nothing else is configured.
pub const DEFAULT_FETCH_SIZE: usize = 200;

/// Connections a pool may hold when nothing else is configured.
pub const DEFAULT_MAX_CONNECTIONS: usize = 16;

/// The default randomization factor, 0.42, as the bits of a double.
pub const DEFAULT_RAND_FACTOR: u64 = 0x3fda_e147_ae14_7ae1;

/// The default multiplier, 2.0, as the bits of a double.
pub const DEFAULT_MULTIPLIER: u64 = 0x4000_0000_0000_0000;

/// The default first delay, in milliseconds.
pub const DEFAULT_MIN_DELAY_MS: u64 = 1;

/// The default limit on the time spent retrying, in milliseconds.
pub const DEFAULT_MAX_TOTAL_DELAY_MS: u64 = 60000;

/// `Arc::clone` of std: the result points at the same text as the argument, so
/// the two are equal.
#[verifier::external_body]
fn share(name: &Arc<String>) -> (res: Arc<String>)
    ensures
        res == *name,
{
    Arc::clone(name)
}

/// Name of a database. The name is shared, so a clone costs no copy of the text.
#[derive(Debug, PartialEq, Eq)]
pub struct Database(Arc<String>);

impl View for Database {
    type V = Seq<char>;

    closed spec fn view(&self) -> Seq<char> {
        self.0@
    }
}

impl Database {
    /// The database called `name`.
    pub fn new(name: &str) -> (db: Self)
        ensures
            db@ == name@,
    {
        Database(Arc::new(name.to_owned()))
    }

    /// The name as text.
    pub fn as_str(&self) -> (name: &str)
        ensures
            name@ == self@,
    {
        self.0.as_str()
    }
}

impl AsRef<str> for Database {
    fn as_ref(&self) -> (name: &str)
        ensures
            name@ == self@,
    {
        self.0.as_str()
    }
}

impl std::ops::Deref for Database {
    type Target = str;

    fn deref(&self) -> (name: &str)
        ensures
            name@ == self@,
    {
        self.0.as_str()
    }
}

impl From<String> for Database {
    fn from(s: String) -> (db: Self)
        ensures
            db@ == s@,
    {
        Database(Arc::new(s))
    }
}

impl FromSpecImpl<String> for Database {
    open spec fn obeys_from_spec() -> bool {
        false
    }

    open spec fn from_spec(s: String) -> Self {
        arbitrary()
    }
}

impl Clone for Database {
    fn clone(&self) -> (res: Self)
        ensures
            res@ == self@,
    {
        Database(share(&self.0))
    }
}

impl Default for Database {
    /// The empty name, which stands for the server's default database.
    fn default() -> (res: Self)
        ensures
            res@ == Seq::<char>::empty(),
    {
        Database(Arc::new(String::new()))
    }
}

impl<'a> From<&'a str> for Database {
    fn from(s: &'a str) -> (db: Self)
        ensures
            db@ == s@,
    {
        Database(Arc::new(s.to_owned()))
    }
}

// Two names with the same text need not be the same value, so the conversion is
// specified by the view of its result rather than by `from_spec`.
impl<'a> FromSpecImpl<&'a str> for Database {
    open spec fn obeys_from_spec() -> bool {
        false
    }

    open spec fn from_spec(s: &'a str) -> Self {
        arbitrary()
    }
}

/// The view of an optional database name.
pub open spec fn db_view(db: Option<Database>) -> Option<Seq<char>> {
    match db {
        Some(db) => Some(db@),
        None => None,
    }
}

/// A copy of an optional database name.
pub fn clone_db(db: &Option<Database>) -> (res: Option<Database>)
    ensures
        db_view(res) == db_view(*db),
{
    match db {
        Some(db) => Some(db.clone()),
        None => None,
    }
}

/// The configuration that is used once a connection is alive.
#[derive(Debug)]
pub struct LiveConfig {
    pub db: Option<Database>,
    pub fetch_size: usize,
}

impl Clone for LiveConfig {
    fn clone(&self) -> (res: Self)
        ensures
            db_view(res.db) == db_view(self.db),
            res.fetch_size == self.fetch_size,
    {
        LiveConfig { db: clone_db(&self.db), fetch_size: self.fetch_size }
    }
}

/// The schedule by which a failed unit of work is retried: each delay is the
/// one before times `multiplier`, spread by `rand_factor`, starting at
/// `min_delay_ms`, until the delays add up to `max_total_delay_ms`.
///
/// The two factors are doubles. Nothing here computes with them, so they are
/// carried as their IEEE 754 bit patterns (`f64::to_bits`).
#[derive(Debug, Clone, Copy, PartialEq, Eq, Structural)]
pub struct BackoffConfig {
    pub rand_factor: u64,
    pub multiplier: u64,
    pub min_delay_ms: u64,
    pub max_total_delay_ms: Option<u64>,
}

impl Default for BackoffConfig {
    fn default() -> (res: Self)
        ensures
            res == (BackoffConfig {
                rand_factor: DEFAULT_RAND_FACTOR,
                multiplier: DEFAULT_MULTIPLIER,
                min_delay_ms: DEFAULT_MIN_DELAY_MS,
                max_total_delay_ms: Some(DEFAULT_MAX_TOTAL_DELAY_MS),
            }),
    {
        BackoffConfig {
            rand_factor: DEFAULT_RAND_FACTOR,
            multiplier: DEFAULT_MULTIPLIER,
            min_delay_ms: DEFAULT_MIN_DELAY_MS,
            max_total_delay_ms: Some(DEFAULT_MAX_TOTAL_DELAY_MS),
        }
    }
}

/// Collects the settings of a [`BackoffConfig`]; what is left unset takes its default.
pub struct BackoffConfigBuilder {
    rand_factor: Option<u64>,
    multiplier: Option<u64>,
    min_delay_ms: Option<u64>,
    max_total_delay_ms: Option<u64>,
}

impl BackoffConfigBuilder {
    /// What [`BackoffConfigBuilder::build`] makes of the builder.
    pub closed spec fn built(self) -> BackoffConfig {
        BackoffConfig {
            rand_factor: match self.rand_factor {
                Some(v) => v,
                None => DEFAULT_RAND_FACTOR,
            },
            multiplier: match self.multiplier {
                Some(v) => v,
                None => DEFAULT_MULTIPLIER,
            },
            min_delay_ms: match self.min_delay_ms {
                Some(v) => v,
                None => DEFAULT_MIN_DELAY_MS,
            },
            max_total_delay_ms: self.max_total_delay_ms,
        }
    }

    /// A builder with nothing set: the two factors and the first delay take
    /// their defaults, and the time spent retrying has no limit.
    pub fn new() -> (builder: Self)
        ensures
            builder.built() == (BackoffConfig {
                rand_factor: DEFAULT_RAND_FACTOR,
                multiplier: DEFAULT_MULTIPLIER,
                min_delay_ms: DEFAULT_MIN_DELAY_MS,
                max_total_delay_ms: None,
            }),
    {
        BackoffConfigBuilder {
            rand_factor: None,
            multiplier: None,
            min_delay_ms: None,
            max_total_delay_ms: None,
        }
    }

    /// Sets the randomization factor, given as the bits of a double.
    pub fn rand_factor(self, rand_factor: u64) -> (builder: Self)
        ensures
            builder.built() == (BackoffConfig { rand_factor, ..self.built() }),
    {
        let mut builder = self;
        builder.rand_factor = Some(rand_factor);
        builder
    }

    /// Sets the multiplier, given as the bits of a double.
    pub fn multiplier(self, multiplier: u64) -> (builder: Self)
        ensures
            builder.built() == (BackoffConfig { multiplier, ..self.built() }),
    {
        let mut builder = self;
        builder.multiplier = Some(multiplier);
        builder
    }

    /// Sets the first delay.
    pub fn min_delay_ms(self, min_delay_ms: u64) -> (builder: Self)
        ensures
            builder.built() == (BackoffConfig { min_delay_ms, ..self.built() }),
    {
        let mut builder = self;
        builder.min_delay_ms = Some(min_delay_ms);
        builder
    }

    /// Sets or lifts the limit on the time spent retrying.
    pub fn max_total_delay_ms(self, max_total_delay_ms: Option<u64>) -> (builder: Self)
        ensures
            builder.built() == (BackoffConfig { max_total_delay_ms, ..self.built() }),
    {
        let mut builder = self;
        builder.max_total_delay_ms = max_total_delay_ms;
        builder
    }

    /// The schedule that was collected.
    pub fn build(self) -> (config: BackoffConfig)
        ensures
            config == self.built(),
    {
        BackoffConfig {
            rand_factor: match self.rand_factor {
                Some(v) => v,
                None => DEFAULT_RAND_FACTOR,
            },
            multiplier: match self.multiplier {
                Some(v) => v,
                None => DEFAULT_MULTIPLIER,
            },
            min_delay_ms: match self.min_delay_ms {
                Some(v) => v,
                None => DEFAULT_MIN_DELAY_MS,
            },
            max_total_delay_ms: self.max_total_delay_ms,
        }
    }
}

impl Default for BackoffConfigBuilder {
    fn default() -> (builder: Self)
        ensures
            builder.built() == (BackoffConfig {
                rand_factor: DEFAULT_RAND_FACTOR,
                multiplier: DEFAULT_MULTIPLIER,
                min_delay_ms: DEFAULT_MIN_DELAY_MS,
                max_total_delay_ms: None,
            }),
    {
        BackoffConfigBuilder::new()
    }
}

/// Mathematical model of a [`Config`].
pub struct ConfigView {
    pub uri: Seq<char>,
    pub user: Seq<char>,
    pub password: Seq<char>,
    pub max_connections: usize,
    pub db: Option<Seq<char>>,
    pub fetch_size: usize,
    pub tls_config: TlsView,
    pub backoff: Option<BackoffConfig>,
}

/// The configuration used to connect to the database.
#[derive(Debug)]
pub struct Config {
    pub uri: String,
    pub user: String,
    pub password: String,
    pub max_connections: usize,
    pub db: Option<Database>,
    pub fetch_size: usize,
    pub tls_config: ConnectionTLSConfig,
    pub backoff: Option<BackoffConfig>,
}

impl View for Config {
    type V = ConfigView;

    open spec fn view(&self) -> ConfigView {
        ConfigView {
            uri: self.uri@,
            user: self.user@,
            password: self.password@,
            max_connections: self.max_connections,
            db: db_view(self.db),
            fetch_size: self.fetch_size,
            tls_config: self.tls_config@,
            backoff: self.backoff,
        }
    }
}

impl Clone for Config {
    fn clone(&self) -> (res: Self)
        ensures
            res@ == self@,
    {
        Config {
            uri: self.uri.clone(),
            user: self.user.clone(),
            password: self.password.clone(),
            max_connections: self.max_connections,
            db: clone_db(&self.db),
            fetch_size: self.fetch_size,
            tls_config: self.tls_config.clone(),
            backoff: self.backoff,
        }
    }
}

impl Config {
    /// The part of the configuration that a live connection still needs.
    pub fn into_live_config(self) -> (live: LiveConfig)
        ensures
            db_view(live.db) == self@.db,
            live.fetch_size == self.fetch_size,
    {
        LiveConfig { db: self.db, fetch_size: self.fetch_size }
    }
}

/// Mathematical model of a [`ConfigBuilder`].
pub struct ConfigBuilderView {
    pub uri: Option<Seq<char>>,
    pub user: Option<Seq<char>>,
    pub password: Option<Seq<char>>,
    pub db: Option<Seq<char>>,
    pub fetch_size: usize,
    pub max_connections: usize,
    pub tls_config: TlsView,
    pub backoff_config: Option<BackoffConfig>,
}

/// The view of an optional text.
pub open spec fn text_view(text: Option<String>) -> Option<Seq<char>> {
    match text {
        Some(text) => Some(text@),
        None => None,
    }
}

/// A builder to override default configurations and build the [`Config`].
pub struct ConfigBuilder {
    uri: Option<String>,
    user: Option<String>,
    password: Option<String>,
    db: Option<Database>,
    fetch_size: usize,
    max_connections: usize,
    tls_config: ConnectionTLSConfig,
    backoff_config: Option<BackoffConfig>,
}

impl View for ConfigBuilder {
    type V = ConfigBuilderView;

    closed spec fn view(&self) -> ConfigBuilderView {
        ConfigBuilderView {
            uri: text_view(self.uri),
            user: text_view(self.user),
            password: text_view(self.password),
            db: db_view(self.db),
            fetch_size: self.fetch_size,
            max_connections: self.max_connections,
            tls_config: self.tls_config@,
            backoff_config: self.backoff_config,
        }
    }
}

/// The builder that [`ConfigBuilder::new`] and [`ConfigBuilder::default`] return.
pub open spec fn initial_builder() -> ConfigBuilderView {
    ConfigBuilderView {
        uri: None,
        user: None,
        password: None,
        db: None,
        fetch_size: DEFAULT_FETCH_SIZE,
        max_connections: DEFAULT_MAX_CONNECTIONS,
        tls_config: TlsView::SystemDefault,
        backoff_config: Some(
            BackoffConfig {
                rand_factor: DEFAULT_RAND_FACTOR,
                multiplier: DEFAULT_MULTIPLIER,
                min_delay_ms: DEFAULT_MIN_DELAY_MS,
                max_total_delay_ms: Some(DEFAULT_MAX_TOTAL_DELAY_MS),
            },
        ),
    }
}

impl ConfigBuilder {
    /// Creates a new `ConfigBuilder` with default values.
    pub fn new() -> (builder: Self)
        ensures
            builder@ == initial_builder(),
    {
        ConfigBuilder {
            uri: None,
            user: None,
            password: None,
            db: None,
            max_connections: DEFAULT_MAX_CONNECTIONS,
            fetch_size: DEFAULT_FETCH_SIZE,
            tls_config: ConnectionTLSConfig::SystemDefault,
            backoff_config: Some(BackoffConfig::default()),
        }
    }

    /// The uri of the server, e.g. "127.0.0.1:7687".
    pub fn uri(self, uri: &str) -> (builder: Self)
        ensures
            builder@ == (ConfigBuilderView { uri: Some(uri@), ..self@ }),
    {
        let mut builder = self;
        builder.uri = Some(uri.to_owned());
        builder
    }

    /// The username for authenticating with the server.
    pub fn user(self, user: &str) -> (builder: Self)
        ensures
            builder@ == (ConfigBuilderView { user: Some(user@), ..self@ }),
    {
        let mut builder = self;
        builder.user = Some(user.to_owned());
        builder
    }

    /// The password for authenticating with the server.
    pub fn password(self, password: &str) -> (builder: Self)
        ensures
            builder@ == (ConfigBuilderView { password: Some(password@), ..self@ }),
    {
        let mut builder = self;
        builder.password = Some(password.to_owned());
        builder
    }

    /// The name of the database to connect to.
    ///
    /// Defaults to the server configured default database if not set.
    pub fn db(self, db: &str) -> (builder: Self)
        ensures
            builder@ == (ConfigBuilderView { db: Some(db@), ..self@ }),
    {
        let mut builder = self;
        builder.db = Some(Database::new(db));
        builder
    }

    /// The number of rows to fetch from the server in one request.
    ///
    /// Defaults to 200 if not set.
    pub fn fetch_size(self, fetch_size: usize) -> (builder: Self)
        ensures
            builder@ == (ConfigBuilderView { fetch_size, ..self@ }),
    {
        let mut builder = self;
        builder.fetch_size = fetch_size;
        builder
    }

    /// The maximum number of connections in the connection pool.
    ///
    /// Defaults to 16 if not set.
    pub fn max_connections(self, max_connections: usize) -> (builder: Self)
        ensures
            builder@ == (ConfigBuilderView { max_connections, ..self@ }),
    {
        let mut builder = self;
        builder.max_connections = max_connections;
        builder
    }

    /// A CA certificate to use to validate the server's certificate.
    pub fn with_client_certificate(self, client_cert: &str) -> (builder: Self)
        ensures
            builder@ == (ConfigBuilderView {
                tls_config: TlsView::ClientCACertificate(client_cert@),
                ..self@
            }),
    {
        let mut builder = self;
        builder.tls_config = ConnectionTLSConfig::ClientCACertificate(
            ClientCertificate::new(client_cert),
        );
        builder
    }

    /// Skip SSL validation. This is not recommended for production use.
    pub fn skip_ssl_validation(self) -> (builder: Self)
        ensures
            builder@ == (ConfigBuilderView { tls_config: TlsView::NoSSLValidation, ..self@ }),
    {
        let mut builder = self;
        builder.tls_config = ConnectionTLSConfig::NoSSLValidation;
        builder
    }

    /// Sets the retry schedule, or none.
    pub fn with_backoff(self, backoff: Option<BackoffConfig>) -> (builder: Self)
        ensures
            builder@ == (ConfigBuilderView { backoff_config: backoff, ..self@ }),
    {
        let mut builder = self;
        builder.backoff_config = backoff;
        builder
    }

    /// The configuration that was collected. It takes a uri, a user and a
    /// password: where one of them was never set, there is no configuration.
    pub fn build(self) -> (config: Result<Config, Error>)
        ensures
            match config {
                Ok(config) => {
                    &&& self@.uri == Some(config@.uri)
                    &&& self@.user == Some(config@.user)
                    &&& self@.password == Some(config@.password)
                    &&& config@.fetch_size == self@.fetch_size
                    &&& config@.max_connections == self@.max_connections
                    &&& config@.db == self@.db
                    &&& config@.tls_config == self@.tls_config
                    &&& config@.backoff == self@.backoff_config
                },
                Err(e) => {
                    &&& e == Error::InvalidConfig
                    &&& (self@.uri is None || self@.user is None || self@.password is None)
                },
            },
    {
        match (self.uri, self.user, self.password) {
            (Some(uri), Some(user), Some(password)) => Ok(
                Config {
                    uri,
                    user,
                    password,
                    fetch_size: self.fetch_size,
                    max_connections: self.max_connections,
                    db: self.db,
                    tls_config: self.tls_config,
                    backoff: self.backoff_config,
                },
            ),
            _ => Err(Error::InvalidConfig),
        }
    }
}

impl Default for ConfigBuilder {
    fn default() -> (builder: Self)
        ensures
            builder@ == initial_builder(),
    {
        ConfigBuilder::new()
    }
}

} // verus!
