use bolt_routing::auth::{ClientCertificate, ConnectionTLSConfig};
use bolt_routing::{BackoffConfig, BackoffConfigBuilder, ConfigBuilder, Database, Error};

#[test]
fn should_build_config() {
    let config = ConfigBuilder::default()
        .uri("127.0.0.1:7687")
        .user("some_user")
        .password("some_password")
        .db("some_db")
        .fetch_size(10)
        .max_connections(5)
        .with_backoff(None)
        .build()
        .unwrap();
    assert_eq!(config.uri, "127.0.0.1:7687");
    assert_eq!(config.user, "some_user");
    assert_eq!(config.password, "some_password");
    assert_eq!(config.db.as_deref(), Some("some_db"));
    assert_eq!(config.fetch_size, 10);
    assert_eq!(config.max_connections, 5);
    assert_eq!(config.tls_config, ConnectionTLSConfig::SystemDefault);
    assert_eq!(config.backoff, None);
}

#[test]
fn should_build_with_defaults() {
    let config = ConfigBuilder::default()
        .uri("127.0.0.1:7687")
        .user("some_user")
        .password("some_password")
        .build()
        .unwrap();
    assert_eq!(config.uri, "127.0.0.1:7687");
    assert_eq!(config.user, "some_user");
    assert_eq!(config.password, "some_password");
    assert_eq!(config.db, None);
    assert_eq!(config.fetch_size, 200);
    assert_eq!(config.max_connections, 16);
    assert_eq!(config.tls_config, ConnectionTLSConfig::SystemDefault);
    assert!(config.backoff.is_some());
    assert_eq!(config.backoff.as_ref().unwrap(), &BackoffConfig::default());
}

#[test]
fn should_build_with_tls_config() {
    let config = ConfigBuilder::default()
        .uri("127.0.0.1:7687")
        .user("some_user")
        .password("some_password")
        .skip_ssl_validation()
        .with_backoff(Some(
            BackoffConfigBuilder::new().rand_factor(0.5f64.to_bits()).build(),
        ))
        .build()
        .unwrap();
    assert_eq!(config.uri, "127.0.0.1:7687");
    assert_eq!(config.user, "some_user");
    assert_eq!(config.password, "some_password");
    assert_eq!(config.db, None);
    assert_eq!(config.fetch_size, 200);
    assert_eq!(config.max_connections, 16);
    assert_eq!(config.tls_config, ConnectionTLSConfig::NoSSLValidation);
    assert!(config.backoff.is_some());
    assert_eq!(f64::from_bits(config.backoff.as_ref().unwrap().rand_factor), 0.5);
}

#[test]
fn should_reject_invalid_config() {
    assert!(ConfigBuilder::default()
        .user("some_user")
        .password("some_password")
        .build()
        .is_err());

    assert!(ConfigBuilder::default()
        .uri("127.0.0.1:7687")
        .password("some_password")
        .build()
        .is_err());

    assert!(ConfigBuilder::default()
        .uri("127.0.0.1:7687")
        .user("some_user")
        .build()
        .is_err());
}

#[test]
fn invalid_config_is_the_error() {
    assert_eq!(ConfigBuilder::new().build().err(), Some(Error::InvalidConfig));
}

#[test]
fn default_backoff_is_the_documented_schedule() {
    let backoff = BackoffConfig::default();
    assert_eq!(f64::from_bits(backoff.rand_factor), 0.42);
    assert_eq!(f64::from_bits(backoff.multiplier), 2.0);
    assert_eq!(backoff.min_delay_ms, 1);
    assert_eq!(backoff.max_total_delay_ms, Some(60000));
}

#[test]
fn backoff_builder_keeps_what_was_set() {
    let built = BackoffConfigBuilder::new().build();
    assert_eq!(f64::from_bits(built.rand_factor), 0.42);
    assert_eq!(f64::from_bits(built.multiplier), 2.0);
    assert_eq!(built.min_delay_ms, 1);
    assert_eq!(built.max_total_delay_ms, None);
    let built = BackoffConfigBuilder::default()
        .multiplier(3.0f64.to_bits())
        .min_delay_ms(7)
        .max_total_delay_ms(Some(9))
        .rand_factor(0.25f64.to_bits())
        .build();
    assert_eq!(f64::from_bits(built.multiplier), 3.0);
    assert_eq!(f64::from_bits(built.rand_factor), 0.25);
    assert_eq!(built.min_delay_ms, 7);
    assert_eq!(built.max_total_delay_ms, Some(9));
}

#[test]
fn client_certificate_is_kept() {
    let config = ConfigBuilder::new()
        .uri("u")
        .user("n")
        .password("p")
        .with_client_certificate("/etc/ca.pem")
        .build()
        .unwrap();
    assert_eq!(
        config.tls_config,
        ConnectionTLSConfig::ClientCACertificate(ClientCertificate::new("/etc/ca.pem"))
    );
    let copy = config.clone();
    assert_eq!(copy.tls_config, config.tls_config);
    assert_eq!(copy.uri, "u");
    let live = config.into_live_config();
    assert_eq!(live.db, None);
    assert_eq!(live.fetch_size, 200);
}

#[test]
fn database_is_its_name() {
    let db = Database::from("neo4j");
    assert_eq!(db.as_ref(), "neo4j");
    assert_eq!(&*db, "neo4j");
    assert_eq!(db.clone(), Database::from("neo4j".to_string()));
    assert_eq!(Database::default().as_str(), "");
    assert_eq!(Database::new("x"), Database::from("x"));
}
