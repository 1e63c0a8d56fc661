use adp_trafic_aerien::config::{db_config, ConfigError, DbConfig};

fn s(x: &str) -> Option<String> {
    Some(x.to_string())
}

#[test]
fn defaults_apply_to_host_port_and_database() {
    let c = db_config(None, None, s("adp_user"), s("secret"), None).unwrap();
    assert_eq!(
        c,
        DbConfig {
            host: "127.0.0.1".to_string(),
            port: 3306,
            user: "adp_user".to_string(),
            password: "secret".to_string(),
            db_name: "trafic_aerien".to_string(),
        }
    );
}

#[test]
fn given_values_are_kept() {
    let c = db_config(s("db.local"), s("3307"), s("u"), s("p"), s("other")).unwrap();
    assert_eq!(c.host, "db.local");
    assert_eq!(c.port, 3307);
    assert_eq!(c.db_name, "other");
}

#[test]
fn bad_port_is_refused_first() {
    assert_eq!(db_config(None, s("abc"), None, None, None), Err(ConfigError::InvalidPort));
    assert_eq!(db_config(None, s("70000"), s("u"), s("p"), None), Err(ConfigError::InvalidPort));
}

#[test]
fn credentials_are_required() {
    assert_eq!(db_config(None, None, None, s("p"), None), Err(ConfigError::MissingUser));
    assert_eq!(db_config(None, None, s("u"), None, None), Err(ConfigError::MissingPassword));
    assert_eq!(db_config(None, None, None, None, None), Err(ConfigError::MissingUser));
}

#[test]
fn error_messages() {
    assert_eq!(ConfigError::InvalidPort.message(), "DB_PORT invalide");
    assert_eq!(ConfigError::MissingUser.message(), "DB_USER manquant dans l'environnement (.env)");
    assert_eq!(ConfigError::MissingPassword.message(), "DB_PASSWORD manquant dans l'environnement (.env)");
}
