use activity_roles::config::{Config, ConnectionSettings, DiscordConfig, Environment, MysqlConfig};
use activity_roles::error::ConfigError;
use activity_roles::thresholds::RoleConfig;

fn some(text: &str) -> Option<String> {
    Some(String::from(text))
}

fn full_file() -> (DiscordConfig, MysqlConfig) {
    (
        DiscordConfig { token: some("file-token"), prefix: String::from("!") },
        MysqlConfig {
            host: String::from("db.example"),
            database: some("file-db"),
            username: some("file-user"),
            password: some("file-pass"),
        },
    )
}

fn bare_file() -> (DiscordConfig, MysqlConfig) {
    (
        DiscordConfig { token: None, prefix: String::from("~") },
        MysqlConfig {
            host: String::from("localhost"),
            database: None,
            username: None,
            password: None,
        },
    )
}

fn full_environment() -> Environment {
    Environment {
        token: some("env-token"),
        mysql_username: some("env-user"),
        mysql_database: some("env-db"),
        mysql_password: some("env-pass"),
    }
}

fn empty_environment() -> Environment {
    Environment { token: None, mysql_username: None, mysql_database: None, mysql_password: None }
}

fn roles() -> Vec<RoleConfig> {
    vec![RoleConfig { id: 100, messages: 5 }, RoleConfig { id: 200, messages: 20 }]
}

#[test]
fn the_file_wins_over_the_environment() {
    let (discord, mysql) = full_file();
    let config = Config::new(discord, mysql, roles(), full_environment()).unwrap();
    assert_eq!(config.discord.token, some("file-token"));
    assert_eq!(config.discord.prefix, "!");
    assert_eq!(config.mysql.host, "db.example");
    assert_eq!(config.mysql.username, some("file-user"));
    assert_eq!(config.mysql.database, some("file-db"));
    assert_eq!(config.mysql.password, some("file-pass"));
    assert_eq!(config.roles.entries(), &roles());
}

#[test]
fn the_file_alone_is_enough() {
    let (discord, mysql) = full_file();
    let config = Config::new(discord, mysql, roles(), empty_environment()).unwrap();
    assert_eq!(config.discord.token, some("file-token"));
    assert_eq!(config.mysql.password, some("file-pass"));
}

#[test]
fn the_environment_fills_what_the_file_leaves_out() {
    let (discord, mysql) = bare_file();
    let config = Config::new(discord, mysql, roles(), full_environment()).unwrap();
    assert_eq!(config.discord.token, some("env-token"));
    assert_eq!(config.discord.prefix, "~");
    assert_eq!(config.mysql.host, "localhost");
    assert_eq!(config.mysql.username, some("env-user"));
    assert_eq!(config.mysql.database, some("env-db"));
    assert_eq!(config.mysql.password, some("env-pass"));
}

#[test]
fn file_and_environment_mix_setting_by_setting() {
    let (discord, mut mysql) = bare_file();
    mysql.database = some("file-db");
    let mut environment = full_environment();
    environment.mysql_database = None;
    let config = Config::new(discord, mysql, roles(), environment).unwrap();
    assert_eq!(config.discord.token, some("env-token"));
    assert_eq!(config.mysql.database, some("file-db"));
    assert_eq!(config.mysql.username, some("env-user"));
}

#[test]
fn a_missing_token_is_an_error() {
    let (discord, mysql) = bare_file();
    let mut environment = full_environment();
    environment.token = None;
    assert_eq!(Config::new(discord, mysql, roles(), environment), Err(ConfigError::MissingToken));
}

#[test]
fn a_missing_username_is_an_error() {
    let (discord, mysql) = bare_file();
    let mut environment = full_environment();
    environment.mysql_username = None;
    assert_eq!(
        Config::new(discord, mysql, roles(), environment),
        Err(ConfigError::MissingUsername)
    );
}

#[test]
fn a_missing_database_is_an_error() {
    let (discord, mysql) = bare_file();
    let mut environment = full_environment();
    environment.mysql_database = None;
    assert_eq!(
        Config::new(discord, mysql, roles(), environment),
        Err(ConfigError::MissingDatabase)
    );
}

#[test]
fn a_missing_password_is_an_error() {
    let (discord, mysql) = bare_file();
    let mut environment = full_environment();
    environment.mysql_password = None;
    assert_eq!(
        Config::new(discord, mysql, roles(), environment),
        Err(ConfigError::MissingPassword)
    );
}

#[test]
fn missing_settings_are_reported_in_a_fixed_order() {
    let (discord, mysql) = bare_file();
    assert_eq!(
        Config::new(discord, mysql, roles(), empty_environment()),
        Err(ConfigError::MissingToken)
    );
    let (discord, mysql) = bare_file();
    let mut environment = empty_environment();
    environment.token = some("t");
    assert_eq!(
        Config::new(discord, mysql, roles(), environment),
        Err(ConfigError::MissingUsername)
    );
    let (discord, mysql) = bare_file();
    let mut environment = empty_environment();
    environment.token = some("t");
    environment.mysql_username = some("u");
    assert_eq!(
        Config::new(discord, mysql, roles(), environment),
        Err(ConfigError::MissingDatabase)
    );
}

#[test]
fn a_role_named_twice_is_an_error_before_anything_else() {
    let (discord, mysql) = bare_file();
    let twice = vec![RoleConfig { id: 100, messages: 5 }, RoleConfig { id: 100, messages: 6 }];
    assert_eq!(
        Config::new(discord, mysql, twice, empty_environment()),
        Err(ConfigError::DuplicateRole { id: 100 })
    );
}

#[test]
fn a_configuration_without_roles_is_accepted() {
    let (discord, mysql) = full_file();
    let config = Config::new(discord, mysql, Vec::new(), empty_environment()).unwrap();
    assert_eq!(config.roles.len(), 0);
}

#[test]
fn the_connection_settings_are_those_of_the_configuration() {
    let (discord, mysql) = bare_file();
    let config = Config::new(discord, mysql, roles(), full_environment()).unwrap();
    assert_eq!(
        config.mysql_connection(),
        Some(ConnectionSettings {
            host: String::from("localhost"),
            user: String::from("env-user"),
            password: String::from("env-pass"),
            database: String::from("env-db"),
        })
    );
}

#[test]
fn there_are_no_connection_settings_without_credentials() {
    let (discord, mysql) = full_file();
    let mut config = Config::new(discord, mysql, roles(), empty_environment()).unwrap();
    config.mysql.password = None;
    assert_eq!(config.mysql_connection(), None);
    config.mysql.password = some("p");
    config.mysql.username = None;
    assert_eq!(config.mysql_connection(), None);
    config.mysql.username = some("u");
    config.mysql.database = None;
    assert_eq!(config.mysql_connection(), None);
}

#[test]
fn a_cloned_configuration_is_the_same() {
    let (discord, mysql) = full_file();
    let config = Config::new(discord, mysql, roles(), empty_environment()).unwrap();
    assert_eq!(config.clone(), config);
    assert_eq!(full_environment().clone(), full_environment());
    let (discord, mysql) = bare_file();
    assert_eq!(discord.clone(), discord);
    assert_eq!(mysql.clone(), mysql);
    let settings = config.mysql_connection().unwrap();
    assert_eq!(settings.clone(), settings);
}

#[test]
fn each_error_says_what_is_wrong() {
    assert_eq!(ConfigError::MissingToken.message(), "Missing Discord token");
    assert_eq!(ConfigError::MissingUsername.message(), "Missing MySQL username");
    assert_eq!(ConfigError::MissingDatabase.message(), "Missing MySQL database");
    assert_eq!(ConfigError::MissingPassword.message(), "Missing MySQL password");
    assert_eq!(ConfigError::DuplicateRole { id: 100 }.message(), "Duplicate role id 100");
    assert_eq!(ConfigError::DuplicateRole { id: 0 }.message(), "Duplicate role id 0");
}

#[test]
fn a_threshold_line_is_at_home_in_the_configuration() {
    let line = activity_roles::config::RoleConfig { id: 1, messages: 2 };
    assert_eq!(line, RoleConfig { id: 1, messages: 2 });
}
