//! The configuration: what the file says, what the environment adds, and
//! what is refused.

use crate::error::ConfigError;
pub use crate::thresholds::RoleConfig;
use crate::thresholds::{
    distinct_ids, duplicate_role, lemma_distinct_has_no_repeat, ThresholdTable,
};
use vstd::prelude::*;

verus! {

/// How to reach the chat platform.
#[derive(Debug, PartialEq, Eq)]
pub struct DiscordConfig {
    /// The platform token. A configuration file may leave it out.
    pub token: Option<String>,
    /// What a message must start with to be read as a command.
    pub prefix: String,
}

/// How to reach the database. A configuration file may leave out
/// everything but the host.
#[derive(Debug, PartialEq, Eq)]
pub struct MysqlConfig {
    pub host: String,
    pub database: Option<String>,
    pub username: Option<String>,
    pub password: Option<String>,
}

/// What the environment offers for the settings that a configuration file
/// may leave out.
#[derive(Debug, PartialEq, Eq)]
pub struct Environment {
    pub token: Option<String>,
    pub mysql_username: Option<String>,
    pub mysql_database: Option<String>,
    pub mysql_password: Option<String>,
}

/// All that is needed to open a database connection.
#[derive(Debug, PartialEq, Eq)]
pub struct ConnectionSettings {
    pub host: String,
    pub user: String,
    pub password: String,
    pub database: String,
}

/// The configuration the program runs with.
#[derive(Debug, PartialEq, Eq)]
pub struct Config {
    pub discord: DiscordConfig,
    pub mysql: MysqlConfig,
    pub roles: ThresholdTable,
}

fn copy_of(setting: &Option<String>) -> (r: Option<String>)
    ensures
        r == *setting,
{
    match setting {
        Some(value) => Some(value.clone()),
        None => None,
    }
}

impl Clone for DiscordConfig {
    fn clone(&self) -> (r: DiscordConfig)
        ensures
            r == *self,
    {
        DiscordConfig { token: copy_of(&self.token), prefix: self.prefix.clone() }
    }
}

impl Clone for MysqlConfig {
    fn clone(&self) -> (r: MysqlConfig)
        ensures
            r == *self,
    {
        MysqlConfig {
            host: self.host.clone(),
            database: copy_of(&self.database),
            username: copy_of(&self.username),
            password: copy_of(&self.password),
        }
    }
}

impl Clone for Environment {
    fn clone(&self) -> (r: Environment)
        ensures
            r == *self,
    {
        Environment {
            token: copy_of(&self.token),
            mysql_username: copy_of(&self.mysql_username),
            mysql_database: copy_of(&self.mysql_database),
            mysql_password: copy_of(&self.mysql_password),
        }
    }
}

impl Clone for ConnectionSettings {
    fn clone(&self) -> (r: ConnectionSettings)
        ensures
            r == *self,
    {
        ConnectionSettings {
            host: self.host.clone(),
            user: self.user.clone(),
            password: self.password.clone(),
            database: self.database.clone(),
        }
    }
}

impl Clone for Config {
    fn clone(&self) -> (r: Config)
        ensures
            r.discord == self.discord,
            r.mysql == self.mysql,
            r.roles@ == self.roles@,
    {
        Config { discord: self.discord.clone(), mysql: self.mysql.clone(), roles: self.roles.clone() }
    }
}

/// A setting as it is used: the file's value where the file has one, else
/// the environment's.
pub open spec fn resolved(from_file: Option<String>, from_environment: Option<String>) -> Option<
    String,
> {
    if from_file is Some {
        from_file
    } else {
        from_environment
    }
}

/// Why `Config::new` refuses its arguments, if it does: a role named twice
/// comes first, then the first setting that neither the file nor the
/// environment has, in the order token, user, database, password.
pub open spec fn load_error(
    discord: DiscordConfig,
    mysql: MysqlConfig,
    roles: Seq<RoleConfig>,
    environment: Environment,
) -> Option<ConfigError> {
    if let Some(id) = duplicate_role(roles) {
        Some(ConfigError::DuplicateRole { id })
    } else if resolved(discord.token, environment.token) is None {
        Some(ConfigError::MissingToken)
    } else if resolved(mysql.username, environment.mysql_username) is None {
        Some(ConfigError::MissingUsername)
    } else if resolved(mysql.database, environment.mysql_database) is None {
        Some(ConfigError::MissingDatabase)
    } else if resolved(mysql.password, environment.mysql_password) is None {
        Some(ConfigError::MissingPassword)
    } else {
        None
    }
}

fn or_else(from_file: Option<String>, from_environment: Option<String>) -> (r: Option<String>)
    ensures
        r == resolved(from_file, from_environment),
{
    match from_file {
        Some(value) => Some(value),
        None => from_environment,
    }
}

impl Config {
    /// Puts a configuration together from what the file says and what the
    /// environment offers. The threshold table must not name a role twice,
    /// and the token and the database user, name and password must each
    /// come from one of the two; the file wins where both have a value.
    pub fn new(
        discord: DiscordConfig,
        mysql: MysqlConfig,
        roles: Vec<RoleConfig>,
        environment: Environment,
    ) -> (r: Result<Config, ConfigError>)
        ensures
            match r {
                Ok(config) => {
                    &&& load_error(discord, mysql, roles@, environment) is None
                    &&& config.discord.token == resolved(discord.token, environment.token)
                    &&& config.discord.prefix == discord.prefix
                    &&& config.mysql.host == mysql.host
                    &&& config.mysql.username == resolved(
                        mysql.username,
                        environment.mysql_username,
                    )
                    &&& config.mysql.database == resolved(
                        mysql.database,
                        environment.mysql_database,
                    )
                    &&& config.mysql.password == resolved(
                        mysql.password,
                        environment.mysql_password,
                    )
                    &&& config.roles@ == roles@
                    &&& distinct_ids(roles@)
                },
                Err(e) => load_error(discord, mysql, roles@, environment) == Some(e),
            },
    {
        proof {
            lemma_distinct_has_no_repeat(roles@);
        }
        let table = match ThresholdTable::new(roles) {
            Ok(table) => table,
            Err(e) => {
                return Err(e);
            },
        };
        let token = or_else(discord.token, environment.token);
        if token.is_none() {
            return Err(ConfigError::MissingToken);
        }
        let username = or_else(mysql.username, environment.mysql_username);
        if username.is_none() {
            return Err(ConfigError::MissingUsername);
        }
        let database = or_else(mysql.database, environment.mysql_database);
        if database.is_none() {
            return Err(ConfigError::MissingDatabase);
        }
        let password = or_else(mysql.password, environment.mysql_password);
        if password.is_none() {
            return Err(ConfigError::MissingPassword);
        }
        Ok(
            Config {
                discord: DiscordConfig { token, prefix: discord.prefix },
                mysql: MysqlConfig { host: mysql.host, database, username, password },
                roles: table,
            },
        )
    }

    /// The settings to open the database connection with, or `None` where
    /// the user, the password or the database is not known. A configuration
    /// made by [`Config::new`] knows all three.
    pub fn mysql_connection(&self) -> (r: Option<ConnectionSettings>)
        ensures
            match r {
                Some(settings) => {
                    &&& settings.host == self.mysql.host
                    &&& self.mysql.username == Some(settings.user)
                    &&& self.mysql.password == Some(settings.password)
                    &&& self.mysql.database == Some(settings.database)
                },
                None => {
                    ||| self.mysql.username is None
                    ||| self.mysql.password is None
                    ||| self.mysql.database is None
                },
            },
    {
        let user = match &self.mysql.username {
            Some(user) => user.clone(),
            None => {
                return None;
            },
        };
        let password = match &self.mysql.password {
            Some(password) => password.clone(),
            None => {
                return None;
            },
        };
        let database = match &self.mysql.database {
            Some(database) => database.clone(),
            None => {
                return None;
            },
        };
        Some(ConnectionSettings { host: self.mysql.host.clone(), user, password, database })
    }
}

} // verus!
