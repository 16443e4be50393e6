use vstd::prelude::*;
use vstd::string::{StrSliceExecFns, StringExecFns};

verus! {

/// Why a setting could not be taken.
#[derive(Clone, Debug)]
pub enum ConfigError {
    /// The variable with this name is not set (or is not unicode).
    EnvVarError(String),
    /// The variable with this name is set but empty.
    VarEmpty(String),
}

/// A configuration error as (whether the value was empty, the variable's name).
pub open spec fn error_view(e: ConfigError) -> (bool, Seq<char>) {
    match e {
        ConfigError::EnvVarError(k) => (false, k@),
        ConfigError::VarEmpty(k) => (true, k@),
    }
}

/// The error that a variable's value gives, if any.
pub open spec fn value_error(key: Seq<char>, value: Option<String>) -> Option<(bool, Seq<char>)> {
    match value {
        None => Some((false, key)),
        Some(v) => if v@.len() == 0 {
            Some((true, key))
        } else {
            None
        },
    }
}

pub const CHECK_BASE_URL: &'static str = "CHECK_BASE_URL";

pub const SEND_FROM_EMAIL: &'static str = "SEND_FROM_EMAIL";

pub const SEND_TO_EMAIL: &'static str = "SEND_TO_EMAIL";

pub const STATS_FILE: &'static str = "STATS_FILE";

pub const SERVICE_ACCOUNT_FILE_PATH: &'static str = "SERVICE_ACCOUNT_FILE_PATH";

/// The error of the first variable, in the order they are read, that is unset or
/// empty.
pub open spec fn first_error(
    check_base_url: Option<String>,
    send_from_email: Option<String>,
    send_to_email: Option<String>,
    stats_file: Option<String>,
    service_account_file_path: Option<String>,
) -> Option<(bool, Seq<char>)> {
    if value_error(CHECK_BASE_URL@, check_base_url) is Some {
        value_error(CHECK_BASE_URL@, check_base_url)
    } else if value_error(SEND_FROM_EMAIL@, send_from_email) is Some {
        value_error(SEND_FROM_EMAIL@, send_from_email)
    } else if value_error(SEND_TO_EMAIL@, send_to_email) is Some {
        value_error(SEND_TO_EMAIL@, send_to_email)
    } else if value_error(STATS_FILE@, stats_file) is Some {
        value_error(STATS_FILE@, stats_file)
    } else {
        value_error(SERVICE_ACCOUNT_FILE_PATH@, service_account_file_path)
    }
}

/// The settings of the pinger.
#[derive(Clone, Debug)]
pub struct Config {
    pub check_base_url: String,
    pub send_from_email: String,
    pub send_to_email: String,
    pub stats_file: String,
    pub email_config: EmailConfig,
}

/// How failure emails are sent.
#[derive(Clone, Debug)]
pub enum EmailConfig {
    Gmail(GmailConfig),
}

/// The settings of the Gmail transport.
#[derive(Clone, Debug)]
pub struct GmailConfig {
    pub service_account_file_path: String,
}

/// Takes the value of the variable `key`: it must be set and not empty.
pub fn load_env_str(key: &str, value: Option<String>) -> (r: Result<String, ConfigError>)
    ensures
        match value_error(key@, value) {
            Some(e) => r matches Err(x) && error_view(x) == e,
            None => r matches Ok(v) && value == Some(v),
        },
{
    match value {
        None => Err(ConfigError::EnvVarError(String::from_str(key))),
        Some(v) => {
            if v.as_str().unicode_len() == 0 {
                Err(ConfigError::VarEmpty(String::from_str(key)))
            } else {
                Ok(v)
            }
        },
    }
}

impl Config {
    /// Whether the settings are these values.
    pub open spec fn holds(
        self,
        check_base_url: Option<String>,
        send_from_email: Option<String>,
        send_to_email: Option<String>,
        stats_file: Option<String>,
        service_account_file_path: Option<String>,
    ) -> bool {
        &&& check_base_url == Some(self.check_base_url)
        &&& send_from_email == Some(self.send_from_email)
        &&& send_to_email == Some(self.send_to_email)
        &&& stats_file == Some(self.stats_file)
        &&& match self.email_config {
            EmailConfig::Gmail(g) => service_account_file_path == Some(g.service_account_file_path),
        }
    }

    /// Builds the settings from the variables' values, checked in this order:
    /// `CHECK_BASE_URL`, `SEND_FROM_EMAIL`, `SEND_TO_EMAIL`, `STATS_FILE`,
    /// `SERVICE_ACCOUNT_FILE_PATH`; the first that is unset or empty is the error.
    pub fn new(
        check_base_url: Option<String>,
        send_from_email: Option<String>,
        send_to_email: Option<String>,
        stats_file: Option<String>,
        service_account_file_path: Option<String>,
    ) -> (r: Result<Config, ConfigError>)
        ensures
            match first_error(
                check_base_url,
                send_from_email,
                send_to_email,
                stats_file,
                service_account_file_path,
            ) {
                Some(e) => r matches Err(x) && error_view(x) == e,
                None => r matches Ok(c) && c.holds(
                    check_base_url,
                    send_from_email,
                    send_to_email,
                    stats_file,
                    service_account_file_path,
                ),
            },
    {
        let check_base_url = match load_env_str(CHECK_BASE_URL, check_base_url) {
            Ok(v) => v,
            Err(e) => {
                return Err(e);
            },
        };
        let send_from_email = match load_env_str(SEND_FROM_EMAIL, send_from_email) {
            Ok(v) => v,
            Err(e) => {
                return Err(e);
            },
        };
        let send_to_email = match load_env_str(SEND_TO_EMAIL, send_to_email) {
            Ok(v) => v,
            Err(e) => {
                return Err(e);
            },
        };
        let stats_file = match load_env_str(STATS_FILE, stats_file) {
            Ok(v) => v,
            Err(e) => {
                return Err(e);
            },
        };
        let service_account_file_path = match load_env_str(
            SERVICE_ACCOUNT_FILE_PATH,
            service_account_file_path,
        ) {
            Ok(v) => v,
            Err(e) => {
                return Err(e);
            },
        };
        Ok(
            Config {
                check_base_url,
                send_from_email,
                send_to_email,
                stats_file,
                email_config: EmailConfig::Gmail(GmailConfig { service_account_file_path }),
            },
        )
    }
}

} // verus!
