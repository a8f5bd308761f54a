//! Configuration model: persisted defaults merged with command-line
//! overrides into one immutable effective configuration.

use vstd::prelude::*;
use vstd::string::*;
use crate::errors::ConfigError;

verus! {

/// A sampling temperature, held in ten-thousandths so that the boundary
/// checks are exact integer comparisons (`10000` stands for `1.0`).
#[derive(Debug, Clone, Copy, PartialEq, Eq, Structural)]
pub struct Temperature {
    pub ten_thousandths: i32,
}

/// The allowed range is `[0.0, 2.0]`, both ends included.
pub open spec fn temperature_in_range(t: Temperature) -> bool {
    0 <= t.ten_thousandths <= 20000
}

/// Checks a sampling temperature against the allowed range `[0.0, 2.0]`.
pub fn validate_temperature(t: Temperature) -> (r: Result<Temperature, ConfigError>)
    ensures
        temperature_in_range(t) ==> r == Ok::<Temperature, ConfigError>(t),
        !temperature_in_range(t) ==> r == Err::<Temperature, ConfigError>(
            (ConfigError::OutOfRange { value: t }),
        ),
{
    if 0 <= t.ten_thousandths && t.ten_thousandths <= 20000 {
        Ok(t)
    } else {
        Err(ConfigError::OutOfRange { value: t })
    }
}

/// The persisted configuration, as read from the configuration file, and
/// also the shape of the effective configuration after merging.
#[derive(Debug)]
pub struct AppConfig {
    pub model: String,
    pub base_url: String,
    pub api_key: Option<String>,
    pub default_prompt: Option<String>,
    pub temperature: Option<Temperature>,
    pub timeout_secs: u64,
}

impl Default for AppConfig {
    /// The built-in defaults used when no configuration file exists yet:
    /// model `llama3`, a local endpoint, no key, no temperature, and a
    /// 300-second wait for the first chunk.
    fn default() -> (c: Self)
        ensures
            c.model@ == "llama3"@,
            c.base_url@ == "http://localhost:11434/v1"@,
            c.api_key is None,
            c.default_prompt is None,
            c.temperature is None,
            c.timeout_secs == 300,
    {
        AppConfig {
            model: String::from_str("llama3"),
            base_url: String::from_str("http://localhost:11434/v1"),
            api_key: None,
            default_prompt: None,
            temperature: None,
            timeout_secs: 300,
        }
    }
}

/// Optional command-line overrides for the persisted configuration.
#[derive(Debug)]
pub struct ConfigOverrides {
    pub model: Option<String>,
    pub base_url: Option<String>,
    pub api_key: Option<String>,
    pub temperature: Option<Temperature>,
    pub timeout: Option<u64>,
}

/// The temperature that survives the merge: the command-line value when one
/// was given, else the file value.
pub open spec fn effective_temperature(
    file: AppConfig,
    args: ConfigOverrides,
) -> Option<Temperature> {
    if args.temperature is Some {
        args.temperature
    } else {
        file.temperature
    }
}

/// Field-by-field statement of the merge: command-line override first, file
/// value second.
pub open spec fn merged(file: AppConfig, args: ConfigOverrides, c: AppConfig) -> bool {
    &&& c.model@ == (match args.model {
        Some(m) => m@,
        None => file.model@,
    })
    &&& c.base_url@ == (match args.base_url {
        Some(b) => b@,
        None => file.base_url@,
    })
    &&& c.api_key.deep_view() == (if args.api_key is Some {
        args.api_key.deep_view()
    } else {
        file.api_key.deep_view()
    })
    &&& c.default_prompt.deep_view() == file.default_prompt.deep_view()
    &&& c.temperature == effective_temperature(file, args)
    &&& c.timeout_secs == (match args.timeout {
        Some(t) => t,
        None => file.timeout_secs,
    })
}

/// Merges the file configuration with the command-line overrides.
///
/// Precedence is command line over file over nothing; the temperature that
/// survives the merge is validated, whichever source supplied it, and an
/// out-of-range value fails the whole resolution. A temperature absent from
/// both sources stays absent.
pub fn get_final_config(file: AppConfig, args: ConfigOverrides) -> (r: Result<
    AppConfig,
    ConfigError,
>)
    ensures
        r matches Ok(c) ==> merged(file, args, c),
        r is Ok <==> match effective_temperature(file, args) {
            Some(t) => temperature_in_range(t),
            None => true,
        },
        r matches Err(e) ==> {
            &&& effective_temperature(file, args) matches Some(t)
            &&& !temperature_in_range(t)
            &&& e == (ConfigError::OutOfRange {
                value: effective_temperature(file, args).unwrap(),
            })
        },
{
    let picked = match (args.temperature, file.temperature) {
        (Some(t), _) => Some(t),
        (None, Some(t)) => Some(t),
        (None, None) => None,
    };
    let temperature = match picked {
        Some(t) => match validate_temperature(t) {
            Ok(t2) => Some(t2),
            Err(e) => {
                return Err(e);
            },
        },
        None => None,
    };
    let model = match args.model {
        Some(m) => m,
        None => file.model,
    };
    let base_url = match args.base_url {
        Some(b) => b,
        None => file.base_url,
    };
    let api_key = match args.api_key {
        Some(k) => Some(k),
        None => file.api_key,
    };
    let timeout_secs = match args.timeout {
        Some(t) => t,
        None => file.timeout_secs,
    };
    Ok(
        AppConfig {
            model,
            base_url,
            api_key,
            default_prompt: file.default_prompt,
            temperature,
            timeout_secs,
        },
    )
}

} // verus!
