//! The server's configuration, as plain values.

use vstd::prelude::*;
use vstd::string::StringExecFns;

verus! {

pub struct ServerConfig {
    pub url: String,
    pub port: Option<u16>,
    pub rtbot: RtBotConfig,
    pub redis: Option<RedisConfig>,
    pub input_ws: Option<InputWsConfig>,
}

/// An upstream websocket whose messages feed the input key.
pub struct InputWsConfig {
    pub url: String,
    pub operator_id: String,
    pub json_remap: InputJsonPath,
}

/// Where, in an upstream JSON message, the timestamp and the values are
/// (JSONPath expressions). Without a timestamp path the arrival time is
/// used.
pub struct InputJsonPath {
    pub timestamp: Option<String>,
    pub values: Vec<String>,
}

impl Default for InputJsonPath {
    /// The timestamp at `$.timestamp`, one value at `$.value`.
    fn default() -> (r: Self)
        ensures
            r.timestamp matches Some(t) && t@ == "$.timestamp"@,
            r.values@.len() == 1,
            r.values@[0]@ == "$.value"@,
    {
        let mut values: Vec<String> = Vec::new();
        values.push(String::from_str("$.value"));
        InputJsonPath { timestamp: Some(String::from_str("$.timestamp")), values }
    }
}

pub struct RedisConfig {
    pub connection: String,
    pub input_key: String,
    pub output_key: String,
}

pub struct RtBotConfig {
    pub program: RtBotConfigProgram,
}

/// The program, as JSON text or as YAML text.
pub struct RtBotConfigProgram {
    pub json: Option<String>,
    pub yaml: Option<String>,
}

} // verus!
