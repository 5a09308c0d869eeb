//! Server configuration.

use vstd::prelude::*;

use crate::server::tick::Duration;

verus! {

/// What follows the profile properties when a login is confirmed.
///
/// Some versions of the game expect a "strict error handling" boolean there and
/// others do not; a client that disagrees rejects the packet outright.
#[derive(Debug, Clone, Copy, PartialEq, Eq, Structural)]
pub enum LoginFinishedFlag {
    /// Leave the flag off.
    Omit,
    /// Append the flag, cleared.
    SendFalse,
    /// Append the flag, set.
    SendTrue,
}

impl Default for LoginFinishedFlag {
    fn default() -> (flag: Self)
        ensures
            flag == LoginFinishedFlag::SendFalse,
    {
        LoginFinishedFlag::SendFalse
    }
}

/// The boolean to append, where there is one.
pub open spec fn trailing_flag(flag: LoginFinishedFlag) -> Option<bool> {
    match flag {
        LoginFinishedFlag::Omit => None,
        LoginFinishedFlag::SendFalse => Some(false),
        LoginFinishedFlag::SendTrue => Some(true),
    }
}

impl LoginFinishedFlag {
    /// The boolean to append, where there is one.
    #[must_use]
    pub fn value(self) -> (flag: Option<bool>)
        ensures
            flag == trailing_flag(self),
    {
        match self {
            LoginFinishedFlag::Omit => None,
            LoginFinishedFlag::SendFalse => Some(false),
            LoginFinishedFlag::SendTrue => Some(true),
        }
    }
}

/// Everything an operator can tune.
#[derive(Debug, Clone, PartialEq)]
pub struct ServerConfig {
    /// Address to listen on.
    pub bind: String,
    /// Message shown in the server list.
    pub motd: String,
    pub max_players: i32,
    /// Chunks sent around each player.
    pub view_distance: u8,
    /// Chunks ticked around each player. Clamped to `view_distance`.
    pub simulation_distance: u8,
    /// Packets at or above this size are compressed. Negative disables.
    pub compression_threshold: i32,
    /// Whether to verify identities against the session servers.
    pub online_mode: bool,
    /// What to append when a login is confirmed.
    pub login_finished_flag: LoginFinishedFlag,
    /// Target ticks per second.
    pub tick_rate: u32,
    /// How often to probe clients for liveness.
    pub keepalive_interval_secs: u64,
    /// Drop a client that has not answered a keep-alive within this long.
    pub keepalive_timeout_secs: u64,
    /// Generate a superflat world rather than an empty one.
    pub flat_world: bool,
}

/// Why a configuration could not be used.
#[derive(Debug)]
pub enum ConfigError {
    /// The file could not be read.
    Read { path: String, source: String },
    /// The file could not be written.
    Write { path: String, source: String },
    /// The file is not a configuration.
    Parse { path: String, source: String },
    /// A setting would misbehave at run time.
    Invalid(String),
}

/// The text of a [`ConfigError`].
pub open spec fn config_error_text(e: ConfigError) -> Seq<char> {
    match e {
        ConfigError::Read { path, source } => "reading "@ + path@ + ": "@ + source@,
        ConfigError::Write { path, source } => "writing "@ + path@ + ": "@ + source@,
        ConfigError::Parse { path, source } => "parsing "@ + path@ + ": "@ + source@,
        ConfigError::Invalid(why) => why@,
    }
}

fn about_path(doing: &str, path: &str, source: &str) -> (text: String)
    ensures
        text@ == doing@ + path@ + ": "@ + source@,
{
    let mut text = doing.to_owned();
    text.append(path);
    text.append(": ");
    text.append(source);
    text
}

impl ConfigError {
    /// The text to show.
    #[must_use]
    pub fn message(&self) -> (text: String)
        ensures
            text@ == config_error_text(*self),
    {
        match self {
            ConfigError::Read { path, source } => {
                about_path("reading ", path.as_str(), source.as_str())
            },
            ConfigError::Write { path, source } => {
                about_path("writing ", path.as_str(), source.as_str())
            },
            ConfigError::Parse { path, source } => {
                about_path("parsing ", path.as_str(), source.as_str())
            },
            ConfigError::Invalid(why) => why.as_str().to_owned(),
        }
    }
}

impl Default for ServerConfig {
    fn default() -> (config: Self)
        ensures
            config.bind@ == "0.0.0.0:25565"@,
            config.motd@ == "A Rukkit server"@,
            config.max_players == 20,
            config.view_distance == 10,
            config.simulation_distance == 10,
            config.compression_threshold == 256,
            !config.online_mode,
            config.login_finished_flag == LoginFinishedFlag::SendFalse,
            config.tick_rate == 20,
            config.keepalive_interval_secs == 15,
            config.keepalive_timeout_secs == 30,
            config.flat_world,
    {
        ServerConfig {
            bind: "0.0.0.0:25565".to_owned(),
            motd: "A Rukkit server".to_owned(),
            max_players: 20,
            view_distance: 10,
            simulation_distance: 10,
            compression_threshold: 256,
            // Offline by default: online mode needs session-server access, and
            // an operator should opt into it knowingly.
            online_mode: false,
            login_finished_flag: LoginFinishedFlag::SendFalse,
            tick_rate: 20,
            keepalive_interval_secs: 15,
            keepalive_timeout_secs: 30,
            flat_world: true,
        }
    }
}

/// The first thing that is wrong with a configuration, where anything is.
pub open spec fn fault(config: ServerConfig, bind_is_address: bool) -> Option<Seq<char>> {
    if !bind_is_address {
        Some("`"@ + config.bind@ + "` is not a valid address"@)
    } else if config.tick_rate == 0 {
        Some("tick_rate must be at least 1"@)
    } else if config.view_distance < 2 {
        Some("view_distance must be at least 2"@)
    } else if config.max_players < 0 {
        Some("max_players cannot be negative"@)
    } else if config.keepalive_timeout_secs <= config.keepalive_interval_secs {
        Some("keepalive_timeout_secs must exceed keepalive_interval_secs"@)
    } else {
        None
    }
}

/// What a failed check says.
pub open spec fn refusal(checked: Result<(), ConfigError>) -> Option<Seq<char>> {
    match checked {
        Ok(()) => None,
        Err(e) => Some(config_error_text(e)),
    }
}

/// The whole number of nanoseconds nearest to one second divided by `rate`.
///
/// A half goes up, but for three rates whose quotient in double precision is
/// rounded down.
pub open spec fn tick_nanos(rate: int) -> int {
    let whole = 1_000_000_000int / rate;
    let left = 1_000_000_000int % rate;
    if 2 * left < rate || rate == 1024 || rate == 16_000_000 || rate == 80_000_000 {
        whole
    } else {
        whole + 1
    }
}

/// The nearest whole number of nanoseconds is off by a half at most.
pub proof fn law_tick_nanos_is_nearest(rate: int)
    requires
        1 <= rate <= u32::MAX,
    ensures
        -rate <= 2 * (tick_nanos(rate) * rate - 1_000_000_000) <= rate,
{
    let whole = 1_000_000_000int / rate;
    vstd::arithmetic::div_mod::lemma_fundamental_div_mod(1_000_000_000, rate);
    vstd::arithmetic::div_mod::lemma_mod_bound(1_000_000_000, rate);
    assert(whole * rate == rate * whole) by (nonlinear_arith);
    assert((whole + 1) * rate == whole * rate + rate) by (nonlinear_arith);
    assert(1_000_000_000int % 1024 == 512);
    assert(1_000_000_000int % 16_000_000 == 8_000_000);
    assert(1_000_000_000int % 80_000_000 == 40_000_000);
}

impl ServerConfig {
    /// Rejects settings that would misbehave at run time rather than letting
    /// them fail obscurely later. `bind_is_address` says whether the bind
    /// address parses as one.
    pub fn validate(&self, bind_is_address: bool) -> (checked: Result<(), ConfigError>)
        ensures
            refusal(checked) == fault(*self, bind_is_address),
            checked matches Err(e) ==> e is Invalid,
    {
        if !bind_is_address {
            let mut why = "`".to_owned();
            why.append(self.bind.as_str());
            why.append("` is not a valid address");
            return Err(ConfigError::Invalid(why));
        }
        if self.tick_rate == 0 {
            return Err(ConfigError::Invalid("tick_rate must be at least 1".to_owned()));
        }
        if self.view_distance < 2 {
            return Err(ConfigError::Invalid("view_distance must be at least 2".to_owned()));
        }
        if self.max_players < 0 {
            return Err(ConfigError::Invalid("max_players cannot be negative".to_owned()));
        }
        if self.keepalive_timeout_secs <= self.keepalive_interval_secs {
            return Err(
                ConfigError::Invalid(
                    "keepalive_timeout_secs must exceed keepalive_interval_secs".to_owned(),
                ),
            );
        }
        Ok(())
    }

    /// Simulation distance never usefully exceeds view distance.
    #[must_use]
    pub fn effective_simulation_distance(&self) -> (chunks: u8)
        ensures
            chunks == if self.simulation_distance < self.view_distance {
                self.simulation_distance
            } else {
                self.view_distance
            },
            chunks == simulated(*self),
    {
        if self.simulation_distance < self.view_distance {
            self.simulation_distance
        } else {
            self.view_distance
        }
    }

    /// Compression threshold as an optional size, `None` when disabled.
    #[must_use]
    pub fn compression(&self) -> (threshold: Option<usize>)
        ensures
            threshold == threshold_of(*self),
    {
        if self.compression_threshold < 0 {
            None
        } else {
            Some(self.compression_threshold as usize)
        }
    }

    /// Duration of one tick at the configured rate.
    #[must_use]
    pub fn tick_duration(&self) -> (tick: Duration)
        ensures
            tick.nanos == tick_nanos(if self.tick_rate == 0 { 1 } else { self.tick_rate as int }),
            tick.nanos == tick_of(*self),
    {
        let rate: u64 = if self.tick_rate == 0 { 1 } else { self.tick_rate as u64 };
        let whole: u64 = 1_000_000_000 / rate;
        let left: u64 = 1_000_000_000 % rate;
        let nanos: u64 = if 2 * left < rate || rate == 1024 || rate == 16_000_000 || rate
            == 80_000_000 {
            whole
        } else {
            whole + 1
        };
        Duration { nanos: nanos as u128 }
    }
}

/// How far chunks are ticked: as far as is asked for and shown.
pub open spec fn simulated(config: ServerConfig) -> u8 {
    if config.simulation_distance < config.view_distance {
        config.simulation_distance
    } else {
        config.view_distance
    }
}

/// The nanoseconds of one tick. A rate of zero is taken for one.
pub open spec fn tick_of(config: ServerConfig) -> int {
    tick_nanos(
        if config.tick_rate == 0 {
            1
        } else {
            config.tick_rate as int
        },
    )
}

/// Chunks are ticked no further than they are shown, and no further than is asked
/// for; within those bounds as far as can be.
pub proof fn law_simulated_is_shown(config: ServerConfig, chunks: u8)
    ensures
        chunks <= simulated(config) <==> chunks <= config.view_distance && chunks
            <= config.simulation_distance,
{
}

/// A second has as many ticks as the rate says, to the nearest nanosecond of a
/// tick, and one where the rate is zero.
pub proof fn law_ticks_fill_a_second(config: ServerConfig)
    ensures
        config.tick_rate == 0 ==> tick_of(config) == 1_000_000_000,
        config.tick_rate > 0 ==> -config.tick_rate <= 2 * (tick_of(config) * config.tick_rate
            - 1_000_000_000) <= config.tick_rate,
{
    if config.tick_rate > 0 {
        law_tick_nanos_is_nearest(config.tick_rate as int);
    }
}

/// The size from which packets are compressed, where they are.
pub open spec fn threshold_of(config: ServerConfig) -> Option<usize> {
    if config.compression_threshold < 0 {
        None
    } else {
        Some(config.compression_threshold as usize)
    }
}

/// A configuration is fit for use just where its address is one, it ticks at
/// least once a second, shows at least two chunks, does not admit less than
/// nobody, and waits longer for an answer than between two questions.
pub proof fn law_fit_configuration(config: ServerConfig, bind_is_address: bool)
    ensures
        fault(config, bind_is_address) is None <==> {
            &&& bind_is_address
            &&& config.tick_rate >= 1
            &&& config.view_distance >= 2
            &&& config.max_players >= 0
            &&& config.keepalive_timeout_secs > config.keepalive_interval_secs
        },
{
}

/// What is wrong is looked for in a fixed order: the address, the rate, the view
/// distance, the number of players and the time-out. A later fault is told only
/// where there is none before it, and each is told by the name of its setting.
pub proof fn law_first_fault_is_told(config: ServerConfig, bind_is_address: bool)
    ensures
        ({
            let told = fault(config, bind_is_address);
            let named = |key: Seq<char>| told is Some && key.is_prefix_of(told->0);
            if !bind_is_address {
                named("`"@ + config.bind@ + "`"@)
            } else if config.tick_rate < 1 {
                named("tick_rate "@)
            } else if config.view_distance < 2 {
                named("view_distance "@)
            } else if config.max_players < 0 {
                named("max_players "@)
            } else {
                config.keepalive_timeout_secs <= config.keepalive_interval_secs ==> named(
                    "keepalive_timeout_secs "@,
                )
            }
        }),
{
    reveal_strlit("`");
    reveal_strlit("` is not a valid address");
    reveal_strlit("tick_rate ");
    reveal_strlit("tick_rate must be at least 1");
    reveal_strlit("view_distance ");
    reveal_strlit("view_distance must be at least 2");
    reveal_strlit("max_players ");
    reveal_strlit("max_players cannot be negative");
    reveal_strlit("keepalive_timeout_secs ");
    reveal_strlit("keepalive_timeout_secs must exceed keepalive_interval_secs");
}

/// Compression is off for a negative threshold and for no other; every other
/// threshold is taken as it is, zero too.
pub proof fn law_threshold(config: ServerConfig)
    ensures
        threshold_of(config) is None <==> config.compression_threshold < 0,
        threshold_of(config) matches Some(size) ==> size == config.compression_threshold,
{
}

/// A flag is sent just where it is not left off, and it is set just where it is
/// to be.
pub proof fn law_trailing_flag(flag: LoginFinishedFlag)
    ensures
        trailing_flag(flag) is None <==> flag == LoginFinishedFlag::Omit,
        trailing_flag(flag) == Some(true) <==> flag == LoginFinishedFlag::SendTrue,
{
}

/// A rate whose tick lies halfway between two numbers of nanoseconds takes the
/// larger, but for three.
pub proof fn law_half_goes_up(rate: int)
    requires
        1 <= rate <= u32::MAX,
        2 * (tick_nanos(rate) * rate - 1_000_000_000) == -rate,
    ensures
        rate == 1024 || rate == 16_000_000 || rate == 80_000_000,
{
    let whole = 1_000_000_000int / rate;
    vstd::arithmetic::div_mod::lemma_fundamental_div_mod(1_000_000_000, rate);
    assert(whole * rate == rate * whole) by (nonlinear_arith);
    assert((whole + 1) * rate == whole * rate + rate) by (nonlinear_arith);
}

/// What failed with a file is told first, then the file, then why.
pub proof fn law_file_errors_name_the_file(path: String, source: String)
    ensures
        ({
            let read = config_error_text(ConfigError::Read { path, source });
            let write = config_error_text(ConfigError::Write { path, source });
            let parse = config_error_text(ConfigError::Parse { path, source });
            &&& ("reading "@ + path@).is_prefix_of(read) && source@.is_suffix_of(read)
            &&& ("writing "@ + path@).is_prefix_of(write) && source@.is_suffix_of(write)
            &&& ("parsing "@ + path@).is_prefix_of(parse) && source@.is_suffix_of(parse)
        }),
        config_error_text(ConfigError::Invalid(source)) == source@,
{
}

} // verus!
