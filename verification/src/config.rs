//! Fault settings and the merging of configuration sources.

use crate::probability::{law_comparisons_are_numeric, Probability};
use crate::rng::random_seed;
use vstd::arithmetic::power2::pow2;
use vstd::prelude::*;
use vstd::std_specs::cmp::PartialEqSpec;

verus! {

/// Fault settings for one direction of traffic.
///
/// All fields default to a benign value: `0` for delays / bit-flips, zero for
/// probabilities. A `FaultConfig::default()` is equivalent to "do nothing".
#[derive(Debug, Clone, Copy)]
pub struct FaultConfig {
    /// Fixed delay applied to every forwarded chunk, in milliseconds.
    pub latency_ms: u64,
    /// Additional random delay uniformly sampled from `[0, latency_jitter_ms]`.
    pub latency_jitter_ms: u64,
    /// Probability (0.0..=1.0) that any given chunk is silently dropped.
    pub drop_probability: Probability,
    /// Probability (0.0..=1.0) that any given chunk has bits flipped before forwarding.
    pub corrupt_probability: Probability,
    /// Number of bits to flip when corruption fires. Zero means "no bits flipped
    /// even if corrupt_probability is nonzero" (useful for smoke tests).
    pub corrupt_bits: u32,
    /// Probability (0.0..=1.0) that the connection is dropped after forwarding a chunk.
    pub close_probability: Probability,
}

/// The probability settings, in the order in which they are validated.
#[derive(Debug, Clone, Copy, PartialEq, Eq, Structural)]
pub enum ProbabilityField {
    Drop,
    Corrupt,
    Close,
}

impl ProbabilityField {
    /// The name of the setting.
    pub open spec fn name(self) -> Seq<char> {
        match self {
            ProbabilityField::Drop => "drop_probability"@,
            ProbabilityField::Corrupt => "corrupt_probability"@,
            ProbabilityField::Close => "close_probability"@,
        }
    }

    /// The name of the setting, as written in a config file.
    pub fn as_str(self) -> (name: &'static str)
        ensures
            name@ == self.name(),
    {
        match self {
            ProbabilityField::Drop => "drop_probability",
            ProbabilityField::Corrupt => "corrupt_probability",
            ProbabilityField::Close => "close_probability",
        }
    }
}

/// Why a configuration was refused.
#[derive(Debug, Clone)]
pub enum ConfigError {
    /// Neither source names an address to listen on.
    MissingListen,
    /// Neither source names an address to forward to.
    MissingTarget,
    /// A probability setting lies outside the unit interval, or is not a number.
    ProbabilityOutOfRange { section: String, field: ProbabilityField, value: Probability },
}

impl ConfigError {
    /// The text of the error, the offending number written as `shown`.
    pub open spec fn text(self, shown: Seq<char>) -> Seq<char> {
        match self {
            ConfigError::MissingListen =>
                "`listen` must be provided via --listen or in the config file"@,
            ConfigError::MissingTarget =>
                "`target` must be provided via --target or in the config file"@,
            ConfigError::ProbabilityOutOfRange { section, field, value } => section@ + "."@
                + field.name() + " must be in [0.0, 1.0], got "@ + shown,
        }
    }

    /// A description of the error for the user. `shown` is the offending number in
    /// decimal; it matters for out-of-range probabilities only.
    pub fn message(&self, shown: &str) -> (text: String)
        ensures
            text@ == self.text(shown@),
    {
        match self {
            ConfigError::MissingListen => {
                String::from_str("`listen` must be provided via --listen or in the config file")
            },
            ConfigError::MissingTarget => {
                String::from_str("`target` must be provided via --target or in the config file")
            },
            ConfigError::ProbabilityOutOfRange { section, field, value: _ } => {
                let mut text = section.clone();
                text.append(".");
                text.append(field.as_str());
                text.append(" must be in [0.0, 1.0], got ");
                text.append(shown);
                text
            },
        }
    }

    /// The error says that `field` of `section` holds the unacceptable `value`.
    pub open spec fn reports(
        self,
        section: Seq<char>,
        field: ProbabilityField,
        value: Probability,
    ) -> bool {
        self matches ConfigError::ProbabilityOutOfRange { section: s, field: f, value: v } && s@
            == section && f == field && v == value
    }
}

impl FaultConfig {
    /// The value of a probability setting.
    pub open spec fn probability(self, field: ProbabilityField) -> Probability {
        match field {
            ProbabilityField::Drop => self.drop_probability,
            ProbabilityField::Corrupt => self.corrupt_probability,
            ProbabilityField::Close => self.close_probability,
        }
    }

    /// All three probabilities lie in the unit interval.
    pub open spec fn valid(self) -> bool {
        forall|field: ProbabilityField| (#[trigger] self.probability(field)).in_unit_interval()
    }

    /// The first setting that is out of range, if there is one.
    pub open spec fn first_invalid(self) -> Option<ProbabilityField> {
        if !self.drop_probability.in_unit_interval() {
            Some(ProbabilityField::Drop)
        } else if !self.corrupt_probability.in_unit_interval() {
            Some(ProbabilityField::Corrupt)
        } else if !self.close_probability.in_unit_interval() {
            Some(ProbabilityField::Close)
        } else {
            None
        }
    }

    /// `res` is the verdict on these settings under the heading `name`.
    pub open spec fn judged(self, name: Seq<char>, res: Result<(), ConfigError>) -> bool {
        match (self.first_invalid(), res) {
            (None, Ok(())) => true,
            (Some(field), Err(err)) => err.reports(name, field, self.probability(field)),
            _ => false,
        }
    }

    /// Checks that every probability lies in `[0.0, 1.0]` and reports the first one
    /// that does not, under the heading `name`.
    pub fn validate(&self, name: &str) -> (res: Result<(), ConfigError>)
        ensures
            res is Ok <==> self.valid(),
            self.judged(name@, res),
    {
        proof {
            assert(self.probability(ProbabilityField::Drop) == self.drop_probability);
            assert(self.probability(ProbabilityField::Corrupt) == self.corrupt_probability);
            assert(self.probability(ProbabilityField::Close) == self.close_probability);
        }
        Self::check_prob(name, ProbabilityField::Drop, self.drop_probability)?;
        Self::check_prob(name, ProbabilityField::Corrupt, self.corrupt_probability)?;
        Self::check_prob(name, ProbabilityField::Close, self.close_probability)?;
        Ok(())
    }

    fn check_prob(section: &str, field: ProbabilityField, value: Probability) -> (res: Result<
        (),
        ConfigError,
    >)
        ensures
            res is Ok <==> value.in_unit_interval(),
            res matches Err(err) ==> err.reports(section@, field, value),
    {
        if value.is_in_unit_interval() {
            Ok(())
        } else {
            Err(
                ConfigError::ProbabilityOutOfRange {
                    section: String::from_str(section),
                    field,
                    value,
                },
            )
        }
    }

    /// The settings that inject nothing.
    pub open spec fn benign() -> FaultConfig {
        FaultConfig {
            latency_ms: 0,
            latency_jitter_ms: 0,
            drop_probability: Probability { bits: 0 },
            corrupt_probability: Probability { bits: 0 },
            corrupt_bits: 0,
            close_probability: Probability { bits: 0 },
        }
    }
}

impl Default for FaultConfig {
    fn default() -> (config: Self)
        ensures
            config == FaultConfig::benign(),
    {
        FaultConfig {
            latency_ms: 0,
            latency_jitter_ms: 0,
            drop_probability: Probability::from_bits(0),
            corrupt_probability: Probability::from_bits(0),
            corrupt_bits: 0,
            close_probability: Probability::from_bits(0),
        }
    }
}

impl PartialEq for FaultConfig {
    fn eq(&self, other: &Self) -> (r: bool) {
        self.latency_ms == other.latency_ms && self.latency_jitter_ms == other.latency_jitter_ms
            && self.drop_probability == other.drop_probability && self.corrupt_probability
            == other.corrupt_probability && self.corrupt_bits == other.corrupt_bits
            && self.close_probability == other.close_probability
    }
}

impl vstd::std_specs::cmp::PartialEqSpecImpl for FaultConfig {
    open spec fn obeys_eq_spec() -> bool {
        true
    }

    open spec fn eq_spec(&self, other: &Self) -> bool {
        &&& self.latency_ms == other.latency_ms
        &&& self.latency_jitter_ms == other.latency_jitter_ms
        &&& self.drop_probability.same_number(other.drop_probability)
        &&& self.corrupt_probability.same_number(other.corrupt_probability)
        &&& self.corrupt_bits == other.corrupt_bits
        &&& self.close_probability.same_number(other.close_probability)
    }
}

/// Raw config as read from a TOML file. All fields are optional so the file can
/// be partial (CLI flags fill in the rest) or omitted entirely. `A` is the type of
/// socket addresses, which are handed on and never looked into.
#[derive(Debug, Clone)]
pub struct FileConfig<A> {
    pub listen: Option<A>,
    pub target: Option<A>,
    pub seed: Option<u64>,
    pub client_to_server: FaultConfig,
    pub server_to_client: FaultConfig,
}

impl<A> Default for FileConfig<A> {
    fn default() -> (file: Self)
        ensures
            file.listen is None,
            file.target is None,
            file.seed is None,
            file.client_to_server == FaultConfig::benign(),
            file.server_to_client == FaultConfig::benign(),
    {
        FileConfig {
            listen: None,
            target: None,
            seed: None,
            client_to_server: FaultConfig::default(),
            server_to_client: FaultConfig::default(),
        }
    }
}

/// CLI-supplied overrides for top-level runtime settings.
#[derive(Debug, Clone)]
pub struct CliOverrides<A> {
    pub listen: Option<A>,
    pub target: Option<A>,
    pub seed: Option<u64>,
}

impl<A> Default for CliOverrides<A> {
    fn default() -> (cli: Self)
        ensures
            cli.listen is None,
            cli.target is None,
            cli.seed is None,
    {
        CliOverrides { listen: None, target: None, seed: None }
    }
}

/// Fully resolved runtime configuration. Constructed by merging a `FileConfig`
/// with `CliOverrides`; CLI values win.
#[derive(Debug, Clone)]
pub struct Config<A> {
    pub listen: A,
    pub target: A,
    pub seed: u64,
    pub client_to_server: FaultConfig,
    pub server_to_client: FaultConfig,
}

/// The setting of the stronger source, or that of the weaker one where the
/// stronger is silent.
pub open spec fn preferred<T>(stronger: Option<T>, weaker: Option<T>) -> Option<T> {
    if stronger is Some {
        stronger
    } else {
        weaker
    }
}

/// What merging `file` and `cli` gives, if `drawn` is the seed to use where
/// neither source has one.
pub open spec fn resolves_to<A>(
    file: FileConfig<A>,
    cli: CliOverrides<A>,
    drawn: u64,
    res: Result<Config<A>, ConfigError>,
) -> bool {
    let listen = preferred(cli.listen, file.listen);
    let target = preferred(cli.target, file.target);
    match (listen, target) {
        (None, _) => res matches Err(ConfigError::MissingListen),
        (Some(_), None) => res matches Err(ConfigError::MissingTarget),
        (Some(listen), Some(target)) => match (
            file.client_to_server.first_invalid(),
            file.server_to_client.first_invalid(),
        ) {
            (Some(field), _) => res matches Err(err) && err.reports(
                "client_to_server"@,
                field,
                file.client_to_server.probability(field),
            ),
            (None, Some(field)) => res matches Err(err) && err.reports(
                "server_to_client"@,
                field,
                file.server_to_client.probability(field),
            ),
            (None, None) => res matches Ok(config) && config == (Config {
                listen,
                target,
                seed: preferred(preferred(cli.seed, file.seed), Some(drawn))->0,
                client_to_server: file.client_to_server,
                server_to_client: file.server_to_client,
            }),
        },
    }
}

/// The setting of the stronger source, else that of the weaker one.
fn prefer<T>(stronger: Option<T>, weaker: Option<T>) -> (r: Option<T>)
    ensures
        r == preferred(stronger, weaker),
{
    match stronger {
        Some(value) => Some(value),
        None => weaker,
    }
}

impl<A> Config<A> {
    /// Both directions have usable settings.
    pub open spec fn valid(self) -> bool {
        self.client_to_server.valid() && self.server_to_client.valid()
    }

    /// Merge a parsed file config with CLI overrides. CLI wins on any conflict.
    /// If neither source specifies a seed, one is drawn from the OS entropy pool
    /// so it can still be logged and reproduced.
    pub fn resolve(file: FileConfig<A>, cli: CliOverrides<A>) -> (res: Result<Self, ConfigError>)
        ensures
            exists|drawn: u64| #[trigger] resolves_to(file, cli, drawn, res),
            res matches Ok(config) ==> config.valid(),
    {
        let drawn: u64 = if cli.seed.is_some() || file.seed.is_some() {
            0
        } else {
            random_seed()
        };
        let res = Self::resolve_with_seed(file, cli, drawn);
        assert(resolves_to(file, cli, drawn, res));
        res
    }

    /// Merge a parsed file config with CLI overrides. CLI wins on any conflict, and
    /// `drawn` is the seed where neither source specifies one.
    pub fn resolve_with_seed(file: FileConfig<A>, cli: CliOverrides<A>, drawn: u64) -> (res: Result<
        Self,
        ConfigError,
    >)
        ensures
            resolves_to(file, cli, drawn, res),
            res matches Ok(config) ==> config.valid(),
    {
        let listen = match prefer(cli.listen, file.listen) {
            Some(addr) => addr,
            None => return Err(ConfigError::MissingListen),
        };
        let target = match prefer(cli.target, file.target) {
            Some(addr) => addr,
            None => return Err(ConfigError::MissingTarget),
        };
        let seed: u64 = match prefer(cli.seed, file.seed) {
            Some(seed) => seed,
            None => drawn,
        };
        file.client_to_server.validate("client_to_server")?;
        file.server_to_client.validate("server_to_client")?;
        Ok(
            Config {
                listen,
                target,
                seed,
                client_to_server: file.client_to_server,
                server_to_client: file.server_to_client,
            },
        )
    }
}

/// What the command line sets is what the configuration holds.
pub proof fn law_cli_wins<A>(
    file: FileConfig<A>,
    cli: CliOverrides<A>,
    drawn: u64,
    res: Result<Config<A>, ConfigError>,
)
    requires
        resolves_to(file, cli, drawn, res),
    ensures
        res matches Ok(config) ==> {
            &&& cli.listen matches Some(addr) ==> config.listen == addr
            &&& cli.target matches Some(addr) ==> config.target == addr
            &&& cli.seed matches Some(seed) ==> config.seed == seed
        },
{
}

/// What the command line leaves open comes from the file.
pub proof fn law_file_fills_in<A>(
    file: FileConfig<A>,
    cli: CliOverrides<A>,
    drawn: u64,
    res: Result<Config<A>, ConfigError>,
)
    requires
        resolves_to(file, cli, drawn, res),
    ensures
        res matches Ok(config) ==> {
            &&& cli.listen is None ==> file.listen == Some(config.listen)
            &&& cli.target is None ==> file.target == Some(config.target)
            &&& cli.seed is None ==> (file.seed matches Some(seed) ==> config.seed == seed)
            &&& config.client_to_server == file.client_to_server
            &&& config.server_to_client == file.server_to_client
        },
{
}

/// Merging succeeds exactly if both addresses are known and every probability of
/// the file is usable.
pub proof fn law_resolve_succeeds_when<A>(
    file: FileConfig<A>,
    cli: CliOverrides<A>,
    drawn: u64,
    res: Result<Config<A>, ConfigError>,
)
    requires
        resolves_to(file, cli, drawn, res),
    ensures
        res is Ok <==> {
            &&& cli.listen is Some || file.listen is Some
            &&& cli.target is Some || file.target is Some
            &&& file.client_to_server.valid()
            &&& file.server_to_client.valid()
        },
{
    law_valid_means_no_invalid_field(file.client_to_server);
    law_valid_means_no_invalid_field(file.server_to_client);
}

/// Validation accepts settings exactly if each of the three probabilities is a number
/// from zero to one, and otherwise names the first that is not, in the order drop,
/// corrupt, close. One is 2^1074 units.
pub proof fn law_validation(config: FaultConfig, name: Seq<char>, res: Result<(), ConfigError>)
    requires
        config.judged(name, res),
    ensures
        ({
            let good = |p: Probability|
                !p.is_nan() && (!p.negative() || p.magnitude() == 0) && p.magnitude() <= pow2(1074);
            let refused = |f: ProbabilityField, p: Probability|
                res matches Err(ConfigError::ProbabilityOutOfRange { section, field, value })
                    && section@ == name && field == f && value.bits == p.bits;
            if !good(config.drop_probability) {
                refused(ProbabilityField::Drop, config.drop_probability)
            } else if !good(config.corrupt_probability) {
                refused(ProbabilityField::Corrupt, config.corrupt_probability)
            } else if !good(config.close_probability) {
                refused(ProbabilityField::Close, config.close_probability)
            } else {
                res is Ok
            }
        }),
        config.valid() <==> res is Ok,
{
    law_comparisons_are_numeric(config.drop_probability);
    law_comparisons_are_numeric(config.corrupt_probability);
    law_comparisons_are_numeric(config.close_probability);
    law_valid_means_no_invalid_field(config);
}

/// Merging fails first for want of an address to listen on, then for want of one to
/// forward to, then for the first unusable probability of the client-to-server
/// settings, then for that of the server-to-client settings. Otherwise each setting
/// is that of the command line, or else that of the file, and a seed that neither
/// gives is the one drawn.
pub proof fn law_merging<A>(
    file: FileConfig<A>,
    cli: CliOverrides<A>,
    drawn: u64,
    res: Result<Config<A>, ConfigError>,
)
    requires
        resolves_to(file, cli, drawn, res),
    ensures
        ({
            let good = |p: Probability|
                !p.is_nan() && (!p.negative() || p.magnitude() == 0) && p.magnitude() <= pow2(1074);
            let refused = |s: Seq<char>, f: ProbabilityField, p: Probability|
                res matches Err(ConfigError::ProbabilityOutOfRange { section, field, value })
                    && section@ == s && field == f && value.bits == p.bits;
            let (c2s, s2c) = (file.client_to_server, file.server_to_client);
            if cli.listen is None && file.listen is None {
                res matches Err(ConfigError::MissingListen)
            } else if cli.target is None && file.target is None {
                res matches Err(ConfigError::MissingTarget)
            } else if !good(c2s.drop_probability) {
                refused("client_to_server"@, ProbabilityField::Drop, c2s.drop_probability)
            } else if !good(c2s.corrupt_probability) {
                refused("client_to_server"@, ProbabilityField::Corrupt, c2s.corrupt_probability)
            } else if !good(c2s.close_probability) {
                refused("client_to_server"@, ProbabilityField::Close, c2s.close_probability)
            } else if !good(s2c.drop_probability) {
                refused("server_to_client"@, ProbabilityField::Drop, s2c.drop_probability)
            } else if !good(s2c.corrupt_probability) {
                refused("server_to_client"@, ProbabilityField::Corrupt, s2c.corrupt_probability)
            } else if !good(s2c.close_probability) {
                refused("server_to_client"@, ProbabilityField::Close, s2c.close_probability)
            } else {
                &&& res is Ok
                &&& match cli.listen {
                    Some(addr) => res->Ok_0.listen == addr,
                    None => file.listen == Some(res->Ok_0.listen),
                }
                &&& match cli.target {
                    Some(addr) => res->Ok_0.target == addr,
                    None => file.target == Some(res->Ok_0.target),
                }
                &&& res->Ok_0.seed == match (cli.seed, file.seed) {
                    (Some(seed), _) => seed,
                    (None, Some(seed)) => seed,
                    (None, None) => drawn,
                }
                &&& res->Ok_0.client_to_server == c2s
                &&& res->Ok_0.server_to_client == s2c
            }
        }),
{
    law_comparisons_are_numeric(file.client_to_server.drop_probability);
    law_comparisons_are_numeric(file.client_to_server.corrupt_probability);
    law_comparisons_are_numeric(file.client_to_server.close_probability);
    law_comparisons_are_numeric(file.server_to_client.drop_probability);
    law_comparisons_are_numeric(file.server_to_client.corrupt_probability);
    law_comparisons_are_numeric(file.server_to_client.close_probability);
}

/// The text of an error names what is missing or which setting is out of range, in
/// which section, and what it holds.
pub proof fn law_error_texts(section: String, value: Probability, shown: Seq<char>)
    ensures
        ConfigError::MissingListen.text(shown)
            == "`listen` must be provided via --listen or in the config file"@,
        ConfigError::MissingTarget.text(shown)
            == "`target` must be provided via --target or in the config file"@,
        (ConfigError::ProbabilityOutOfRange { section, field: ProbabilityField::Drop, value }).text(
            shown,
        ) == section@ + ".drop_probability must be in [0.0, 1.0], got "@ + shown,
        (ConfigError::ProbabilityOutOfRange {
            section,
            field: ProbabilityField::Corrupt,
            value,
        }).text(shown) == section@ + ".corrupt_probability must be in [0.0, 1.0], got "@ + shown,
        (ConfigError::ProbabilityOutOfRange {
            section,
            field: ProbabilityField::Close,
            value,
        }).text(shown) == section@ + ".close_probability must be in [0.0, 1.0], got "@ + shown,
{
    reveal_strlit(".");
    reveal_strlit("drop_probability");
    reveal_strlit("corrupt_probability");
    reveal_strlit("close_probability");
    reveal_strlit(" must be in [0.0, 1.0], got ");
    reveal_strlit(".drop_probability must be in [0.0, 1.0], got ");
    reveal_strlit(".corrupt_probability must be in [0.0, 1.0], got ");
    reveal_strlit(".close_probability must be in [0.0, 1.0], got ");
    let tail = " must be in [0.0, 1.0], got "@;
    assert("."@ + "drop_probability"@ + tail
        =~= ".drop_probability must be in [0.0, 1.0], got "@);
    assert("."@ + "corrupt_probability"@ + tail
        =~= ".corrupt_probability must be in [0.0, 1.0], got "@);
    assert("."@ + "close_probability"@ + tail
        =~= ".close_probability must be in [0.0, 1.0], got "@);
    assert forall|name: Seq<char>|
        #[trigger] (section@ + "."@ + name) + tail + shown == section@ + ("."@ + name + tail)
            + shown by {
        assert(section@ + "."@ + name + tail + shown =~= section@ + ("."@ + name + tail) + shown);
    }
}

/// Settings are equal exactly if every one of them is, probabilities as numbers.
pub proof fn law_equal_settings(a: FaultConfig, b: FaultConfig)
    ensures
        a.eq_spec(&b) <==> {
            &&& a.latency_ms == b.latency_ms
            &&& a.latency_jitter_ms == b.latency_jitter_ms
            &&& a.drop_probability.eq_spec(&b.drop_probability)
            &&& a.corrupt_probability.eq_spec(&b.corrupt_probability)
            &&& a.corrupt_bits == b.corrupt_bits
            &&& a.close_probability.eq_spec(&b.close_probability)
        },
        a.drop_probability.eq_spec(&b.drop_probability) == a.drop_probability.same_number(
            b.drop_probability,
        ),
{
}

/// The settings that inject nothing are all zero.
pub proof fn law_benign_is_zero()
    ensures
        FaultConfig::benign().latency_ms == 0,
        FaultConfig::benign().latency_jitter_ms == 0,
        FaultConfig::benign().drop_probability.bits == 0,
        FaultConfig::benign().corrupt_probability.bits == 0,
        FaultConfig::benign().corrupt_bits == 0,
        FaultConfig::benign().close_probability.bits == 0,
{
}

/// Settings are valid exactly if validation finds nothing to report.
pub proof fn law_valid_means_no_invalid_field(config: FaultConfig)
    ensures
        config.valid() <==> config.first_invalid() is None,
{
    assert(config.probability(ProbabilityField::Drop) == config.drop_probability);
    assert(config.probability(ProbabilityField::Corrupt) == config.corrupt_probability);
    assert(config.probability(ProbabilityField::Close) == config.close_probability);
}

/// The settings that inject nothing are valid.
pub proof fn law_benign_is_valid()
    ensures
        FaultConfig::benign().valid(),
{
    law_valid_means_no_invalid_field(FaultConfig::benign());
}

} // verus!
