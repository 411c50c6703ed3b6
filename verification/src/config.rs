//! The configuration of the engine, read from its environment.

use vstd::prelude::*;
use crate::text::{concat, decimal, numbers_are_read_back, parse_unsigned, unsigned_value};

verus! {

/// The configuration of the engine.
#[derive(Debug, Clone)]
pub struct Config {
    pub bind_addr: String,
    pub port: u16,
    pub data_dir: String,
    pub admin_token: Option<String>,
    /// Where the search index is kept.
    pub index_path: String,
    /// The most bytes that the index may take on disk.
    pub max_index_bytes: u64,
    /// How the crawler names itself.
    pub crawler_user_agent: String,
    /// How long one request of the crawler may take, in milliseconds.
    pub crawler_request_timeout_ms: u64,
    /// The least wait between two pages, in milliseconds.
    pub crawler_politeness_delay_ms: u64,
    /// How many domains are crawled at a time.
    pub crawler_max_concurrent_domains: usize,
    /// The most searches per minute of a peer.
    pub peer_rate_limit_per_minute: u32,
    /// The public address of this engine.
    pub self_url: String,
    /// The name of this engine.
    pub self_name: String,
    /// What this engine says of itself.
    pub self_description: String,
    /// The time between two rounds of gossip, in seconds.
    pub gossip_sync_interval_secs: u64,
}

/// The variables that the configuration is read from; those that are not set
/// are `None`.
#[derive(Debug, Clone)]
pub struct Environment {
    /// `COMMUNITY_SEARCH_BIND_ADDR`
    pub bind_addr: Option<String>,
    /// `COMMUNITY_SEARCH_PORT`
    pub port: Option<String>,
    /// `COMMUNITY_SEARCH_DATA_DIR`
    pub data_dir: Option<String>,
    /// `COMMUNITY_SEARCH_ADMIN_TOKEN`
    pub admin_token: Option<String>,
    /// `COMMUNITY_SEARCH_INDEX_PATH`
    pub index_path: Option<String>,
    /// `HOME`
    pub home: Option<String>,
    /// `COMMUNITY_SEARCH_MAX_INDEX_BYTES`
    pub max_index_bytes: Option<String>,
    /// `COMMUNITY_SEARCH_CRAWLER_USER_AGENT`
    pub crawler_user_agent: Option<String>,
    /// `COMMUNITY_SEARCH_CRAWLER_CONTACT_URL`
    pub crawler_contact_url: Option<String>,
    /// `COMMUNITY_SEARCH_CRAWLER_REQUEST_TIMEOUT_MS`
    pub crawler_request_timeout_ms: Option<String>,
    /// `COMMUNITY_SEARCH_CRAWLER_POLITENESS_DELAY_MS`
    pub crawler_politeness_delay_ms: Option<String>,
    /// `COMMUNITY_SEARCH_CRAWLER_MAX_CONCURRENT_DOMAINS`
    pub crawler_max_concurrent_domains: Option<String>,
    /// `COMMUNITY_SEARCH_PEER_RATE_LIMIT_PER_MINUTE`
    pub peer_rate_limit_per_minute: Option<String>,
    /// `SELF_URL`
    pub self_url: Option<String>,
    /// `SELF_NAME`
    pub self_name: Option<String>,
    /// `SELF_DESCRIPTION`
    pub self_description: Option<String>,
    /// `GOSSIP_SYNC_INTERVAL_SECS`
    pub gossip_sync_interval_secs: Option<String>,
}

/// The configuration cannot be read.
#[derive(Debug, Clone, Copy, PartialEq, Eq, Structural)]
pub enum ConfigError {
    /// `COMMUNITY_SEARCH_PORT` is not a port.
    InvalidPort,
}

impl ConfigError {
    /// The message shown for the error.
    pub fn message(&self) -> (r: &'static str)
        ensures
            r@ == "COMMUNITY_SEARCH_PORT must be a valid u16"@,
    {
        "COMMUNITY_SEARCH_PORT must be a valid u16"
    }
}

/// The value of a variable, or what stands for it where it is not set.
pub open spec fn or_text(value: Option<Seq<char>>, default: Seq<char>) -> Seq<char> {
    match value {
        Some(v) => v,
        None => default,
    }
}

/// The number in a variable, or what stands for it where the variable is not
/// set or does not hold a number up to `max`.
pub open spec fn or_number(value: Option<Seq<char>>, max: nat, default: nat) -> nat {
    match value {
        Some(v) => match unsigned_value(v, max) {
            Some(n) => n,
            None => default,
        },
        None => default,
    }
}

/// The value of a variable, unless it is not set or empty.
pub open spec fn if_not_empty(value: Option<Seq<char>>) -> Option<Seq<char>> {
    match value {
        Some(v) => if v.len() > 0 {
            Some(v)
        } else {
            None
        },
        None => None,
    }
}

/// `name` below the directory `dir`.
pub open spec fn below(dir: Seq<char>, name: Seq<char>) -> Seq<char> {
    if dir.len() == 0 {
        name
    } else if dir.last() == '/' {
        dir + name
    } else {
        dir + seq!['/'] + name
    }
}

/// How the crawler names itself: as it is told, else with the address where
/// more can be learned about it, else by name and version alone.
pub open spec fn user_agent(
    told: Option<Seq<char>>,
    contact: Option<Seq<char>>,
    self_url: Seq<char>,
    version: Seq<char>,
) -> Seq<char> {
    match told {
        Some(t) => t,
        None => {
            let url = match if_not_empty(contact) {
                Some(c) => Some(c),
                None => if_not_empty(Some(self_url)),
            };
            match url {
                Some(u) => "community-search/"@ + version + " (+"@ + u + "; bot)"@,
                None => "community-search/"@ + version + " (bot)"@,
            }
        },
    }
}

fn text_or(value: &Option<String>, default: &str) -> (r: String)
    ensures
        r@ == or_text(value.deep_view(), default@),
{
    match value {
        Some(v) => v.clone(),
        None => default.to_owned(),
    }
}

fn text_or_empty(value: &Option<String>) -> (r: String)
    ensures
        r@ == or_text(value.deep_view(), Seq::empty()),
{
    match value {
        Some(v) => v.clone(),
        None => String::new(),
    }
}

fn number_or(value: &Option<String>, max: u64, default: u64) -> (r: u64)
    requires
        default <= max,
    ensures
        r == or_number(value.deep_view(), max as nat, default as nat),
        r <= max,
{
    match value {
        Some(v) => match parse_unsigned(v.as_str(), max) {
            Some(n) => n,
            None => default,
        },
        None => default,
    }
}

fn not_empty(value: &Option<String>) -> (r: Option<String>)
    ensures
        r.deep_view() == if_not_empty(value.deep_view()),
{
    match value {
        Some(v) => if v.as_str().is_empty() {
            None
        } else {
            Some(v.clone())
        },
        None => None,
    }
}

fn path_below(dir: &str, name: &str) -> (r: String)
    ensures
        r@ == below(dir@, name@),
{
    let v = crate::text::chars_of(dir);
    if v.len() == 0 {
        name.to_owned()
    } else if v[v.len() - 1] == '/' {
        concat(dir, name)
    } else {
        let mut r: String = dir.to_owned();
        r.push('/');
        r.push_str(name);
        assert(r@ =~= dir@ + seq!['/'] + name@);
        r
    }
}

fn choose_user_agent(
    told: &Option<String>,
    contact: &Option<String>,
    self_url: &String,
    version: &str,
) -> (r: String)
    ensures
        r@ == user_agent(told.deep_view(), contact.deep_view(), self_url@, version@),
{
    match told {
        Some(t) => t.clone(),
        None => {
            let url = match not_empty(contact) {
                Some(c) => Some(c),
                None => if self_url.as_str().is_empty() {
                    None
                } else {
                    Some(self_url.clone())
                },
            };
            let mut r: String = "community-search/".to_owned();
            r.push_str(version);
            match url {
                Some(u) => {
                    r.push_str(" (+");
                    r.push_str(u.as_str());
                    r.push_str("; bot)");
                },
                None => {
                    r.push_str(" (bot)");
                },
            }
            r
        },
    }
}

impl Config {
    /// What the configuration is, given the environment, the port and the
    /// version of the engine.
    pub open spec fn is_read_from(self, env: Environment, port: nat, version: Seq<char>) -> bool {
        &&& self.bind_addr@ == or_text(env.bind_addr.deep_view(), "127.0.0.1"@)
        &&& self.port == port
        &&& self.data_dir@ == or_text(env.data_dir.deep_view(), "./data"@)
        &&& self.admin_token.deep_view() == if_not_empty(env.admin_token.deep_view())
        &&& self.index_path@ == (match env.index_path.deep_view() {
            Some(p) => p,
            None => below(
                below(or_text(env.home.deep_view(), "."@), ".community-search"@),
                "index"@,
            ),
        })
        &&& self.max_index_bytes == or_number(
            env.max_index_bytes.deep_view(),
            u64::MAX as nat,
            10_737_418_240,
        )
        &&& self.crawler_user_agent@ == user_agent(
            env.crawler_user_agent.deep_view(),
            env.crawler_contact_url.deep_view(),
            or_text(env.self_url.deep_view(), Seq::empty()),
            version,
        )
        &&& self.crawler_request_timeout_ms == or_number(
            env.crawler_request_timeout_ms.deep_view(),
            u64::MAX as nat,
            30_000,
        )
        &&& self.crawler_politeness_delay_ms == or_number(
            env.crawler_politeness_delay_ms.deep_view(),
            u64::MAX as nat,
            250,
        )
        &&& self.crawler_max_concurrent_domains == or_number(
            env.crawler_max_concurrent_domains.deep_view(),
            usize::MAX as nat,
            4,
        )
        &&& self.peer_rate_limit_per_minute == or_number(
            env.peer_rate_limit_per_minute.deep_view(),
            u32::MAX as nat,
            120,
        )
        &&& self.self_url@ == or_text(env.self_url.deep_view(), Seq::empty())
        &&& self.self_name@ == or_text(env.self_name.deep_view(), Seq::empty())
        &&& self.self_description@ == or_text(env.self_description.deep_view(), Seq::empty())
        &&& self.gossip_sync_interval_secs == or_number(
            env.gossip_sync_interval_secs.deep_view(),
            u64::MAX as nat,
            86_400,
        )
    }

    /// Reads the configuration from the environment. What is not set has a
    /// default, and so has a number that cannot be read, but for the port: a
    /// port that cannot be read is an error.
    pub fn from_env_only(env: &Environment, version: &str) -> (r: Result<Config, ConfigError>)
        ensures
            match r {
                Ok(c) => unsigned_value(
                    or_text(env.port.deep_view(), "8080"@),
                    u16::MAX as nat,
                ) is Some && c.is_read_from(
                    *env,
                    unsigned_value(or_text(env.port.deep_view(), "8080"@), u16::MAX as nat)->0,
                    version@,
                ),
                Err(e) => e == ConfigError::InvalidPort && unsigned_value(
                    or_text(env.port.deep_view(), "8080"@),
                    u16::MAX as nat,
                ) is None,
            },
    {
        let port_text = text_or(&env.port, "8080");
        let port: u16 = match parse_unsigned(port_text.as_str(), 65_535) {
            Some(p) => p as u16,
            None => {
                return Err(ConfigError::InvalidPort);
            },
        };
        let index_path = match &env.index_path {
            Some(p) => p.clone(),
            None => {
                let home = text_or(&env.home, ".");
                let dir = path_below(home.as_str(), ".community-search");
                path_below(dir.as_str(), "index")
            },
        };
        let self_url = text_or_empty(&env.self_url);
        let crawler_user_agent = choose_user_agent(
            &env.crawler_user_agent,
            &env.crawler_contact_url,
            &self_url,
            version,
        );
        let domains: u64 = number_or(
            &env.crawler_max_concurrent_domains,
            usize::MAX as u64,
            4,
        );
        Ok(
            Config {
                bind_addr: text_or(&env.bind_addr, "127.0.0.1"),
                port,
                data_dir: text_or(&env.data_dir, "./data"),
                admin_token: not_empty(&env.admin_token),
                index_path,
                max_index_bytes: number_or(&env.max_index_bytes, u64::MAX, 10_737_418_240),
                crawler_user_agent,
                crawler_request_timeout_ms: number_or(
                    &env.crawler_request_timeout_ms,
                    u64::MAX,
                    30_000,
                ),
                crawler_politeness_delay_ms: number_or(
                    &env.crawler_politeness_delay_ms,
                    u64::MAX,
                    250,
                ),
                crawler_max_concurrent_domains: domains as usize,
                peer_rate_limit_per_minute: number_or(
                    &env.peer_rate_limit_per_minute,
                    u32::MAX as u64,
                    120,
                ) as u32,
                self_url,
                self_name: text_or_empty(&env.self_name),
                self_description: text_or_empty(&env.self_description),
                gossip_sync_interval_secs: number_or(
                    &env.gossip_sync_interval_secs,
                    u64::MAX,
                    86_400,
                ),
            },
        )
    }
}

/// An empty administrator token counts as none.
pub proof fn empty_tokens_count_as_none(c: Config, env: Environment, port: nat, version: Seq<char>)
    requires
        c.is_read_from(env, port, version),
    ensures
        c.admin_token.deep_view() matches Some(t) ==> t.len() > 0,
{
}

/// A user agent that is told is used word for word.
pub proof fn told_user_agents_are_verbatim(
    told: Seq<char>,
    contact: Option<Seq<char>>,
    self_url: Seq<char>,
    version: Seq<char>,
)
    ensures
        user_agent(Some(told), contact, self_url, version) == told,
{
}

/// A variable that is set counts as it is; one that is not set has its default,
/// and so has a number that cannot be read.
pub proof fn set_variables_count(
    value: Seq<char>,
    default: Seq<char>,
    n: nat,
    max: nat,
    default_number: nat,
)
    ensures
        or_text(Some(value), default) == value,
        or_text(None, default) == default,
        n <= max ==> or_number(Some(decimal(n)), max, default_number) == n,
        n > max ==> or_number(Some(decimal(n)), max, default_number) == default_number,
        or_number(None, max, default_number) == default_number,
        unsigned_value(value, max) is None ==> or_number(Some(value), max, default_number)
            == default_number,
        value.len() > 0 ==> if_not_empty(Some(value)) == Some(value),
        value.len() == 0 ==> if_not_empty(Some(value)) is None,
{
    numbers_are_read_back(n, max);
}

/// A user agent that is not told names the version, and the contact address or
/// else the own address, where there is one.
pub proof fn user_agents_name_a_contact(
    contact: Seq<char>,
    self_url: Seq<char>,
    version: Seq<char>,
)
    requires
        contact.len() > 0,
    ensures
        user_agent(None, Some(contact), self_url, version) == "community-search/"@ + version
            + " (+"@ + contact + "; bot)"@,
        self_url.len() > 0 ==> user_agent(None, None, self_url, version) == "community-search/"@
            + version + " (+"@ + self_url + "; bot)"@,
        user_agent(None, Some(Seq::empty()), self_url, version) == user_agent(
            None,
            None,
            self_url,
            version,
        ),
        user_agent(None, None, Seq::empty(), version) == "community-search/"@ + version
            + " (bot)"@,
{
}

/// An environment in which nothing is set gives the defaults.
pub proof fn empty_environments_give_the_defaults(
    c: Config,
    env: Environment,
    port: nat,
    version: Seq<char>,
)
    requires
        c.is_read_from(env, port, version),
    ensures
        env.bind_addr is None ==> c.bind_addr@ == "127.0.0.1"@,
        env.data_dir is None ==> c.data_dir@ == "./data"@,
        env.admin_token is None ==> c.admin_token is None,
        env.max_index_bytes is None ==> c.max_index_bytes == 10_737_418_240,
        env.crawler_request_timeout_ms is None ==> c.crawler_request_timeout_ms == 30_000,
        env.crawler_politeness_delay_ms is None ==> c.crawler_politeness_delay_ms == 250,
        env.crawler_max_concurrent_domains is None ==> c.crawler_max_concurrent_domains == 4,
        env.peer_rate_limit_per_minute is None ==> c.peer_rate_limit_per_minute == 120,
        env.gossip_sync_interval_secs is None ==> c.gossip_sync_interval_secs == 86_400,
        env.self_url is None ==> c.self_url@.len() == 0,
        env.self_name is None ==> c.self_name@.len() == 0,
        env.self_description is None ==> c.self_description@.len() == 0,
{
}

/// What is set in the environment is what the configuration has.
pub proof fn environments_are_read_whole(
    c: Config,
    env: Environment,
    port: nat,
    version: Seq<char>,
)
    requires
        c.is_read_from(env, port, version),
    ensures
        c.port == port,
        env.bind_addr matches Some(v) ==> c.bind_addr@ == v@,
        env.data_dir matches Some(v) ==> c.data_dir@ == v@,
        env.index_path matches Some(v) ==> c.index_path@ == v@,
        env.self_url matches Some(v) ==> c.self_url@ == v@,
        env.self_name matches Some(v) ==> c.self_name@ == v@,
        env.self_description matches Some(v) ==> c.self_description@ == v@,
        env.crawler_user_agent matches Some(v) ==> c.crawler_user_agent@ == v@,
        env.admin_token matches Some(v) ==> (v@.len() > 0 ==> c.admin_token.deep_view() == Some(
            v@,
        )),
        env.max_index_bytes matches Some(v) ==> (unsigned_value(v@, u64::MAX as nat) is Some
            ==> c.max_index_bytes == unsigned_value(v@, u64::MAX as nat)->0),
        env.crawler_request_timeout_ms matches Some(v) ==> (unsigned_value(v@, u64::MAX as nat)
            is Some ==> c.crawler_request_timeout_ms == unsigned_value(v@, u64::MAX as nat)->0),
        env.crawler_politeness_delay_ms matches Some(v) ==> (unsigned_value(v@, u64::MAX as nat)
            is Some ==> c.crawler_politeness_delay_ms == unsigned_value(v@, u64::MAX as nat)->0),
        env.peer_rate_limit_per_minute matches Some(v) ==> (unsigned_value(v@, u32::MAX as nat)
            is Some ==> c.peer_rate_limit_per_minute == unsigned_value(v@, u32::MAX as nat)->0),
        env.gossip_sync_interval_secs matches Some(v) ==> (unsigned_value(v@, u64::MAX as nat)
            is Some ==> c.gossip_sync_interval_secs == unsigned_value(v@, u64::MAX as nat)->0),
{
}

/// A path below a directory is the directory, one slash and the name.
pub proof fn paths_have_one_slash(dir: Seq<char>, name: Seq<char>)
    ensures
        dir.len() > 0 && dir.last() != '/' ==> below(dir, name) == dir.push('/') + name,
        dir.len() > 0 && dir.last() == '/' ==> below(dir, name) == dir + name,
{
    assert(dir + seq!['/'] + name =~= dir.push('/') + name);
}

/// Without a path of its own the index stands below the home directory, or else
/// below the current one.
pub proof fn the_index_stands_below_home(
    c: Config,
    env: Environment,
    port: nat,
    version: Seq<char>,
)
    requires
        c.is_read_from(env, port, version),
        env.index_path is None,
    ensures
        env.home matches Some(h) ==> c.index_path@ == below(
            below(h@, ".community-search"@),
            "index"@,
        ),
        env.home is None ==> c.index_path@ == below(below("."@, ".community-search"@), "index"@),
        env.crawler_max_concurrent_domains matches Some(v) ==> (unsigned_value(
            v@,
            usize::MAX as nat,
        ) is Some ==> c.crawler_max_concurrent_domains == unsigned_value(v@, usize::MAX as nat)->0),
{
}

} // verus!
