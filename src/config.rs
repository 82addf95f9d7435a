//! The watch configuration: which ports to monitor and how often, its
//! checks, and its defaults.

use vstd::prelude::*;

verus! {

/// A project's port configuration.
#[derive(Clone, Debug)]
pub struct PortmanConfig {
    pub project: Option<String>,
    pub ports: Vec<u16>,
    pub description: Option<String>,
    /// Seconds between two checks of the watch loop.
    pub watch_interval: Option<u64>,
}

/// Why a configuration was refused.
#[derive(PartialEq, Eq, Structural, Clone, Copy, Debug)]
pub enum ConfigError {
    /// No port is listed.
    NoPorts,
    /// A listed port is reserved (port 0).
    ReservedPort(u16),
    /// The watch interval is zero.
    ZeroInterval,
}

impl ConfigError {
    /// What to tell the user.
    pub fn message(&self) -> (r: String) {
        match self {
            ConfigError::NoPorts => String::from_str("Configuration must specify at least one port"),
            ConfigError::ReservedPort(_) => String::from_str(
                "Invalid port number: 0 (port 0 is reserved)",
            ),
            ConfigError::ZeroInterval => String::from_str("Watch interval must be greater than 0"),
        }
    }
}

/// The ports most projects start from.
pub open spec fn default_ports() -> Seq<u16> {
    seq![3000, 3001, 5432, 6379]
}

/// The seconds between two checks when the configuration names none.
pub const DEFAULT_WATCH_INTERVAL: u64 = 5;

/// What `validate` decides: at least one port, none of them 0, and an
/// interval, if given, above 0; checked in that order.
pub open spec fn validation(ports: Seq<u16>, watch_interval: Option<u64>) -> Result<(), ConfigError> {
    if ports.len() == 0 {
        Err(ConfigError::NoPorts)
    } else if ports.contains(0) {
        Err(ConfigError::ReservedPort(0))
    } else if watch_interval == Some(0u64) {
        Err(ConfigError::ZeroInterval)
    } else {
        Ok(())
    }
}

/// The files whose presence says what kind of project a directory holds, in
/// the order they are looked for.
pub open spec fn project_markers() -> Seq<Seq<char>> {
    seq![
        "package.json"@, "Cargo.toml"@, "requirements.txt"@, "pom.xml"@, "build.gradle"@,
        "docker-compose.yml"@,
    ]
}

/// The ports usual for each kind of project, by marker.
pub open spec fn marker_ports(i: int) -> Seq<u16> {
    if i == 0 {
        seq![3000, 3001, 8080]
    } else if i == 1 {
        seq![8000, 8080, 3000]
    } else if i == 2 {
        seq![8000, 5000]
    } else if i == 3 || i == 4 {
        seq![8080, 8081, 9090]
    } else {
        seq![3000, 5432, 6379, 8080]
    }
}

/// The first marker found, if any.
pub open spec fn first_found(found: Seq<bool>) -> Option<int>
    decreases found.len(),
{
    if found.len() == 0 {
        None
    } else if found[0] {
        Some(0)
    } else {
        match first_found(found.drop_first()) {
            Some(i) => Some(i + 1),
            None => None,
        }
    }
}

/// The names of the project marker files, in the order they are looked for.
pub fn marker_files() -> (r: Vec<&'static str>)
    ensures
        r@.len() == project_markers().len(),
        forall|i: int| 0 <= i < r@.len() ==> #[trigger] r@[i]@ == project_markers()[i],
{
    let mut v: Vec<&'static str> = Vec::new();
    v.push("package.json");
    v.push("Cargo.toml");
    v.push("requirements.txt");
    v.push("pom.xml");
    v.push("build.gradle");
    v.push("docker-compose.yml");
    v
}

fn ports_of_marker(i: usize) -> (r: Vec<u16>)
    ensures
        r@ == marker_ports(i as int),
{
    let mut v: Vec<u16> = Vec::new();
    if i == 0 {
        v.push(3000);
        v.push(3001);
        v.push(8080);
    } else if i == 1 {
        v.push(8000);
        v.push(8080);
        v.push(3000);
    } else if i == 2 {
        v.push(8000);
        v.push(5000);
    } else if i == 3 || i == 4 {
        v.push(8080);
        v.push(8081);
        v.push(9090);
    } else {
        v.push(3000);
        v.push(5432);
        v.push(6379);
        v.push(8080);
    }
    assert(v@ =~= marker_ports(i as int));
    v
}

impl Default for PortmanConfig {
    fn default() -> (r: PortmanConfig)
        ensures
            r.project is None,
            r.ports@ == default_ports(),
            r.description is None,
            r.watch_interval == Some(DEFAULT_WATCH_INTERVAL),
    {
        let mut ports: Vec<u16> = Vec::new();
        ports.push(3000);
        ports.push(3001);
        ports.push(5432);
        ports.push(6379);
        assert(ports@ =~= default_ports());
        PortmanConfig { project: None, ports, description: None, watch_interval: Some(DEFAULT_WATCH_INTERVAL) }
    }
}

impl PortmanConfig {
    /// Checks the configuration before it is used.
    pub fn validate(&self) -> (r: Result<(), ConfigError>)
        ensures
            r == validation(self.ports@, self.watch_interval),
    {
        if self.ports.len() == 0 {
            return Err(ConfigError::NoPorts);
        }
        let mut i: usize = 0;
        while i < self.ports.len()
            invariant
                i <= self.ports@.len(),
                forall|j: int| 0 <= j < i ==> self.ports@[j] != 0,
            decreases self.ports@.len() - i,
        {
            if self.ports[i] == 0 {
                assert(self.ports@[i as int] == 0);
                return Err(ConfigError::ReservedPort(0));
            }
            i += 1;
        }
        match self.watch_interval {
            Some(interval) => {
                if interval == 0 {
                    return Err(ConfigError::ZeroInterval);
                }
            },
            None => {},
        }
        Ok(())
    }

    /// The default configuration for a project directory: named after the
    /// directory, with the ports usual for the first marker file found
    /// there (`found[i]`: whether the `i`-th of `marker_files` exists), or
    /// the default ports when none is.
    pub fn for_project(project: Option<String>, found: &Vec<bool>) -> (r: PortmanConfig)
        ensures
            r.project == project,
            r.description is None,
            r.watch_interval == Some(DEFAULT_WATCH_INTERVAL),
            r.ports@ == match first_found(found@) {
                Some(i) => if i < project_markers().len() {
                    marker_ports(i)
                } else {
                    default_ports()
                },
                None => default_ports(),
            },
    {
        let mut config = PortmanConfig::default();
        config.project = project;
        let n = if found.len() < 6 {
            found.len()
        } else {
            6
        };
        let mut i: usize = 0;
        assert(found@.subrange(0, found@.len() as int) =~= found@);
        while i < n
            invariant
                i <= n <= 6,
                n <= found@.len(),
                n == 6 || n == found@.len(),
                config.project == project,
                config.description is None,
                config.watch_interval == Some(DEFAULT_WATCH_INTERVAL),
                config.ports@ == default_ports(),
                forall|j: int| 0 <= j < i ==> !found@[j],
            decreases n - i,
        {
            if found[i] {
                proof {
                    lemma_first_found(found@);
                }
                config.ports = ports_of_marker(i);
                return config;
            }
            i += 1;
        }
        proof {
            lemma_first_found(found@);
        }
        config
    }
}

proof fn lemma_first_found(found: Seq<bool>)
    ensures
        match first_found(found) {
            Some(i) => 0 <= i < found.len() && found[i] && forall|j: int| 0 <= j < i ==> !found[j],
            None => forall|j: int| 0 <= j < found.len() ==> !found[j],
        },
    decreases found.len(),
{
    if found.len() > 0 && !found[0] {
        lemma_first_found(found.drop_first());
        assert forall|j: int| 0 < j < found.len() implies found[j] == found.drop_first()[j - 1] by {}
    }
}

} // verus!
