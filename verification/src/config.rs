//! Configuration: the `yerd_dump.state_path` INI directive and `state.json`.
//!
//! The directive supplies the path of a `state.json` that carries the on/off
//! switch, the loopback port and a flag for each feature.

use vstd::prelude::*;

verus! {

/// The name of the INI directive.
pub const INI_STATE_PATH: &'static str = "yerd_dump.state_path";

/// The path of the state file, read once at startup. The directive does not
/// change afterwards.
pub struct StatePath {
    cached: Option<Option<String>>,
}

impl View for StatePath {
    type V = Option<Option<Seq<char>>>;

    closed spec fn view(&self) -> Option<Option<Seq<char>>> {
        self.cached.deep_view()
    }
}

impl StatePath {
    /// Not read yet.
    pub fn new() -> (p: StatePath)
        ensures
            p@ == None::<Option<Seq<char>>>,
    {
        StatePath { cached: None }
    }
}

/// A directive value; an empty one counts as absent.
pub open spec fn configured(value: Option<Seq<char>>) -> Option<Seq<char>> {
    match value {
        Some(s) => if s.len() > 0 {
            Some(s)
        } else {
            None
        },
        None => None,
    }
}

/// Caches the value of the directive. Only the first call has an effect.
pub fn cache_state_path(path: &mut StatePath, value: Option<String>)
    ensures
        final(path)@ == (match old(path)@ {
            Some(cached) => Some(cached),
            None => Some(configured(value.deep_view())),
        }),
{
    if path.cached.is_none() {
        path.cached = match value {
            Some(s) => if s.as_str().is_empty() {
                Some(None)
            } else {
                Some(Some(s))
            },
            None => Some(None),
        };
    }
}

/// The cached path of the state file, if one is configured.
pub fn state_path(path: &StatePath) -> (r: Option<&str>)
    ensures
        r.deep_view() == (match path@ {
            Some(cached) => cached,
            None => None,
        }),
{
    match &path.cached {
        Some(Some(s)) => Some(s.as_str()),
        _ => None,
    }
}

/// On/off flags of the features. A feature that the state file does not name
/// is off.
#[derive(Debug, Clone, Copy, PartialEq, Eq, Structural)]
pub struct Features {
    pub dumps: bool,
    pub queries: bool,
    pub jobs: bool,
    pub views: bool,
    pub requests: bool,
    pub logs: bool,
    pub cache: bool,
    /// Outgoing HTTP calls.
    pub http: bool,
}

impl Default for Features {
    fn default() -> (f: Features)
        ensures
            f == no_features(),
    {
        Features {
            dumps: false,
            queries: false,
            jobs: false,
            views: false,
            requests: false,
            logs: false,
            cache: false,
            http: false,
        }
    }
}

/// All features off.
pub open spec fn no_features() -> Features {
    Features {
        dumps: false,
        queries: false,
        jobs: false,
        views: false,
        requests: false,
        logs: false,
        cache: false,
        http: false,
    }
}

/// What `state.json` says.
#[derive(Debug, Clone, Copy, PartialEq, Eq, Structural)]
pub struct State {
    pub enabled: bool,
    pub port: u16,
    pub features: Features,
}

/// Whether a state switches telemetry on.
pub open spec fn switches_on(state: State) -> bool {
    state.enabled && state.port != 0
}

impl State {
    /// The state that a request runs with, given what was read from the state
    /// file: none where the file could not be read or understood, where it
    /// switches telemetry off, or where it names no port.
    pub fn from_parsed(parsed: Option<State>) -> (r: Option<State>)
        ensures
            r == (match parsed {
                Some(state) => if switches_on(state) {
                    Some(state)
                } else {
                    None
                },
                None => None,
            }),
    {
        match parsed {
            Some(state) => if !state.enabled || state.port == 0 {
                None
            } else {
                Some(state)
            },
            None => None,
        }
    }
}

/// An empty directive is no path, and any other is the path itself.
pub proof fn law_directive_names_the_path(s: Seq<char>)
    ensures
        configured(None) is None,
        s.len() == 0 ==> configured(Some(s)) is None,
        s.len() > 0 ==> configured(Some(s)) == Some(s),
{
}

/// Telemetry is on where the state enables it and names a port, whatever the
/// features are.
pub proof fn law_state_switches(port: u16, features: Features)
    ensures
        !switches_on(State { enabled: false, port, features }),
        !switches_on(State { enabled: true, port: 0, features }),
        port > 0 ==> switches_on(State { enabled: true, port, features }),
{
}

} // verus!
