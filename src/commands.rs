//! The mapping commands and the status report: the mapping-count limit,
//! adding a mapping on a freshly allocated port, removing one by name, and
//! the status that merges process state with the cached configuration.

use vstd::prelude::*;
use crate::config::{
    ConfigView, FrpsConfig, MappingView, PortMapping, TomlConfig, DEFAULT_LOCAL_IP,
    DEFAULT_PROTOCOL, DEFAULT_SERVER_ADDR, DEFAULT_SERVER_PORT, has_name, mappings_view,
    names_unique, strings_view,
};
use crate::format::index_of;
use crate::ports::{
    AllocationError, find_available_port_in_range, generate_mapping_name, is_candidate,
    is_generated_name,
};

verus! {

/// Most mappings that one installation may hold.
pub const MAX_PORT_MAPPINGS: usize = 3;

/// Why a command was refused.
#[derive(Debug, Clone, Copy, PartialEq, Eq)]
pub enum FrpsError {
    /// The configuration already holds the most mappings allowed.
    LimitReached,
    /// No mapping has the name asked for.
    MappingNotFound,
    /// No remote port is free.
    PortsExhausted,
    /// The tunnel client is already tracked as running.
    AlreadyRunning,
    /// Neither a tracked nor an untracked tunnel client is running.
    NotRunning,
}

impl FrpsError {
    /// A sentence that describes the error, for display.
    pub fn message(&self) -> String {
        match self {
            FrpsError::LimitReached => String::from_str(
                "Maximum number of port mappings (3) reached. Please remove existing mappings before adding new ones.",
            ),
            FrpsError::MappingNotFound => String::from_str("Port mapping not found"),
            FrpsError::PortsExhausted => String::from_str(
                "No available ports in range 8001-8999 after excluding restricted ports",
            ),
            FrpsError::AlreadyRunning => String::from_str("FRPS client is already running"),
            FrpsError::NotRunning => String::from_str("No active FRPS connection found"),
        }
    }
}

/// How many more mappings fit next to `n` existing ones.
pub open spec fn remaining_after(n: nat) -> nat {
    if n < MAX_PORT_MAPPINGS {
        (MAX_PORT_MAPPINGS - n) as nat
    } else {
        0
    }
}

/// Refuses a new mapping once the limit is reached.
pub fn check_port_mapping_limit(mappings: &Vec<PortMapping>) -> (r: Result<(), FrpsError>)
    ensures
        r == (if mappings@.len() >= MAX_PORT_MAPPINGS {
            Err::<(), FrpsError>(FrpsError::LimitReached)
        } else {
            Ok(())
        }),
{
    if mappings.len() >= MAX_PORT_MAPPINGS {
        Err(FrpsError::LimitReached)
    } else {
        Ok(())
    }
}

/// How many more mappings may be added.
pub fn calculate_remaining_mappings(mappings: &Vec<PortMapping>) -> (r: usize)
    ensures
        r == remaining_after(mappings@.len()),
{
    MAX_PORT_MAPPINGS.saturating_sub(mappings.len())
}

/// The mapping that a new rule for `local_port` gets.
pub open spec fn new_mapping(name: Seq<char>, local_port: u16, remote_port: u16) -> MappingView {
    MappingView {
        name,
        local_ip: DEFAULT_LOCAL_IP@,
        local_port,
        remote_port,
        protocol: DEFAULT_PROTOCOL@,
        custom_domains: None,
        subdomain: None,
    }
}

/// `c` with `m` added after its mappings.
pub open spec fn with_mapping(c: ConfigView, m: MappingView) -> ConfigView {
    ConfigView { mappings: c.mappings.push(m), ..c }
}

/// Adds a mapping from `local_port` to `remote_port`, named after the remote
/// port, unless the limit is reached. Gives the new mapping's name.
pub fn add_port_mapping_on(cfg: &mut TomlConfig, local_port: u16, remote_port: u16) -> (r: Result<
    String,
    FrpsError,
>)
    requires
        old(cfg).wf(),
    ensures
        final(cfg).wf(),
        old(cfg)@.mappings.len() >= MAX_PORT_MAPPINGS ==> r == Err::<String, FrpsError>(
            FrpsError::LimitReached,
        ) && final(cfg)@ == old(cfg)@,
        old(cfg)@.mappings.len() < MAX_PORT_MAPPINGS ==> r is Ok && final(cfg)@.mappings.len()
            == old(cfg)@.mappings.len() + 1,
        r matches Ok(name) ==> is_generated_name(name@, remote_port, old(cfg)@.mappings)
            && final(cfg)@ == with_mapping(old(cfg)@, new_mapping(name@, local_port, remote_port)),
{
    if let Err(e) = check_port_mapping_limit(&cfg.mappings) {
        return Err(e);
    }
    let name = generate_mapping_name(remote_port, &cfg.mappings);
    let m = PortMapping {
        name: name.clone(),
        local_ip: String::from_str(DEFAULT_LOCAL_IP),
        local_port,
        remote_port,
        protocol: String::from_str(DEFAULT_PROTOCOL),
        custom_domains: None,
        subdomain: None,
    };
    let ghost before = cfg@;
    cfg.mappings.push(m);
    assert(cfg@.mappings =~= before.mappings.push(new_mapping(name@, local_port, remote_port)));
    assert(cfg@ == with_mapping(before, new_mapping(name@, local_port, remote_port)));
    assert(names_unique(cfg@.mappings)) by {
        assert forall|i: int, j: int|
            0 <= i < cfg@.mappings.len() && 0 <= j < cfg@.mappings.len() && i != j implies
            #[trigger] cfg@.mappings[i].name != #[trigger] cfg@.mappings[j].name by {
            if i == before.mappings.len() as int {
                assert(!has_name(before.mappings, name@));
                assert(before.mappings[j].name != name@);
            } else if j == before.mappings.len() as int {
                assert(before.mappings[i].name != name@);
            }
        }
    }
    Ok(name)
}

/// Adds a mapping from `local_port` to a remote port drawn among those free
/// while `allocated` are in use. Refused when the limit is reached or no
/// port is free; then the configuration is unchanged. Gives the new
/// mapping's name and remote port.
pub fn add_port_mapping(cfg: &mut TomlConfig, local_port: u16, allocated: &Vec<u16>) -> (r: Result<
    (String, u16),
    FrpsError,
>)
    requires
        old(cfg).wf(),
    ensures
        final(cfg).wf(),
        old(cfg)@.mappings.len() >= MAX_PORT_MAPPINGS ==> r == Err::<(String, u16), FrpsError>(
            FrpsError::LimitReached,
        ),
        old(cfg)@.mappings.len() < MAX_PORT_MAPPINGS ==> (r is Err <==> forall|p: u16|
            !is_candidate(p, allocated@)),
        r is Err ==> final(cfg)@ == old(cfg)@,
        r is Ok ==> final(cfg)@.mappings.len() == old(cfg)@.mappings.len() + 1,
        r matches Err(e) ==> e == FrpsError::LimitReached || e == FrpsError::PortsExhausted,
        r matches Ok((name, port)) ==> is_candidate(port, allocated@) && is_generated_name(
            name@,
            port,
            old(cfg)@.mappings,
        ) && final(cfg)@ == with_mapping(old(cfg)@, new_mapping(name@, local_port, port)),
{
    if let Err(e) = check_port_mapping_limit(&cfg.mappings) {
        return Err(e);
    }
    let port = match find_available_port_in_range(allocated) {
        Ok(p) => p,
        Err(AllocationError::Exhausted) => {
            return Err(FrpsError::PortsExhausted);
        },
    };
    match add_port_mapping_on(cfg, local_port, port) {
        Ok(name) => Ok((name, port)),
        Err(e) => Err(e),
    }
}

/// `c` without its mapping called `name`.
pub open spec fn without_mapping(c: ConfigView, name: Seq<char>) -> ConfigView {
    ConfigView { mappings: c.mappings.remove(index_of(c.mappings, name)), ..c }
}

/// Removes the mapping called `name`; refused, with the configuration
/// unchanged, where there is none.
pub fn remove_port_mapping(cfg: &mut TomlConfig, name: &String) -> (r: Result<(), FrpsError>)
    requires
        old(cfg).wf(),
    ensures
        final(cfg).wf(),
        r is Ok <==> has_name(old(cfg)@.mappings, name@),
        r is Err ==> r == Err::<(), FrpsError>(FrpsError::MappingNotFound) && final(cfg)@
            == old(cfg)@,
        r is Ok ==> final(cfg)@ == without_mapping(old(cfg)@, name@),
        r is Ok ==> !has_name(final(cfg)@.mappings, name@),
        r is Ok ==> final(cfg)@.mappings.len() + 1 == old(cfg)@.mappings.len(),
{
    let ghost before = cfg@;
    let mut i: usize = 0;
    while i < cfg.mappings.len()
        invariant
            i <= cfg@.mappings.len(),
            cfg@ == before,
            before == old(cfg)@,
            cfg.wf(),
            forall|k: int| 0 <= k < i ==> (#[trigger] before.mappings[k]).name != name@,
        decreases cfg@.mappings.len() - i,
    {
        if cfg.mappings[i].name == *name {
            proof {
                assert(before.mappings[i as int].name == name@);
                let j = index_of(before.mappings, name@);
                assert(before.mappings[j].name == name@);
                assert(j == i);
            }
            cfg.mappings.remove(i);
            assert(cfg@.mappings =~= before.mappings.remove(i as int));
            assert(names_unique(cfg@.mappings)) by {
                assert forall|a: int, b: int|
                    0 <= a < cfg@.mappings.len() && 0 <= b < cfg@.mappings.len() && a != b implies
                    #[trigger] cfg@.mappings[a].name != #[trigger] cfg@.mappings[b].name by {
                    let a2 = if a < i { a } else { a + 1 };
                    let b2 = if b < i { b } else { b + 1 };
                    assert(cfg@.mappings[a] == before.mappings[a2]);
                    assert(cfg@.mappings[b] == before.mappings[b2]);
                }
            }
            assert(!has_name(cfg@.mappings, name@)) by {
                if has_name(cfg@.mappings, name@) {
                    let a = choose|a: int| 0 <= a < cfg@.mappings.len() && #[trigger] cfg@.mappings[a].name == name@;
                    let a2 = if a < i { a } else { a + 1 };
                    assert(cfg@.mappings[a] == before.mappings[a2]);
                }
            }
            return Ok(());
        }
        i = i + 1;
    }
    Err(FrpsError::MappingNotFound)
}

/// A copy of `m`, field for field.
pub fn copy_mapping(m: &PortMapping) -> (r: PortMapping)
    ensures
        r@ == m@,
{
    let custom_domains = match &m.custom_domains {
        Some(ds) => {
            let mut out: Vec<String> = Vec::new();
            let mut i: usize = 0;
            while i < ds.len()
                invariant
                    i <= ds@.len(),
                    strings_view(out) == strings_view(*ds).subrange(0, i as int),
                decreases ds@.len() - i,
            {
                let ghost before = strings_view(out);
                let c = ds[i].clone();
                out.push(c);
                assert(strings_view(out) =~= before.push(ds@[i as int]@));
                assert(strings_view(out) =~= strings_view(*ds).subrange(0, i + 1));
                i = i + 1;
            }
            assert(strings_view(*ds).subrange(0, ds@.len() as int) =~= strings_view(*ds));
            Some(out)
        },
        None => None,
    };
    let subdomain = match &m.subdomain {
        Some(s) => Some(s.clone()),
        None => None,
    };
    PortMapping {
        name: m.name.clone(),
        local_ip: m.local_ip.clone(),
        local_port: m.local_port,
        remote_port: m.remote_port,
        protocol: m.protocol.clone(),
        custom_domains,
        subdomain,
    }
}

/// Copies of the mappings, in order.
pub fn copy_mappings(ms: &Vec<PortMapping>) -> (r: Vec<PortMapping>)
    ensures
        mappings_view(r@) == mappings_view(ms@),
{
    let mut out: Vec<PortMapping> = Vec::new();
    let mut i: usize = 0;
    while i < ms.len()
        invariant
            i <= ms@.len(),
            mappings_view(out@) == mappings_view(ms@).subrange(0, i as int),
        decreases ms@.len() - i,
    {
        let ghost before = mappings_view(out@);
        let c = copy_mapping(&ms[i]);
        out.push(c);
        assert(mappings_view(out@) =~= before.push(ms@[i as int]@));
        assert(mappings_view(out@) =~= mappings_view(ms@).subrange(0, i + 1));
        i = i + 1;
    }
    assert(mappings_view(ms@).subrange(0, ms@.len() as int) =~= mappings_view(ms@));
    out
}

/// The configuration that the session last wrote, if any.
pub struct FrpsConfigState {
    pub cached: Option<TomlConfig>,
}

/// An empty configuration cache.
pub fn init_frps_config_state() -> (r: FrpsConfigState)
    ensures
        r.cached is None,
{
    FrpsConfigState { cached: None }
}

/// What a status query answers.
#[derive(Debug, Clone)]
pub struct FrpsStatus {
    pub connected: bool,
    pub server_addr: String,
    pub active_mappings: Vec<PortMapping>,
    pub pid: Option<u32>,
    pub max_mappings: usize,
    pub remaining_mappings: usize,
}

/// The status: connected where the session tracks a client (`tracked_pid`)
/// or one runs untracked (`os_running`); server and mappings from the cached
/// configuration, or the default server and none.
pub fn build_status(tracked_pid: Option<u32>, os_running: bool, state: &FrpsConfigState) -> (r:
    FrpsStatus)
    ensures
        r.connected == (tracked_pid is Some || os_running),
        r.pid == tracked_pid,
        r.max_mappings == MAX_PORT_MAPPINGS,
        r.remaining_mappings == remaining_after(r.active_mappings@.len()),
        match state.cached {
            Some(c) => r.server_addr@ == c.server_addr@ && mappings_view(r.active_mappings@)
                == c@.mappings,
            None => r.server_addr@ == DEFAULT_SERVER_ADDR@ && r.active_mappings@.len() == 0,
        },
{
    let (server_addr, active_mappings) = match &state.cached {
        Some(c) => (c.server_addr.clone(), copy_mappings(&c.mappings)),
        None => (String::from_str(DEFAULT_SERVER_ADDR), Vec::new()),
    };
    let remaining_mappings = calculate_remaining_mappings(&active_mappings);
    FrpsStatus {
        connected: tracked_pid.is_some() || os_running,
        server_addr,
        active_mappings,
        pid: tracked_pid,
        max_mappings: MAX_PORT_MAPPINGS,
        remaining_mappings,
    }
}

/// The connection settings that the client is always started with.
pub fn frps_load_config() -> (r: FrpsConfig)
    ensures
        r.server_addr@ == DEFAULT_SERVER_ADDR@,
        r.server_port == DEFAULT_SERVER_PORT,
        r.token@.len() == 0,
        r.user@.len() == 0,
{
    FrpsConfig {
        server_addr: String::from_str(DEFAULT_SERVER_ADDR),
        server_port: DEFAULT_SERVER_PORT,
        token: String::new(),
        user: String::new(),
    }
}

} // verus!
