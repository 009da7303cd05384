//! The tunnel configuration: its data model, the line-oriented text format it
//! is stored in, and the reader and writer of that format.

use vstd::prelude::*;

verus! {

/// Address of the tunnel server that every configuration points at.
pub const DEFAULT_SERVER_ADDR: &'static str = "64.23.133.199";

/// Port of the tunnel server.
pub const DEFAULT_SERVER_PORT: u16 = 7000;

/// Protocol tag given to new mappings and to blocks that name none.
pub const DEFAULT_PROTOCOL: &'static str = "tcp";

/// Local bind address given to new mappings and to blocks that name none.
pub const DEFAULT_LOCAL_IP: &'static str = "127.0.0.1";

/// Connection settings of the tunnel client.
#[derive(Debug, Clone)]
pub struct FrpsConfig {
    pub server_addr: String,
    pub server_port: u16,
    pub token: String,
    pub user: String,
}

/// One forwarding rule: a local address and port exposed on a remote port.
#[derive(Debug, Clone)]
pub struct PortMapping {
    pub name: String,
    pub local_ip: String,
    pub local_port: u16,
    pub remote_port: u16,
    pub protocol: String,
    pub custom_domains: Option<Vec<String>>,
    pub subdomain: Option<String>,
}

/// What a caller asks for when adding a mapping: the local port only.
#[derive(Debug, Clone, Copy)]
pub struct SimplePortMapping {
    pub local_port: u16,
}

/// The whole stored configuration: server identity and the named mappings,
/// in the order in which they are written out.
#[derive(Debug, Clone)]
pub struct TomlConfig {
    pub server_addr: String,
    pub server_port: u16,
    pub token: String,
    pub user: String,
    pub mappings: Vec<PortMapping>,
}

pub struct MappingView {
    pub name: Seq<char>,
    pub local_ip: Seq<char>,
    pub local_port: u16,
    pub remote_port: u16,
    pub protocol: Seq<char>,
    pub custom_domains: Option<Seq<Seq<char>>>,
    pub subdomain: Option<Seq<char>>,
}

pub struct ConfigView {
    pub server_addr: Seq<char>,
    pub server_port: u16,
    pub token: Seq<char>,
    pub user: Seq<char>,
    pub mappings: Seq<MappingView>,
}

pub open spec fn strings_view(v: Vec<String>) -> Seq<Seq<char>> {
    v@.map_values(|s: String| s@)
}

impl View for PortMapping {
    type V = MappingView;

    open spec fn view(&self) -> MappingView {
        MappingView {
            name: self.name@,
            local_ip: self.local_ip@,
            local_port: self.local_port,
            remote_port: self.remote_port,
            protocol: self.protocol@,
            custom_domains: match self.custom_domains {
                Some(v) => Some(strings_view(v)),
                None => None,
            },
            subdomain: match self.subdomain {
                Some(s) => Some(s@),
                None => None,
            },
        }
    }
}

pub open spec fn mappings_view(v: Seq<PortMapping>) -> Seq<MappingView> {
    v.map_values(|m: PortMapping| m@)
}

impl View for TomlConfig {
    type V = ConfigView;

    open spec fn view(&self) -> ConfigView {
        ConfigView {
            server_addr: self.server_addr@,
            server_port: self.server_port,
            token: self.token@,
            user: self.user@,
            mappings: mappings_view(self.mappings@),
        }
    }
}

/// No two mappings share a name.
pub open spec fn names_unique(ms: Seq<MappingView>) -> bool {
    forall|i: int, j: int|
        0 <= i < ms.len() && 0 <= j < ms.len() && i != j ==> #[trigger] ms[i].name
            != #[trigger] ms[j].name
}

/// Whether some mapping of `ms` is called `name`.
pub open spec fn has_name(ms: Seq<MappingView>, name: Seq<char>) -> bool {
    exists|i: int| 0 <= i < ms.len() && #[trigger] ms[i].name == name
}

impl TomlConfig {
    /// The configuration's own invariant: mapping names are unique.
    pub open spec fn wf(&self) -> bool {
        names_unique(self@.mappings)
    }
}

/// The configuration used when none is stored.
pub open spec fn default_config() -> ConfigView {
    ConfigView {
        server_addr: DEFAULT_SERVER_ADDR@,
        server_port: DEFAULT_SERVER_PORT,
        token: Seq::empty(),
        user: Seq::empty(),
        mappings: Seq::empty(),
    }
}

/// The configuration used when no configuration file exists.
pub fn default_toml_config() -> (r: TomlConfig)
    ensures
        r@ == default_config(),
        r.wf(),
{
    let r = TomlConfig {
        server_addr: String::from_str(DEFAULT_SERVER_ADDR),
        server_port: DEFAULT_SERVER_PORT,
        token: String::new(),
        user: String::new(),
        mappings: Vec::new(),
    };
    assert(r@.mappings =~= Seq::<MappingView>::empty());
    r
}

} // verus!
