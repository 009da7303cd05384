//! The text format of the configuration file. Reading is line by line and
//! lenient: unknown lines are skipped and unreadable numbers fall back to
//! defaults. Writing puts the header fields first, then one `[[proxies]]`
//! block per mapping.

use vstd::prelude::*;
use crate::config::{
    ConfigView, MappingView, PortMapping, TomlConfig, DEFAULT_LOCAL_IP, DEFAULT_PROTOCOL,
    DEFAULT_SERVER_PORT, default_config, default_toml_config, has_name,
    mappings_view, names_unique, strings_view,
};
use crate::text::{
    chars_of, decimal, field_value, push_decimal, find_char, find_from, has_prefix, parse_u16, parse_u16_spec,
    starts_with, string_from, strip, strip_range, sub_vec, trim, trim_range,
};

verus! {

pub proof fn lemma_find_char(s: Seq<char>, c: char, i: int)
    requires
        0 <= i <= s.len(),
    ensures
        i <= find_char(s, c, i) <= s.len(),
        find_char(s, c, i) < s.len() ==> s[find_char(s, c, i)] == c,
        forall|k: int| i <= k < find_char(s, c, i) ==> s[k] != c,
    decreases s.len() - i,
{
    if i < s.len() && s[i] != c {
        lemma_find_char(s, c, i + 1);
    }
}

/// A quoted field value: trimmed, then stripped of its double quotes.
pub open spec fn unquote(v: Seq<char>) -> Seq<char> {
    strip(trim(v), '"')
}

/// A numeric field value, or `fallback` where it does not read as a `u16`.
pub open spec fn number_or(v: Seq<char>, fallback: u16) -> u16 {
    match parse_u16_spec(trim(v)) {
        Some(n) => n,
        None => fallback,
    }
}

/// The non-empty entries of a comma-separated domain list, from `pos` on,
/// each trimmed and unquoted.
pub open spec fn domains_from(s: Seq<char>, pos: int) -> Seq<Seq<char>>
    decreases s.len() - pos,
    via domains_from_decreases
{
    if pos < 0 || pos > s.len() {
        Seq::empty()
    } else {
        let i = find_char(s, ',', pos);
        let d = unquote(s.subrange(pos, i));
        let rest = if i < s.len() {
            domains_from(s, i + 1)
        } else {
            Seq::empty()
        };
        if d.len() > 0 {
            seq![d] + rest
        } else {
            rest
        }
    }
}

#[via_fn]
proof fn domains_from_decreases(s: Seq<char>, pos: int) {
    if 0 <= pos <= s.len() {
        lemma_find_char(s, ',', pos);
    }
}

/// The domains that a `customDomains` value lists.
pub open spec fn domain_list(v: Seq<char>) -> Seq<Seq<char>> {
    domains_from(strip(strip(trim(v), '['), ']'), 0)
}

/// A block that has just been opened by `[[proxies]]`.
pub open spec fn new_block() -> MappingView {
    MappingView {
        name: Seq::empty(),
        local_ip: DEFAULT_LOCAL_IP@,
        local_port: 0,
        remote_port: 0,
        protocol: DEFAULT_PROTOCOL@,
        custom_domains: None,
        subdomain: None,
    }
}

/// The index of the mapping called `name`, where there is one.
pub open spec fn index_of(ms: Seq<MappingView>, name: Seq<char>) -> int {
    choose|i: int| 0 <= i < ms.len() && #[trigger] ms[i].name == name
}

/// `ms` with `m` in place of the mapping of the same name, or with `m` added
/// at the end where there is none.
pub open spec fn upsert(ms: Seq<MappingView>, m: MappingView) -> Seq<MappingView> {
    if has_name(ms, m.name) {
        ms.update(index_of(ms, m.name), m)
    } else {
        ms.push(m)
    }
}

/// The state of a reader between two lines.
pub struct ReadState {
    pub cfg: ConfigView,
    pub current: Option<MappingView>,
    pub current_name: Seq<char>,
}

pub open spec fn initial_state() -> ReadState {
    ReadState { cfg: default_config(), current: None, current_name: Seq::empty() }
}

/// Stores the open block, if any, under the last name read.
pub open spec fn flush(st: ReadState) -> ConfigView {
    match st.current {
        Some(m) => ConfigView {
            mappings: upsert(st.cfg.mappings, MappingView { name: st.current_name, ..m }),
            ..st.cfg
        },
        None => st.cfg,
    }
}

/// What a line of an open block does to that block.
pub open spec fn block_step(m: MappingView, line: Seq<char>) -> MappingView {
    match field_value(line) {
        None => m,
        Some(v) => if starts_with(line, "name"@) {
            MappingView { name: unquote(v), ..m }
        } else if starts_with(line, "type"@) {
            MappingView { protocol: unquote(v), ..m }
        } else if starts_with(line, "localIP"@) {
            MappingView { local_ip: unquote(v), ..m }
        } else if starts_with(line, "localPort"@) {
            MappingView { local_port: number_or(v, 0), ..m }
        } else if starts_with(line, "remotePort"@) {
            MappingView { remote_port: number_or(v, 0), ..m }
        } else if starts_with(line, "subdomain"@) {
            MappingView { subdomain: Some(unquote(v)), ..m }
        } else if starts_with(line, "customDomains"@) && domain_list(v).len() > 0 {
            MappingView { custom_domains: Some(domain_list(v)), ..m }
        } else {
            m
        },
    }
}

/// What one trimmed line does to the reader.
pub open spec fn step(st: ReadState, line: Seq<char>) -> ReadState {
    let cfg = st.cfg;
    if starts_with(line, "serverAddr"@) {
        match field_value(line) {
            Some(v) => ReadState { cfg: ConfigView { server_addr: unquote(v), ..cfg }, ..st },
            None => st,
        }
    } else if starts_with(line, "serverPort"@) {
        match field_value(line) {
            Some(v) => ReadState {
                cfg: ConfigView { server_port: number_or(v, DEFAULT_SERVER_PORT), ..cfg },
                ..st
            },
            None => st,
        }
    } else if starts_with(line, "auth.token"@) {
        match field_value(line) {
            Some(v) => ReadState { cfg: ConfigView { token: unquote(v), ..cfg }, ..st },
            None => st,
        }
    } else if starts_with(line, "user"@) {
        match field_value(line) {
            Some(v) => ReadState { cfg: ConfigView { user: unquote(v), ..cfg }, ..st },
            None => st,
        }
    } else if starts_with(line, "[[proxies]]"@) {
        ReadState { cfg: flush(st), current: Some(new_block()), current_name: st.current_name }
    } else {
        match st.current {
            Some(m) => ReadState {
                current: Some(block_step(m, line)),
                current_name: match field_value(line) {
                    Some(v) => if starts_with(line, "name"@) {
                        unquote(v)
                    } else {
                        st.current_name
                    },
                    None => st.current_name,
                },
                ..st
            },
            None => st,
        }
    }
}

/// The reader after the lines of `s` from `pos` on; lines end at `\n` and are
/// trimmed before they are read.
pub open spec fn read_from(s: Seq<char>, pos: int, st: ReadState) -> ReadState
    decreases s.len() - pos,
    via read_from_decreases
{
    if pos < 0 || pos > s.len() {
        st
    } else {
        let i = find_char(s, '\n', pos);
        let next = step(st, trim(s.subrange(pos, i)));
        if i < s.len() {
            read_from(s, i + 1, next)
        } else {
            next
        }
    }
}

#[via_fn]
proof fn read_from_decreases(s: Seq<char>, pos: int, st: ReadState) {
    if 0 <= pos <= s.len() {
        lemma_find_char(s, '\n', pos);
    }
}

/// The configuration that the text `s` describes.
pub open spec fn parse_text(s: Seq<char>) -> ConfigView {
    flush(read_from(s, 0, initial_state()))
}

/// The text between the first `=` of `line` and the next one.
pub fn value_of_line(line: &Vec<char>) -> (r: Option<Vec<char>>)
    ensures
        match r {
            Some(v) => field_value(line@) == Some(v@),
            None => field_value(line@) is None,
        },
{
    let i = find_from(line, '=', 0);
    if i < line.len() {
        let j = find_from(line, '=', i + 1);
        Some(sub_vec(line, i + 1, j))
    } else {
        None
    }
}

fn unquote_value(v: &Vec<char>) -> (r: String)
    ensures
        r@ == unquote(v@),
{
    assert(v@.subrange(0, v@.len() as int) =~= v@);
    let (a, b) = trim_range(v, 0, v.len());
    let t = sub_vec(v, a, b);
    assert(t@.subrange(0, t@.len() as int) =~= t@);
    let (c, d) = strip_range(&t, 0, t.len(), '"');
    string_from(&t, c, d)
}

fn number_value(v: &Vec<char>, fallback: u16) -> (r: u16)
    ensures
        r == number_or(v@, fallback),
{
    assert(v@.subrange(0, v@.len() as int) =~= v@);
    let (a, b) = trim_range(v, 0, v.len());
    match parse_u16(v, a, b) {
        Some(n) => n,
        None => fallback,
    }
}

fn domains_value(v: &Vec<char>) -> (r: Vec<String>)
    ensures
        strings_view(r) == domain_list(v@),
{
    assert(v@.subrange(0, v@.len() as int) =~= v@);
    let (a, b) = trim_range(v, 0, v.len());
    let t = sub_vec(v, a, b);
    assert(t@.subrange(0, t@.len() as int) =~= t@);
    let (c, d) = strip_range(&t, 0, t.len(), '[');
    let u = sub_vec(&t, c, d);
    assert(u@.subrange(0, u@.len() as int) =~= u@);
    let (e, f) = strip_range(&u, 0, u.len(), ']');
    let w = sub_vec(&u, e, f);
    let mut out: Vec<String> = Vec::new();
    let mut pos: usize = 0;
    loop
        invariant_except_break
            pos <= w@.len(),
            strings_view(out) + domains_from(w@, pos as int) == domains_from(w@, 0),
        ensures
            strings_view(out) == domains_from(w@, 0),
        decreases w@.len() - pos,
    {
        let i = find_from(&w, ',', pos);
        proof {
            lemma_find_char(w@, ',', pos as int);
        }
        let seg = sub_vec(&w, pos, i);
        let d = unquote_value(&seg);
        let ghost before = strings_view(out);
        if !d.as_str().is_empty() {
            out.push(d);
            assert(strings_view(out) =~= before.push(d@));
        }
        if i >= w.len() {
            assert(strings_view(out) =~= domains_from(w@, 0));
            break ;
        }
        assert(strings_view(out) + domains_from(w@, i + 1) =~= domains_from(w@, 0));
        pos = i + 1;
    }
    out
}

/// Puts `m` in place of the mapping of the same name, or adds it at the end.
fn store_mapping(ms: &mut Vec<PortMapping>, m: PortMapping)
    requires
        names_unique(mappings_view(old(ms)@)),
    ensures
        mappings_view(final(ms)@) == upsert(mappings_view(old(ms)@), m@),
        names_unique(mappings_view(final(ms)@)),
{
    let ghost before = mappings_view(ms@);
    let mut i: usize = 0;
    while i < ms.len()
        invariant
            i <= ms@.len(),
            before == mappings_view(ms@),
            before == mappings_view(old(ms)@),
            names_unique(before),
            forall|k: int| 0 <= k < i ==> (#[trigger] before[k]).name != m.name@,
        decreases ms@.len() - i,
    {
        if ms[i].name == m.name {
            proof {
                assert(before[i as int].name == m@.name);
                assert(has_name(before, m@.name));
                let j = index_of(before, m@.name);
                assert(before[j].name == m@.name);
                assert(j == i);
            }
            ms[i] = m;
            assert(mappings_view(ms@) =~= before.update(i as int, m@));
            assert(names_unique(mappings_view(ms@)));
            return ;
        }
        i = i + 1;
    }
    ms.push(m);
    assert(mappings_view(ms@) =~= before.push(m@));
}

/// A reader between two lines: the configuration so far, the open block and
/// the last name read.
pub struct Reader {
    pub cfg: TomlConfig,
    pub current: Option<PortMapping>,
    pub current_name: String,
}

impl View for Reader {
    type V = ReadState;

    open spec fn view(&self) -> ReadState {
        ReadState {
            cfg: self.cfg@,
            current: match self.current {
                Some(m) => Some(m@),
                None => None,
            },
            current_name: self.current_name@,
        }
    }
}

fn opened_block() -> (r: PortMapping)
    ensures
        r@ == new_block(),
{
    PortMapping {
        name: String::new(),
        local_ip: String::from_str(DEFAULT_LOCAL_IP),
        local_port: 0,
        remote_port: 0,
        protocol: String::from_str(DEFAULT_PROTOCOL),
        custom_domains: None,
        subdomain: None,
    }
}

/// The configuration once the open block, if any, is stored.
fn finish(rd: Reader) -> (r: TomlConfig)
    requires
        rd.cfg.wf(),
    ensures
        r@ == flush(rd@),
        r.wf(),
{
    let Reader { cfg, current, current_name } = rd;
    let mut cfg = cfg;
    match current {
        Some(m) => {
            let mut m = m;
            m.name = current_name;
            store_mapping(&mut cfg.mappings, m);
            cfg
        },
        None => cfg,
    }
}

fn read_block_line(m: PortMapping, line: &Vec<char>) -> (r: PortMapping)
    ensures
        r@ == block_step(m@, line@),
{
    let mut m = m;
    match value_of_line(line) {
        None => m,
        Some(v) => {
            if has_prefix(line, "name") {
                m.name = unquote_value(&v);
            } else if has_prefix(line, "type") {
                m.protocol = unquote_value(&v);
            } else if has_prefix(line, "localIP") {
                m.local_ip = unquote_value(&v);
            } else if has_prefix(line, "localPort") {
                m.local_port = number_value(&v, 0);
            } else if has_prefix(line, "remotePort") {
                m.remote_port = number_value(&v, 0);
            } else if has_prefix(line, "subdomain") {
                m.subdomain = Some(unquote_value(&v));
            } else if has_prefix(line, "customDomains") {
                let ds = domains_value(&v);
                if ds.len() > 0 {
                    m.custom_domains = Some(ds);
                }
            }
            m
        },
    }
}

/// Reads one trimmed line.
fn read_line(rd: Reader, line: &Vec<char>) -> (r: Reader)
    requires
        rd.cfg.wf(),
    ensures
        r@ == step(rd@, line@),
        r.cfg.wf(),
{
    let Reader { cfg, current, current_name } = rd;
    let mut cfg = cfg;
    if has_prefix(line, "serverAddr") {
        if let Some(v) = value_of_line(line) {
            cfg.server_addr = unquote_value(&v);
        }
        Reader { cfg, current, current_name }
    } else if has_prefix(line, "serverPort") {
        if let Some(v) = value_of_line(line) {
            cfg.server_port = number_value(&v, DEFAULT_SERVER_PORT);
        }
        Reader { cfg, current, current_name }
    } else if has_prefix(line, "auth.token") {
        if let Some(v) = value_of_line(line) {
            cfg.token = unquote_value(&v);
        }
        Reader { cfg, current, current_name }
    } else if has_prefix(line, "user") {
        if let Some(v) = value_of_line(line) {
            cfg.user = unquote_value(&v);
        }
        Reader { cfg, current, current_name }
    } else if has_prefix(line, "[[proxies]]") {
        let name = current_name.clone();
        let cfg = finish(Reader { cfg, current, current_name });
        Reader { cfg, current: Some(opened_block()), current_name: name }
    } else {
        match current {
            Some(m) => {
                let mut current_name = current_name;
                if has_prefix(line, "name") {
                    if let Some(v) = value_of_line(line) {
                        current_name = unquote_value(&v);
                    }
                }
                Reader { cfg, current: Some(read_block_line(m, line)), current_name }
            },
            None => Reader { cfg, current: None, current_name },
        }
    }
}

/// The configuration that `content` describes. Lines are trimmed and read in
/// order; unknown lines are skipped, numbers that do not read fall back to
/// their defaults, and a later block replaces an earlier one of the same
/// name.
pub fn parse_config(content: &str) -> (r: TomlConfig)
    ensures
        r@ == parse_text(content@),
        r.wf(),
{
    let v = chars_of(content);
    let d = default_toml_config();
    let mut rd = Reader { cfg: d, current: None, current_name: String::new() };
    assert(rd@ == initial_state());
    let mut pos: usize = 0;
    loop
        invariant_except_break
            pos <= v@.len(),
            rd.cfg.wf(),
            read_from(v@, pos as int, rd@) == read_from(v@, 0, initial_state()),
        ensures
            rd.cfg.wf(),
            rd@ == read_from(v@, 0, initial_state()),
        decreases v@.len() - pos,
    {
        let i = find_from(&v, '\n', pos);
        proof {
            lemma_find_char(v@, '\n', pos as int);
        }
        let (a, b) = trim_range(&v, pos, i);
        let line = sub_vec(&v, a, b);
        rd = read_line(rd, &line);
        if i >= v.len() {
            break ;
        }
        pos = i + 1;
    }
    finish(rd)
}

/// `key = "v"` and a line break.
pub open spec fn quoted_line(key: Seq<char>, v: Seq<char>) -> Seq<char> {
    key + " = \""@ + v + "\"\n"@
}

/// `key = n` and a line break.
pub open spec fn number_line(key: Seq<char>, n: u16) -> Seq<char> {
    key + " = "@ + decimal(n as nat) + "\n"@
}

/// The domains, each in double quotes, separated by `, `.
pub open spec fn list_text(ds: Seq<Seq<char>>) -> Seq<char>
    decreases ds.len(),
{
    if ds.len() == 0 {
        Seq::empty()
    } else if ds.len() == 1 {
        "\""@ + ds[0] + "\""@
    } else {
        list_text(ds.drop_last()) + ", "@ + "\""@ + ds.last() + "\""@
    }
}

/// The header: address, port, token and user where they are not empty, and
/// a blank line.
pub open spec fn header_text(c: ConfigView) -> Seq<char> {
    quoted_line("serverAddr"@, c.server_addr) + number_line("serverPort"@, c.server_port) + (
    if c.token.len() > 0 {
        quoted_line("auth.token"@, c.token)
    } else {
        Seq::empty()
    }) + (if c.user.len() > 0 {
        quoted_line("user"@, c.user)
    } else {
        Seq::empty()
    }) + "\n"@
}

/// The optional lines of a block: its subdomain and its domain list.
pub open spec fn extras_text(m: MappingView) -> Seq<char> {
    (match m.subdomain {
        Some(sd) => quoted_line("subdomain"@, sd),
        None => Seq::empty(),
    }) + (match m.custom_domains {
        Some(ds) => if ds.len() > 0 {
            "customDomains = ["@ + list_text(ds) + "]\n"@
        } else {
            Seq::empty()
        },
        None => Seq::empty(),
    })
}

/// One `[[proxies]]` block and the blank line after it.
pub open spec fn block_text(m: MappingView) -> Seq<char> {
    "[[proxies]]\n"@ + quoted_line("name"@, m.name) + quoted_line("type"@, m.protocol)
        + quoted_line("localIP"@, m.local_ip) + number_line("localPort"@, m.local_port)
        + number_line("remotePort"@, m.remote_port) + extras_text(m) + "\n"@
}

pub open spec fn blocks_text(ms: Seq<MappingView>) -> Seq<char>
    decreases ms.len(),
{
    if ms.len() == 0 {
        Seq::empty()
    } else {
        blocks_text(ms.drop_last()) + block_text(ms.last())
    }
}

/// The text that stores `c`.
pub open spec fn config_text(c: ConfigView) -> Seq<char> {
    header_text(c) + blocks_text(c.mappings)
}

fn push_quoted_line(out: &mut String, key: &str, v: &str)
    ensures
        final(out)@ == old(out)@ + quoted_line(key@, v@),
{
    out.append(key);
    out.append(" = \"");
    out.append(v);
    out.append("\"\n");
    assert(final(out)@ =~= old(out)@ + quoted_line(key@, v@));
}

fn push_number_line(out: &mut String, key: &str, n: u16)
    ensures
        final(out)@ == old(out)@ + number_line(key@, n),
{
    out.append(key);
    out.append(" = ");
    push_decimal(out, n as u128);
    out.append("\n");
    assert(final(out)@ =~= old(out)@ + number_line(key@, n));
}

fn push_list(out: &mut String, ds: &Vec<String>)
    ensures
        final(out)@ == old(out)@ + list_text(strings_view(*ds)),
{
    let ghost start = out@;
    let mut i: usize = 0;
    while i < ds.len()
        invariant
            i <= ds@.len(),
            out@ == start + list_text(strings_view(*ds).subrange(0, i as int)),
        decreases ds@.len() - i,
    {
        let ghost sv = strings_view(*ds).subrange(0, i + 1);
        assert(sv.drop_last() =~= strings_view(*ds).subrange(0, i as int));
        assert(sv.last() == ds@[i as int]@);
        if i == 0 {
            assert(list_text(sv.drop_last()) =~= Seq::<char>::empty());
        }
        if i > 0 {
            out.append(", ");
        }
        out.append("\"");
        out.append(ds[i].as_str());
        out.append("\"");
        assert(out@ =~= start + list_text(sv));
        i = i + 1;
    }
    assert(strings_view(*ds).subrange(0, ds@.len() as int) =~= strings_view(*ds));
}

fn push_extras(out: &mut String, m: &PortMapping)
    ensures
        final(out)@ == old(out)@ + extras_text(m@),
{
    let ghost start = out@;
    if let Some(sd) = &m.subdomain {
        push_quoted_line(out, "subdomain", sd.as_str());
    }
    let ghost mid = out@;
    assert(mid == start + match m@.subdomain {
        Some(sd) => quoted_line("subdomain"@, sd),
        None => Seq::empty(),
    });
    if let Some(ds) = &m.custom_domains {
        if ds.len() > 0 {
            out.append("customDomains = [");
            push_list(out, ds);
            out.append("]\n");
        }
    }
    assert(out@ =~= start + extras_text(m@));
}

fn push_block(out: &mut String, m: &PortMapping)
    ensures
        final(out)@ == old(out)@ + block_text(m@),
{
    let ghost start = out@;
    out.append("[[proxies]]\n");
    push_quoted_line(out, "name", m.name.as_str());
    push_quoted_line(out, "type", m.protocol.as_str());
    push_quoted_line(out, "localIP", m.local_ip.as_str());
    push_number_line(out, "localPort", m.local_port);
    push_number_line(out, "remotePort", m.remote_port);
    let ghost mid = out@;
    assert(mid =~= start + ("[[proxies]]\n"@ + quoted_line("name"@, m@.name) + quoted_line(
        "type"@,
        m@.protocol,
    ) + quoted_line("localIP"@, m@.local_ip) + number_line("localPort"@, m@.local_port)
        + number_line("remotePort"@, m@.remote_port)));
    push_extras(out, m);
    out.append("\n");
    assert(out@ =~= start + block_text(m@));
}

impl TomlConfig {
    /// The text that stores this configuration: the header, then one block
    /// per mapping in order.
    pub fn to_toml_string(&self) -> (r: String)
        ensures
            r@ == config_text(self@),
    {
        let mut out = String::new();
        push_quoted_line(&mut out, "serverAddr", self.server_addr.as_str());
        push_number_line(&mut out, "serverPort", self.server_port);
        let ghost mid = out@;
        if !self.token.as_str().is_empty() {
            push_quoted_line(&mut out, "auth.token", self.token.as_str());
        }
        if !self.user.as_str().is_empty() {
            push_quoted_line(&mut out, "user", self.user.as_str());
        }
        out.append("\n");
        assert(out@ =~= header_text(self@));
        let ghost head = out@;
        let mut i: usize = 0;
        while i < self.mappings.len()
            invariant
                i <= self.mappings@.len(),
                out@ == head + blocks_text(self@.mappings.subrange(0, i as int)),
            decreases self.mappings@.len() - i,
        {
            let ghost ms = self@.mappings.subrange(0, i + 1);
            assert(ms.drop_last() =~= self@.mappings.subrange(0, i as int));
            push_block(&mut out, &self.mappings[i]);
            assert(out@ =~= head + blocks_text(ms));
            i = i + 1;
        }
        assert(self@.mappings.subrange(0, self.mappings@.len() as int) =~= self@.mappings);
        out
    }
}

} // verus!
