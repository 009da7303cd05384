use vieshare_tunnel::config::{default_toml_config, PortMapping, TomlConfig};
use vieshare_tunnel::format::parse_config;
use vieshare_tunnel::text::parse_u16;

fn mapping(name: &str, local_port: u16, remote_port: u16) -> PortMapping {
    PortMapping {
        name: name.to_string(),
        local_ip: "127.0.0.1".to_string(),
        local_port,
        remote_port,
        protocol: "tcp".to_string(),
        custom_domains: None,
        subdomain: None,
    }
}

fn read_u16(s: &str) -> Option<u16> {
    let v: Vec<char> = s.chars().collect();
    parse_u16(&v, 0, v.len())
}

#[test]
fn empty_text_gives_default_config() {
    let c = parse_config("");
    assert_eq!(c.server_addr, "64.23.133.199");
    assert_eq!(c.server_port, 7000);
    assert_eq!(c.token, "");
    assert_eq!(c.user, "");
    assert!(c.mappings.is_empty());
}

#[test]
fn header_fields_are_read() {
    let c = parse_config(
        "serverAddr = \"10.0.0.1\"\nserverPort = 7100\nauth.token = \"abc\"\nuser = \"bob\"\n",
    );
    assert_eq!(c.server_addr, "10.0.0.1");
    assert_eq!(c.server_port, 7100);
    assert_eq!(c.token, "abc");
    assert_eq!(c.user, "bob");
}

#[test]
fn malformed_numbers_fall_back_to_defaults() {
    let c = parse_config(
        "serverPort = abc\n[[proxies]]\nname = \"a\"\nlocalPort = 99999\nremotePort = x\n",
    );
    assert_eq!(c.server_port, 7000);
    assert_eq!(c.mappings.len(), 1);
    assert_eq!(c.mappings[0].local_port, 0);
    assert_eq!(c.mappings[0].remote_port, 0);
}

#[test]
fn blocks_are_read_with_defaults_and_unknown_lines_skipped() {
    let text = "# comment\nserverAddr = \"h\"\nfoo = bar\n\n[[proxies]]\nname = \"web\"\nlocalPort = 3000\nremotePort = 8123\nsubdomain = \"app\"\ncustomDomains = [\"a.com\", \"b.com\"]\n\n  [[proxies]]  \n  name = \"db\"\r\ntype = \"udp\"\nlocalIP = \"10.1.1.1\"\nlocalPort = +5432\nremotePort = 8200\n";
    let c = parse_config(text);
    assert_eq!(c.server_addr, "h");
    assert_eq!(c.mappings.len(), 2);
    let web = &c.mappings[0];
    assert_eq!(web.name, "web");
    assert_eq!(web.local_ip, "127.0.0.1");
    assert_eq!(web.protocol, "tcp");
    assert_eq!(web.local_port, 3000);
    assert_eq!(web.remote_port, 8123);
    assert_eq!(web.subdomain, Some("app".to_string()));
    assert_eq!(web.custom_domains, Some(vec!["a.com".to_string(), "b.com".to_string()]));
    let db = &c.mappings[1];
    assert_eq!(db.name, "db");
    assert_eq!(db.protocol, "udp");
    assert_eq!(db.local_ip, "10.1.1.1");
    assert_eq!(db.local_port, 5432);
    assert_eq!(db.remote_port, 8200);
    assert_eq!(db.custom_domains, None);
}

#[test]
fn later_block_replaces_one_of_the_same_name() {
    let text = "[[proxies]]\nname = \"a\"\nlocalPort = 1\n[[proxies]]\nname = \"b\"\nlocalPort = 2\n[[proxies]]\nname = \"a\"\nlocalPort = 3\n";
    let c = parse_config(text);
    assert_eq!(c.mappings.len(), 2);
    assert_eq!(c.mappings[0].name, "a");
    assert_eq!(c.mappings[0].local_port, 3);
    assert_eq!(c.mappings[1].name, "b");
}

#[test]
fn empty_domain_list_is_ignored() {
    let c = parse_config("[[proxies]]\nname = \"a\"\ncustomDomains = [\"\", \"\"]\n");
    assert_eq!(c.mappings[0].custom_domains, None);
}

#[test]
fn serialized_text_is_exact() {
    let mut c = default_toml_config();
    c.mappings.push(mapping("nextjs8123", 3000, 8123));
    let text = c.to_toml_string();
    assert_eq!(
        text,
        "serverAddr = \"64.23.133.199\"\nserverPort = 7000\n\n[[proxies]]\nname = \"nextjs8123\"\ntype = \"tcp\"\nlocalIP = \"127.0.0.1\"\nlocalPort = 3000\nremotePort = 8123\n\n"
    );
}

#[test]
fn serialized_text_holds_token_user_and_extras() {
    let mut m = mapping("w", 80, 8500);
    m.subdomain = Some("sub".to_string());
    m.custom_domains = Some(vec!["x.org".to_string(), "y.org".to_string()]);
    let c = TomlConfig {
        server_addr: "s".to_string(),
        server_port: 1,
        token: "t".to_string(),
        user: "u".to_string(),
        mappings: vec![m],
    };
    assert_eq!(
        c.to_toml_string(),
        "serverAddr = \"s\"\nserverPort = 1\nauth.token = \"t\"\nuser = \"u\"\n\n[[proxies]]\nname = \"w\"\ntype = \"tcp\"\nlocalIP = \"127.0.0.1\"\nlocalPort = 80\nremotePort = 8500\nsubdomain = \"sub\"\ncustomDomains = [\"x.org\", \"y.org\"]\n\n"
    );
}

#[test]
fn save_load_save_round_trip() {
    let mut m1 = mapping("nextjs8123", 3000, 8123);
    m1.subdomain = Some("app".to_string());
    m1.custom_domains = Some(vec!["a.com".to_string(), "b c.com".to_string()]);
    let mut m2 = mapping("db", 5432, 8200);
    m2.protocol = "udp".to_string();
    m2.local_ip = "10.0.0.9".to_string();
    let c = TomlConfig {
        server_addr: "example.org".to_string(),
        server_port: 7000,
        token: "tok".to_string(),
        user: "me".to_string(),
        mappings: vec![m1, m2],
    };
    let text = c.to_toml_string();
    let back = parse_config(&text);
    assert_eq!(back.server_addr, c.server_addr);
    assert_eq!(back.server_port, c.server_port);
    assert_eq!(back.token, c.token);
    assert_eq!(back.user, c.user);
    assert_eq!(back.mappings.len(), 2);
    for (a, b) in back.mappings.iter().zip(c.mappings.iter()) {
        assert_eq!(a.name, b.name);
        assert_eq!(a.local_ip, b.local_ip);
        assert_eq!(a.local_port, b.local_port);
        assert_eq!(a.remote_port, b.remote_port);
        assert_eq!(a.protocol, b.protocol);
        assert_eq!(a.custom_domains, b.custom_domains);
        assert_eq!(a.subdomain, b.subdomain);
    }
    assert_eq!(back.to_toml_string(), text);
}

#[test]
fn numbers_read_as_std_parse_reads_them() {
    assert_eq!(read_u16("0"), Some(0));
    assert_eq!(read_u16("+12"), Some(12));
    assert_eq!(read_u16("65535"), Some(65535));
    assert_eq!(read_u16("0065535"), Some(65535));
    assert_eq!(read_u16("65536"), None);
    assert_eq!(read_u16(""), None);
    assert_eq!(read_u16("+"), None);
    assert_eq!(read_u16("-1"), None);
    assert_eq!(read_u16("1 2"), None);
}
