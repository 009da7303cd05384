use vieshare_tunnel::config::PortMapping;
use vieshare_tunnel::ports::{
    available_ports, find_available_port_in_range, generate_mapping_name, AllocationError,
    MAX_PORT, MIN_PORT,
};

fn named(name: &str) -> PortMapping {
    PortMapping {
        name: name.to_string(),
        local_ip: "127.0.0.1".to_string(),
        local_port: 1,
        remote_port: 8001,
        protocol: "tcp".to_string(),
        custom_domains: None,
        subdomain: None,
    }
}

fn whole_range() -> Vec<u16> {
    (MIN_PORT..=MAX_PORT).collect()
}

#[test]
fn candidates_exclude_reserved_and_allocated_ports() {
    let ports = available_ports(&vec![]);
    assert_eq!(ports.len(), 997);
    assert!(!ports.contains(&8081));
    assert!(!ports.contains(&8090));
    assert_eq!(ports[0], 8001);
    assert_eq!(*ports.last().unwrap(), 8999);
    let ports = available_ports(&vec![8001, 8500, 9500]);
    assert_eq!(ports.len(), 995);
    assert!(!ports.contains(&8500));
    assert!(ports.windows(2).all(|w| w[0] < w[1]));
}

#[test]
fn allocated_port_is_in_range_and_not_reserved() {
    for _ in 0..200 {
        let p = find_available_port_in_range(&vec![8002, 8003]).unwrap();
        assert!((8001..=8999).contains(&p));
        assert!(p != 8081 && p != 8090 && p != 8002 && p != 8003);
    }
}

#[test]
fn the_only_free_port_is_the_one_allocated() {
    let allocated: Vec<u16> = whole_range().into_iter().filter(|p| *p != 8777).collect();
    for _ in 0..20 {
        assert_eq!(find_available_port_in_range(&allocated), Ok(8777));
    }
}

#[test]
fn reserved_ports_are_never_handed_out() {
    let allocated: Vec<u16> = whole_range()
        .into_iter()
        .filter(|p| *p != 8081 && *p != 8090 && *p != 8100)
        .collect();
    assert_eq!(find_available_port_in_range(&allocated), Ok(8100));
}

#[test]
fn fully_excluded_range_is_exhausted() {
    assert_eq!(find_available_port_in_range(&whole_range()), Err(AllocationError::Exhausted));
}

#[test]
fn mapping_name_comes_from_the_port() {
    assert_eq!(generate_mapping_name(8123, &vec![]), "nextjs8123");
    assert_eq!(generate_mapping_name(8123, &vec![named("other")]), "nextjs8123");
}

#[test]
fn mapping_name_takes_the_first_free_suffix() {
    assert_eq!(generate_mapping_name(8123, &vec![named("nextjs8123")]), "nextjs81231");
    let existing = vec![named("nextjs81231"), named("nextjs8123"), named("nextjs81232")];
    assert_eq!(generate_mapping_name(8123, &existing), "nextjs81233");
    let again = generate_mapping_name(8123, &existing);
    assert_eq!(again, "nextjs81233");
    assert!(!existing.iter().any(|m| m.name == again));
}
