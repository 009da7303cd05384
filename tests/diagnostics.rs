use vieshare_tunnel::diagnostics::parse_warnings;

#[test]
fn unreadable_numbers_are_reported_by_line() {
    let text = "serverPort = abc\n[[proxies]]\nname = \"a\"\nlocalPort = 99999\nremotePort = x\n";
    assert_eq!(parse_warnings(text), vec![0, 3, 4]);
}

#[test]
fn block_fields_outside_a_block_are_not_reported() {
    assert_eq!(parse_warnings("localPort = x\nremotePort = y\n"), Vec::<usize>::new());
}

#[test]
fn well_formed_text_has_no_warnings() {
    let text = "serverAddr = \"h\"\nserverPort = 7000\n\n[[proxies]]\nname = \"a\"\nlocalPort = 3000\nremotePort = 8123\n";
    assert!(parse_warnings(text).is_empty());
}

#[test]
fn lines_without_a_value_are_not_reported() {
    assert!(parse_warnings("serverPort\n[[proxies]]\nlocalPort\n").is_empty());
}
