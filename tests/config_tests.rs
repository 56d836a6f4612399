use rust_portforward::config::{
    check_unique_ports, config_lines, merge_forwards, parse_buffer_size, parse_command_line,
    parse_thread_count, push_cli_forward, read_settings, resolve_forward, split_forward,
    CommandLine, Config, ConfigError, Forward, DEFAULT_BUFFER_SIZE_KB, DEFAULT_N_THREAD,
    MAX_BUFFER_SIZE_KB,
};
use rust_portforward::endpoint::{Endpoint, IpAddress};

fn ip(last: u8) -> IpAddress {
    IpAddress::V4(0x0a00_0000 | last as u32)
}

fn rule(s_port: u16, last: u8) -> Forward {
    Forward { s_port, targets: vec![Endpoint::new(ip(last), 80)] }
}

fn args(list: &[&str]) -> Vec<String> {
    list.iter().map(|s| s.to_string()).collect()
}

#[test]
fn split_single_target_rule() {
    let f = split_forward("8080:localhost:80").unwrap();
    assert_eq!(f.s_port, "8080");
    assert_eq!(f.targets.len(), 1);
    assert_eq!(f.targets[0].host, "localhost");
    assert_eq!(f.targets[0].port, "80");
}

#[test]
fn split_fan_out_rule() {
    let f = split_forward("9000:a.example:1,b.example:2,c.example:3").unwrap();
    assert_eq!(f.s_port, "9000");
    let hosts: Vec<&str> = f.targets.iter().map(|t| t.host.as_str()).collect();
    let ports: Vec<&str> = f.targets.iter().map(|t| t.port.as_str()).collect();
    assert_eq!(hosts, vec!["a.example", "b.example", "c.example"]);
    assert_eq!(ports, vec!["1", "2", "3"]);
}

#[test]
fn split_refuses_malformed_rules() {
    for s in ["8080", "8080:host", "8080:host:80:1", "8080:host:80,", ""] {
        match split_forward(s) {
            Err(ConfigError::InvalidTarget(t)) => assert_eq!(t, s),
            other => panic!("unexpected {:?}", other),
        }
    }
}

#[test]
fn resolve_builds_endpoints() {
    let text = split_forward("8080:h1:80,h2:443").unwrap();
    let f = resolve_forward(&text, &vec![Ok(ip(1)), Ok(ip(2))]).unwrap();
    assert_eq!(f.s_port, 8080);
    assert_eq!(f.targets, vec![Endpoint::new(ip(1), 80), Endpoint::new(ip(2), 443)]);
}

#[test]
fn resolve_reports_first_bad_target() {
    let text = split_forward("8080:h1:80,h2:x,h3:1").unwrap();
    let r = resolve_forward(&text, &vec![Ok(ip(1)), Ok(ip(2)), Err("no such host".to_string())]);
    assert_eq!(r.unwrap_err(), ConfigError::InvalidPort("x".to_string()));
    let r = resolve_forward(&text, &vec![Ok(ip(1)), Err("no such host".to_string()), Ok(ip(3))]);
    assert_eq!(r.unwrap_err(), ConfigError::Lookup("no such host".to_string()));
}

#[test]
fn resolve_checks_source_port_last() {
    let text = split_forward("99999:h1:80").unwrap();
    let r = resolve_forward(&text, &vec![Ok(ip(1))]);
    assert_eq!(r.unwrap_err(), ConfigError::InvalidPort("99999".to_string()));
    let text = split_forward("abc:h1:70000").unwrap();
    let r = resolve_forward(&text, &vec![Ok(ip(1))]);
    assert_eq!(r.unwrap_err(), ConfigError::InvalidPort("70000".to_string()));
}

#[test]
fn duplicate_command_line_port_is_rejected() {
    let mut forwards = Vec::new();
    assert_eq!(push_cli_forward(&mut forwards, rule(8080, 1)), Ok(()));
    assert_eq!(push_cli_forward(&mut forwards, rule(8080, 2)), Err(ConfigError::DuplicatePort(8080)));
    assert_eq!(forwards.len(), 1);
    assert_eq!(forwards[0].targets[0].ip, ip(1));
}

#[test]
fn duplicate_port_in_rule_set_is_rejected() {
    let rules = vec![rule(80, 1), rule(8080, 2), rule(443, 3), rule(8080, 4)];
    assert_eq!(check_unique_ports(&rules), Err(ConfigError::DuplicatePort(8080)));
    let rules = vec![rule(80, 1), rule(8080, 2)];
    assert_eq!(check_unique_ports(&rules), Ok(()));
    let r = merge_forwards(vec![rule(8080, 1), rule(8080, 2)], vec![]);
    assert_eq!(r.unwrap_err(), ConfigError::DuplicatePort(8080));
}

#[test]
fn merge_prefers_first_seen_and_sorts() {
    let cli = vec![rule(9000, 1), rule(22, 2)];
    let file = vec![rule(9000, 3), rule(80, 4), rule(80, 5), rule(22, 6)];
    let out = merge_forwards(cli, file).unwrap();
    let ports: Vec<u16> = out.iter().map(|f| f.s_port).collect();
    assert_eq!(ports, vec![22, 80, 9000]);
    assert_eq!(out[0].targets[0].ip, ip(2));
    assert_eq!(out[1].targets[0].ip, ip(4));
    assert_eq!(out[2].targets[0].ip, ip(1));
}

#[test]
fn merge_of_nothing_is_an_error() {
    assert_eq!(merge_forwards(vec![], vec![]).unwrap_err(), ConfigError::NoForward);
}

#[test]
fn merge_of_file_rules_only() {
    let out = merge_forwards(vec![], vec![rule(3, 1), rule(1, 2), rule(2, 3)]).unwrap();
    let ports: Vec<u16> = out.iter().map(|f| f.s_port).collect();
    assert_eq!(ports, vec![1, 2, 3]);
}

#[test]
fn rule_file_lines() {
    assert_eq!(config_lines("8080:a:80\r\n9000:b:90\n"), vec!["8080:a:80", "9000:b:90"]);
    assert_eq!(config_lines("8080:a:80"), vec!["8080:a:80"]);
    assert_eq!(config_lines(""), Vec::<String>::new());
    assert_eq!(config_lines("a\n\nb"), vec!["a", "", "b"]);
}

#[test]
fn sizes_and_counts() {
    assert_eq!(parse_buffer_size("16"), Ok(16));
    assert_eq!(parse_buffer_size("0"), Err(ConfigError::InvalidBufferSize("0".to_string())));
    assert_eq!(parse_buffer_size("x"), Err(ConfigError::InvalidBufferSize("x".to_string())));
    assert_eq!(parse_buffer_size(&MAX_BUFFER_SIZE_KB.to_string()), Ok(MAX_BUFFER_SIZE_KB));
    let too_big = (MAX_BUFFER_SIZE_KB as u128 + 1).to_string();
    assert_eq!(parse_buffer_size(&too_big), Err(ConfigError::InvalidBufferSize(too_big.clone())));
    assert_eq!(parse_thread_count("4"), Ok(4));
    assert_eq!(parse_thread_count("0"), Err(ConfigError::InvalidThreadCount("0".to_string())));
}

#[test]
fn settings_defaults_and_errors() {
    let mut cl = CommandLine { help: false, buffer_size: None, config_file: None, n_thread: None, free: vec![] };
    assert_eq!(read_settings(&cl), Ok((DEFAULT_BUFFER_SIZE_KB, DEFAULT_N_THREAD)));
    cl.buffer_size = Some("32".to_string());
    cl.n_thread = Some("two".to_string());
    assert_eq!(read_settings(&cl), Err(ConfigError::InvalidThreadCount("two".to_string())));
    cl.buffer_size = Some("-1".to_string());
    assert_eq!(read_settings(&cl), Err(ConfigError::InvalidBufferSize("-1".to_string())));
    cl.help = true;
    assert_eq!(read_settings(&cl), Err(ConfigError::Help));
}

#[test]
fn command_line_options() {
    let cl = parse_command_line(&args(&["-b", "16", "8080:h:80", "--nthread", "3", "9000:i:90"])).unwrap();
    assert!(!cl.help);
    assert_eq!(cl.buffer_size, Some("16".to_string()));
    assert_eq!(cl.n_thread, Some("3".to_string()));
    assert_eq!(cl.config_file, None);
    assert_eq!(cl.free, vec!["8080:h:80", "9000:i:90"]);
    assert_eq!(read_settings(&cl), Ok((16, 3)));
}

#[test]
fn command_line_help() {
    let cl = parse_command_line(&args(&["-h"])).unwrap();
    assert!(cl.help);
    assert_eq!(read_settings(&cl), Err(ConfigError::Help));
    assert_eq!(parse_command_line(&args(&["--bogus"])).unwrap_err(), ConfigError::Help);
    assert_eq!(parse_command_line(&args(&["-f"])).unwrap_err(), ConfigError::Help);
}

#[test]
fn config_buffer_in_bytes() {
    let config = Config { forwards: vec![rule(1, 1)], buffer_size_kb: 8, n_thread: 5 };
    assert_eq!(config.buffer_size_bytes(), Some(8192));
    let huge = Config { forwards: vec![], buffer_size_kb: usize::MAX, n_thread: 1 };
    assert_eq!(huge.buffer_size_bytes(), None);
}
