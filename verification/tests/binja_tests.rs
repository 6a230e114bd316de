use smart_diff::binja::{
    BinaryNinjaError, BinaryNinjaServer, ClientConfig, FunctionInfo, StatusResponse,
    get_server_url, port_from_url, discovery_targets, server_from_status, binary_info_from_status,
    decompiled_code, decompile_outcome, parse_function_list, parse_search_results, functions_from_entries,
    functions_from_lines,
};
use std::time::Duration;

#[test]
fn test_default_config() {
    let config = ClientConfig::default();
    assert_eq!(config.base_url, "http://localhost");
    assert_eq!(config.base_port, 9009);
    assert_eq!(config.max_servers, 10);
}

#[test]
fn test_function_info_new() {
    let func = FunctionInfo::new("main".to_string(), "0x401000".to_string());
    assert_eq!(func.name, "main");
    assert_eq!(func.address, "0x401000");
    assert!(func.decompiled_code.is_none());
}

#[test]
fn test_function_info_from_name() {
    let func = FunctionInfo::from_name("process_data".to_string());
    assert_eq!(func.name, "process_data");
    assert_eq!(func.address, "");
}

#[test]
fn test_server_new() {
    let server = BinaryNinjaServer::new(
        "port_9009".to_string(),
        "http://localhost:9009".to_string(),
        9009,
        "test.exe".to_string(),
    );
    assert_eq!(server.binary_id, "port_9009");
    assert_eq!(server.port, 9009);
    assert_eq!(server.filename, "test.exe");
}

#[test]
fn test_get_server_url() {
    let config = ClientConfig::default();
    let url = get_server_url(&config, "port_9009").unwrap();
    assert_eq!(url, "http://localhost:9009");
}

#[test]
fn test_get_server_url_invalid() {
    let config = ClientConfig::default();
    let result = get_server_url(&config, "invalid");
    assert!(result.is_err());
}

#[test]
fn default_config_timeouts() {
    let config = ClientConfig::default();
    assert_eq!(config.connect_timeout, Duration::from_secs(2));
    assert_eq!(config.read_timeout, Duration::from_secs(30));
    assert_eq!(config.max_retries, 2);
}

#[test]
fn server_url_errors_name_the_id() {
    let config = ClientConfig::default();
    assert_eq!(get_server_url(&config, "port_"), Err(BinaryNinjaError::ServerNotFound("port_".to_string())));
    assert_eq!(get_server_url(&config, "port_70000"), Err(BinaryNinjaError::ServerNotFound("port_70000".to_string())));
    assert_eq!(get_server_url(&config, "9009"), Err(BinaryNinjaError::ServerNotFound("9009".to_string())));
    assert_eq!(get_server_url(&config, "port_+12").unwrap(), "http://localhost:12");
    assert_eq!(get_server_url(&config, "port_0").unwrap(), "http://localhost:0");
}

#[test]
fn server_url_uses_base_url() {
    let mut config = ClientConfig::default();
    config.base_url = "http://10.0.0.5".to_string();
    assert_eq!(get_server_url(&config, "port_65535").unwrap(), "http://10.0.0.5:65535");
}

#[test]
fn port_is_read_after_last_colon() {
    assert_eq!(port_from_url("http://localhost:9010"), 9010);
    assert_eq!(port_from_url("http://localhost"), 9009);
    assert_eq!(port_from_url("localhost:abc"), 9009);
    assert_eq!(port_from_url("1234"), 1234);
    assert_eq!(port_from_url("a:1:2"), 2);
}

#[test]
fn discovery_probes_consecutive_ports() {
    let config = ClientConfig::default();
    let targets = discovery_targets(&config);
    assert_eq!(targets.len(), 10);
    assert_eq!(targets[0], (9009, "http://localhost:9009".to_string()));
    assert_eq!(targets[9], (9018, "http://localhost:9018".to_string()));
}

#[test]
fn status_gives_server_only_when_loaded() {
    let loaded = StatusResponse { loaded: true, filename: Some("a.out".to_string()) };
    let s = server_from_status("http://localhost:9011", &loaded).unwrap();
    assert_eq!(s.binary_id, "port_9011");
    assert_eq!(s.port, 9011);
    assert_eq!(s.url, "http://localhost:9011");
    assert_eq!(s.filename, "a.out");
    assert!(s.metadata.is_none());
    let unnamed = StatusResponse { loaded: true, filename: None };
    assert_eq!(server_from_status("http://localhost:9012", &unnamed).unwrap().filename, "unknown");
    let empty = StatusResponse { loaded: false, filename: Some("a.out".to_string()) };
    assert!(server_from_status("http://localhost:9011", &empty).is_none());
}

#[test]
fn binary_info_from_status_reply() {
    let status = StatusResponse { loaded: false, filename: None };
    let info = binary_info_from_status("port_9009", &status);
    assert_eq!(info.binary_id, "port_9009");
    assert_eq!(info.filename, "unknown");
    assert!(!info.loaded);
}

#[test]
fn decompile_failures_are_function_not_found() {
    assert_eq!(
        decompiled_code("f", "Error: no such".to_string()),
        Err(BinaryNinjaError::FunctionNotFound("f".to_string()))
    );
    assert_eq!(
        decompiled_code("g", "Function not found: g".to_string()),
        Err(BinaryNinjaError::FunctionNotFound("g".to_string()))
    );
    assert_eq!(decompiled_code("h", "int h() { return 0; }".to_string()).unwrap(), "int h() { return 0; }");
}

#[test]
fn error_messages() {
    assert_eq!(BinaryNinjaError::NoServersAvailable.message(), "No Binary Ninja servers found");
    assert_eq!(BinaryNinjaError::ServerNotFound("x".to_string()).message(), "Binary server 'x' not found");
    assert_eq!(BinaryNinjaError::RequestFailed("boom".to_string()).message(), "HTTP request failed: boom");
    assert_eq!(BinaryNinjaError::ParseError("p".to_string()).message(), "Failed to parse response: p");
    assert_eq!(BinaryNinjaError::BinaryNinjaError("b".to_string()).message(), "Binary Ninja returned error: b");
    assert_eq!(BinaryNinjaError::FunctionNotFound("f".to_string()).message(), "Function 'f' not found");
    assert_eq!(BinaryNinjaError::Timeout.message(), "Timeout waiting for response");
}

#[test]
fn function_list_from_json() {
    let text = r#"{"functions": [{"name": "main", "address": "0x1000"}, {"name": "noaddr"}, {"name": "f", "address": "0x2000"}]}"#;
    let fs = parse_function_list(text);
    assert_eq!(fs.len(), 2);
    assert_eq!(fs[0].name, "main");
    assert_eq!(fs[0].address, "0x1000");
    assert_eq!(fs[1].name, "f");
    assert_eq!(fs[1].address, "0x2000");
}

#[test]
fn function_list_from_lines() {
    let fs = parse_function_list("main\n\nhelper\r\n");
    assert_eq!(fs.len(), 3);
    assert_eq!(fs[0].name, "main");
    assert_eq!(fs[1].name, "");
    assert_eq!(fs[2].name, "helper");
    assert_eq!(fs[2].address, "");
    let listed = parse_function_list("{\"other\": []}");
    assert_eq!(listed.len(), 1);
    assert_eq!(listed[0].name, "{\"other\": []}");
}

#[test]
fn search_results_skip_empty_lines() {
    let fs = parse_search_results("a\n\nb\n");
    assert_eq!(fs.len(), 2);
    assert_eq!(fs[0].name, "a");
    assert_eq!(fs[1].name, "b");
    let js = parse_search_results(r#"{"matches": [{"name": "m", "address": "0x10"}]}"#);
    assert_eq!(js.len(), 1);
    assert_eq!(js[0].address, "0x10");
}

#[test]
fn entries_and_lines_directly() {
    let entries = vec![
        (Some("a".to_string()), Some("1".to_string())),
        (None, Some("2".to_string())),
        (Some("c".to_string()), None),
    ];
    let fs = functions_from_entries(&entries);
    assert_eq!(fs.len(), 1);
    assert_eq!(fs[0].name, "a");
    let ls = functions_from_lines("x\n\ny", true);
    assert_eq!(ls.len(), 2);
    let all = functions_from_lines("x\n\ny", false);
    assert_eq!(all.len(), 3);
}

#[test]
fn failed_decompile_replies_are_function_not_found() {
    assert_eq!(
        decompile_outcome("f", false, "int f() {}".to_string()),
        Err(BinaryNinjaError::FunctionNotFound("f".to_string()))
    );
    assert_eq!(
        decompile_outcome("g", true, "Error: no such".to_string()),
        Err(BinaryNinjaError::FunctionNotFound("g".to_string()))
    );
    assert_eq!(decompile_outcome("h", true, "int h() {}".to_string()), Ok("int h() {}".to_string()));
}
