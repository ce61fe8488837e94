use miner_manager::{
    extract_clean_json, ipv4_to_string, parse_hashrate_string, parse_ip_range, parse_temp_string,
    test_connection, validate_ip_range, MinerError,
};

#[test]
fn test_extract_clean_json_valid() {
    let json = r#"{"status":"S"}"#;
    assert_eq!(extract_clean_json(json), Some(json.to_string()));
}

#[test]
fn test_extract_clean_json_trailing_garbage() {
    let json = r#"{"status":"S"} garbage"#;
    assert_eq!(extract_clean_json(json), Some(r#"{"status":"S"}"#.to_string()));
}

#[test]
fn test_extract_clean_json_null_bytes() {
    let json = "{\"status\":\"S\"}\0\0";
    assert_eq!(extract_clean_json(json), Some(r#"{"status":"S"}"#.to_string()));
}

#[test]
fn test_extract_clean_json_invalid() {
    let json = "not json";
    assert_eq!(extract_clean_json(json), None);
}

#[test]
fn test_extract_clean_json_no_braces() {
    let json = "  \0  ";
    assert_eq!(extract_clean_json(json), None);
}

#[test]
fn test_extract_clean_json_object_with_junk() {
    assert_eq!(
        extract_clean_json("{\"a\":1} junk\0\0"),
        Some("{\"a\":1}".to_string())
    );
}

// Hashrates are reported in thousandths of a TH/s: 13.5 TH/s is 13500.
#[test]
fn test_parse_hashrate_string() {
    assert_eq!(parse_hashrate_string("13.5T").unwrap(), 13500);
    assert_eq!(parse_hashrate_string("100G").unwrap(), 100);
    assert_eq!(parse_hashrate_string("1000G").unwrap(), 1000);
}

#[test]
fn mod_test_parse_hashrate_string() {
    assert_eq!(parse_hashrate_string("13.5T").unwrap(), 13500);
    assert_eq!(parse_hashrate_string("100G").unwrap(), 100);
    assert_eq!(parse_hashrate_string("1000G").unwrap(), 1000);
}

#[test]
fn test_parse_hashrate_string_rejects() {
    assert!(matches!(
        parse_hashrate_string("12X"),
        Err(MinerError::InvalidResponse)
    ));
    assert!(matches!(
        parse_hashrate_string("abcT"),
        Err(MinerError::InvalidResponse)
    ));
    assert!(matches!(
        parse_hashrate_string(""),
        Err(MinerError::InvalidResponse)
    ));
}

// Temperatures are reported in thousandths of a degree: 60 °C is 60000.
#[test]
fn test_parse_temp_string() {
    assert_eq!(parse_temp_string("40-40-60-60"), (Some(40000), Some(60000)));
    assert_eq!(parse_temp_string("50"), (Some(50000), Some(50000)));
}

#[test]
fn test_parse_temp_string_all_invalid() {
    assert_eq!(parse_temp_string("ab-cd"), (None, None));
    assert_eq!(parse_temp_string(""), (None, None));
}

#[test]
fn mod_test_parse_cidr_notation() {
    let ips = parse_ip_range("192.168.1.0/30").unwrap();
    assert_eq!(ips.len(), 4);

    let ips = parse_ip_range("10.0.0.0/24").unwrap();
    assert_eq!(ips.len(), 256);
}

#[test]
fn scanner_tests_test_parse_cidr_notation() {
    let ips = parse_ip_range("192.168.1.0/30").unwrap();
    assert_eq!(ips.len(), 4);

    let ips = parse_ip_range("10.0.0.0/24").unwrap();
    assert_eq!(ips.len(), 256);
}

#[test]
fn mod_test_parse_range_notation() {
    let ips = parse_ip_range("192.168.1.1-192.168.1.5").unwrap();
    assert_eq!(ips.len(), 5);
    assert_eq!(ipv4_to_string(ips[0]), "192.168.1.1");
    assert_eq!(ipv4_to_string(ips[4]), "192.168.1.5");
}

#[test]
fn scanner_tests_test_parse_range_notation() {
    let ips = parse_ip_range("192.168.1.1-192.168.1.10").unwrap();
    assert_eq!(ips.len(), 10);
    assert_eq!(ipv4_to_string(ips[0]), "192.168.1.1");
    assert_eq!(ipv4_to_string(ips[9]), "192.168.1.10");
}

#[test]
fn test_parse_single_ip() {
    let ips = parse_ip_range("192.168.1.100").unwrap();
    assert_eq!(ips.len(), 1);
    assert_eq!(ipv4_to_string(ips[0]), "192.168.1.100");
}

#[test]
fn test_invalid_range() {
    // End before start.
    let result = parse_ip_range("192.168.1.100-192.168.1.50");
    assert!(result.is_err());
}

#[test]
fn test_reversed_range_is_invalid_range_error() {
    assert!(matches!(
        parse_ip_range("192.168.1.100-192.168.1.50"),
        Err(MinerError::InvalidRange)
    ));
}

#[test]
fn test_range_rejects_garbage() {
    assert!(matches!(parse_ip_range("not an ip"), Err(MinerError::InvalidRange)));
    assert!(matches!(parse_ip_range("1.2.3.4/33"), Err(MinerError::InvalidRange)));
    assert!(matches!(parse_ip_range("1.2.3.4-"), Err(MinerError::InvalidRange)));
    assert!(matches!(parse_ip_range("256.0.0.1"), Err(MinerError::InvalidRange)));
}

// A range of size one expands to exactly one address.
#[test]
fn test_range_of_size_one() {
    let ips = parse_ip_range("10.1.2.3-10.1.2.3").unwrap();
    assert_eq!(ips.len(), 1);
    assert_eq!(ipv4_to_string(ips[0]), "10.1.2.3");
}

#[test]
fn test_cidr_masks_host_bits() {
    let ips = parse_ip_range("192.168.1.7/30").unwrap();
    assert_eq!(ips.len(), 4);
    assert_eq!(ipv4_to_string(ips[0]), "192.168.1.4");
    assert_eq!(ipv4_to_string(ips[3]), "192.168.1.7");
}

#[test]
fn test_validate_ip_range_messages() {
    assert_eq!(
        validate_ip_range("192.168.1.0/30".to_string()),
        Ok("Valid range: 4 IPs".to_string())
    );
    assert_eq!(
        validate_ip_range("junk".to_string()),
        Err("Invalid range: invalid address range".to_string())
    );
}

#[test]
fn test_test_connection_message() {
    assert_eq!(
        test_connection("1.2.3.4".to_string()),
        "Testing connection to 1.2.3.4"
    );
}

#[test]
fn test_local_range_strings() {
    // 192.168.1.5, 127.0.0.1 (skipped), 192.168.1.99 (same /24), 10.0.0.1,
    // 169.254.3.4 (skipped).
    let addrs = vec![0xC0A8_0105u32, 0x7F00_0001, 0xC0A8_0163, 0x0A00_0001, 0xA9FE_0304];
    let ranges = miner_manager::local_range_strings(&addrs);
    assert_eq!(
        ranges,
        vec![
            "10.0.0.1-10.0.0.254".to_string(),
            "192.168.1.1-192.168.1.254".to_string(),
        ]
    );
}

#[test]
fn test_mac_parse_linux_format() {
    let out = "192.168.1.1 dev eth0 lladdr aa:bb:cc:dd:ee:ff REACHABLE";
    assert_eq!(
        miner_manager::parse_mac_from_arp_output(out),
        Some("AA:BB:CC:DD:EE:FF".to_string())
    );
}

#[test]
fn test_mac_parse_short_segments() {
    let out = "? (192.168.1.1) at 72:3c:e:95:5d:83 on en0 ifscope [ethernet]";
    assert_eq!(
        miner_manager::parse_mac_from_arp_output(out),
        Some("72:3C:0E:95:5D:83".to_string())
    );
}

#[test]
fn test_mac_parse_absent() {
    assert_eq!(miner_manager::parse_mac_from_arp_output("no entry here"), None);
}

#[test]
fn test_extract_json_falls_back_to_trimmed_text() {
    assert_eq!(
        miner_manager::extract_json("  no braces here \0").unwrap(),
        "no braces here"
    );
    assert_eq!(
        miner_manager::extract_json("{\"a\":1}\0trailing").unwrap(),
        "{\"a\":1}"
    );
}

#[test]
fn test_trim_garbage() {
    assert_eq!(miner_manager::trim_garbage("\0\t hi \n\0"), "hi");
    assert_eq!(miner_manager::trim_garbage("\0 \t "), "");
}

#[test]
fn test_ipv4_to_string_edges() {
    assert_eq!(ipv4_to_string(0), "0.0.0.0");
    assert_eq!(ipv4_to_string(u32::MAX), "255.255.255.255");
    assert_eq!(ipv4_to_string(0x0A000001), "10.0.0.1");
}

#[test]
fn test_default_configurations() {
    let scan = miner_manager::ScanConfig::default();
    assert_eq!(scan.timeout_ms, 500);
    assert_eq!(scan.max_concurrent, 100);
    assert_eq!(scan.ports, vec![4028]);

    let monitor = miner_manager::MonitorConfig::default();
    assert_eq!(monitor.poll_interval_ms, 10000);
    assert_eq!(monitor.retry_attempts, 2);
    assert_eq!(monitor.warning_temp_threshold, 85000);
    assert_eq!(monitor.warning_hashrate_ratio, 900);
    assert_eq!(monitor.timeout_ms, 1500);
    assert_eq!(monitor.port, 4028);

    let settings = miner_manager::AppSettings::default();
    assert_eq!(settings.antminer_credentials.username, "root");
    assert_eq!(settings.antminer_credentials.password, "root");
    assert_eq!(settings.whatsminer_credentials.username, "admin");
    assert_eq!(settings.scan_thread_count, 32);
    assert_eq!(settings.monitor_interval, 30);
}

#[test]
fn test_error_messages() {
    assert_eq!(
        miner_manager::MinerError::Timeout("1.2.3.4".to_string()).message(),
        "connection timeout: 1.2.3.4"
    );
    assert_eq!(
        miner_manager::MinerError::InvalidRange.message(),
        "invalid address range"
    );
    assert_eq!(
        miner_manager::MinerError::AuthenticationError.message(),
        "authentication failed"
    );
}

#[test]
fn test_hashrate_whitespace_and_sign() {
    assert_eq!(parse_hashrate_string("  13.5T \n").unwrap(), 13500);
    assert_eq!(parse_hashrate_string("-2T").unwrap(), -2000);
    assert_eq!(parse_hashrate_string("0.001T").unwrap(), 1);
    // Fractional digits beyond the third are truncated.
    assert_eq!(parse_hashrate_string("1.23456T").unwrap(), 1234);
}

#[test]
fn test_snapshot_duplicate_is_equal() {
    let mut s = miner_manager::MinerStats::default();
    s.hashrate_avg = 12345;
    s.pool1 = Some("stratum".to_string());
    s.temp_outlet_max = vec![Some(1), None];
    let d = s.duplicate();
    assert_eq!(d.hashrate_avg, 12345);
    assert_eq!(d.pool1, Some("stratum".to_string()));
    assert_eq!(d.temp_outlet_max, vec![Some(1), None]);
}
