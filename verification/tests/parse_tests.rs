use miner_manager::{
    apply_devdetails_response, apply_pools_response, apply_stats_response, apply_version_response,
    build_request, extract_model_from_version, parse_compile_time, parse_summary_response,
    MinerError, MinerStats,
};

// End-to-end: a simulated summary answer yields the uptime and the
// average hashrate in thousandths of a TH/s (95 TH/s is 95000).
#[test]
fn test_summary_end_to_end() {
    let text = r#"{"STATUS":[{"STATUS":"S"}],"SUMMARY":[{"Elapsed":123456,"MHS av":95000000.0}]}"#;
    let stats = parse_summary_response(text).unwrap();
    assert_eq!(stats.uptime, 123456);
    assert_eq!(stats.hashrate_avg, 95000);
}

#[test]
fn test_summary_tolerates_trailing_garbage() {
    let text = "{\"STATUS\":[{\"STATUS\":\"S\"}],\"SUMMARY\":[{\"Elapsed\":12345,\"MHS av\":95000000.0}],\"id\":1}\0\0";
    let stats = parse_summary_response(text).unwrap();
    assert_eq!(stats.uptime, 12345);
    assert_eq!(stats.hashrate_avg, 95000);
}

#[test]
fn test_summary_bad_status_flag() {
    let text = r#"{"STATUS":[{"STATUS":"E","Msg":"x"}],"SUMMARY":[{"Elapsed":1}]}"#;
    assert!(matches!(
        parse_summary_response(text),
        Err(MinerError::InvalidResponse)
    ));
}

#[test]
fn test_summary_no_json_span_is_invalid_response() {
    // A trimmed text with no brace-delimited span is abandoned, not
    // guessed at.
    assert!(matches!(
        parse_summary_response("total garbage"),
        Err(MinerError::InvalidResponse)
    ));
}

#[test]
fn test_summary_bad_json_span_is_parse_error() {
    assert!(matches!(
        parse_summary_response("{oops}"),
        Err(MinerError::ParseError(_))
    ));
}

#[test]
fn test_summary_missing_summary_array() {
    let text = r#"{"STATUS":[{"STATUS":"S"}]}"#;
    assert!(matches!(
        parse_summary_response(text),
        Err(MinerError::InvalidResponse)
    ));
}

#[test]
fn test_summary_ghs_and_string_rates() {
    let text = r#"{"STATUS":[{"STATUS":"S"}],"SUMMARY":[{"GHS av":14500.0,"GHS 5s":14200.5}]}"#;
    let stats = parse_summary_response(text).unwrap();
    assert_eq!(stats.hashrate_avg, 14500);
    assert_eq!(stats.hashrate_rt, 14200);

    let text2 = r#"{"STATUS":[{"STATUS":"S"}],"SUMMARY":[{"HS 5s":"13.5T"}]}"#;
    let stats2 = parse_summary_response(text2).unwrap();
    assert_eq!(stats2.hashrate_avg, 13500);
    assert_eq!(stats2.hashrate_rt, 13500);
}

#[test]
fn test_summary_bad_hashrate_string_rejected() {
    let text = r#"{"STATUS":[{"STATUS":"S"}],"SUMMARY":[{"HS 5s":"fast"}]}"#;
    assert!(matches!(
        parse_summary_response(text),
        Err(MinerError::InvalidResponse)
    ));
}

// A firmware-version field selects the session-family parser, which
// reads temperatures and fans straight from the summary.
#[test]
fn test_summary_whatsminer_fields() {
    let text = "{\"STATUS\":[{\"STATUS\":\"S\"}],\"SUMMARY\":[{\"Elapsed\":10,\"MHS 5s\":50000000.0,\"MHS av\":60000000.0,\"Chip Temp Min\":58.0,\"Chip Temp Max\":78.25,\"Temperature\":40.0,\"Fan Speed In\":3810,\"Fan Speed Out\":3780,\"Firmware Version\":\"'20230601'\"}]}";
    let stats = parse_summary_response(text).unwrap();
    assert_eq!(stats.hashrate_rt, 50000);
    assert_eq!(stats.hashrate_avg, 60000);
    assert_eq!(stats.temp_outlet_min, vec![Some(58000)]);
    assert_eq!(stats.temp_outlet_max, vec![Some(78250)]);
    assert_eq!(stats.temp_inlet_min, vec![Some(40000)]);
    assert_eq!(stats.temp_inlet_max, vec![Some(40000)]);
    assert_eq!(stats.fan_speeds, vec![Some(3810), Some(3780)]);
    assert_eq!(stats.firmware, Some("20230601".to_string()));
}

#[test]
fn test_stats_details_fill_temps_and_fans() {
    let mut stats = MinerStats::default();
    let text = "{\"STATS\":[{\"fan1\":3000,\"fan2\":3120,\"fan_num\":2,\"temp_chip1\":\"40-40-60-60\",\"temp_pcb1\":\"30-30-50-50\"}]}";
    apply_stats_response(&mut stats, text);
    assert_eq!(stats.temp_outlet_min, vec![Some(40000)]);
    assert_eq!(stats.temp_outlet_max, vec![Some(60000)]);
    assert_eq!(stats.temp_inlet_min, vec![Some(30000)]);
    assert_eq!(stats.temp_inlet_max, vec![Some(50000)]);
    assert_eq!(stats.fan_speeds, vec![Some(3000), Some(3120)]);
}

#[test]
fn test_stats_details_bad_payload_leaves_snapshot() {
    let mut stats = MinerStats::default();
    apply_stats_response(&mut stats, "no json at all");
    assert_eq!(stats.temp_outlet_min, vec![None, None, None]);
    assert_eq!(stats.fan_speeds, vec![None, None, None, None]);
}

// Pools fill the slots by ascending reported priority.
#[test]
fn test_pools_sorted_by_priority() {
    let mut stats = MinerStats::default();
    let text = "{\"POOLS\":[{\"URL\":\"second\",\"User\":\"w2\",\"Status\":\"Alive\",\"Priority\":1},{\"URL\":\"first\",\"User\":\"w1\",\"Status\":\"Alive\",\"Priority\":0},{\"URL\":\"third\",\"User\":\"w3\",\"Status\":\"Alive\",\"Priority\":7}]}";
    apply_pools_response(&mut stats, text);
    assert_eq!(stats.pool1, Some("first".to_string()));
    assert_eq!(stats.worker1, Some("w1".to_string()));
    assert_eq!(stats.pool2, Some("second".to_string()));
    assert_eq!(stats.worker2, Some("w2".to_string()));
    assert_eq!(stats.pool3, Some("third".to_string()));
    assert_eq!(stats.worker3, Some("w3".to_string()));
}

#[test]
fn test_pools_equal_priorities_keep_order() {
    let mut stats = MinerStats::default();
    let text = "{\"POOLS\":[{\"URL\":\"a\",\"User\":\"wa\",\"Status\":\"Alive\",\"Priority\":0},{\"URL\":\"b\",\"User\":\"wb\",\"Status\":\"Alive\",\"Priority\":0}]}";
    apply_pools_response(&mut stats, text);
    assert_eq!(stats.pool1, Some("a".to_string()));
    assert_eq!(stats.pool2, Some("b".to_string()));
    assert_eq!(stats.pool3, None);
}

#[test]
fn test_version_details() {
    let mut stats = MinerStats::default();
    let text = "{\"VERSION\":[{\"Miner\":\"uart_trans.1.3\",\"BMMiner\":\"2.0.0\",\"CompileTime\":\"Fri Feb  7 18:12:53 CST 2025\"}]}";
    apply_version_response(&mut stats, text);
    assert_eq!(stats.hardware, Some("uart_trans.1.3".to_string()));
    assert_eq!(stats.software, Some("Bmminer 2.0.0".to_string()));
    assert_eq!(stats.firmware, Some("20250207".to_string()));
}

#[test]
fn test_parse_compile_time_formats() {
    assert_eq!(
        parse_compile_time("Fri Feb  7 18:12:53 CST 2025"),
        Some("20250207".to_string())
    );
    assert_eq!(
        parse_compile_time("Mon Nov 17 01:02:03 UTC 2024"),
        Some("20241117".to_string())
    );
    assert_eq!(parse_compile_time("not a date"), None);
}

#[test]
fn test_devdetails_model() {
    let mut stats = MinerStats::default();
    apply_devdetails_response(&mut stats, r#"{"DEVDETAILS":[{"Model":"M31S"}]}"#);
    assert_eq!(stats.model, Some("WhatsMiner - M31S".to_string()));
}

#[test]
fn test_extract_model_from_version() {
    let text = "{\"STATUS\":[{\"STATUS\":\"S\"}],\"VERSION\":[{\"Type\":\"Antminer S19\"}]}\0junk";
    assert_eq!(
        extract_model_from_version(text),
        Some("Antminer S19".to_string())
    );
    assert_eq!(extract_model_from_version("nope"), None);
}

#[test]
fn test_build_request_envelope() {
    assert_eq!(
        build_request("summary"),
        b"{\"command\":\"summary\",\"parameter\":\"\"}".to_vec()
    );
    assert_eq!(
        build_request("stats"),
        b"{\"command\":\"stats\",\"parameter\":\"\"}".to_vec()
    );
}

#[test]
fn test_json_nested_round_trip() {
    let text = " { \"a\" : [ [ 1 , 2.5 ] , [ ] , { \"b\" : null } ] , \"c\" : true } ";
    let v = miner_manager::json::parse_json(text.as_bytes()).unwrap();
    assert_eq!(
        String::from_utf8(miner_manager::json::json_to_bytes(&v)).unwrap(),
        "{\"a\":[[1,2.5],[],{\"b\":null}],\"c\":true}"
    );
}

#[test]
fn test_json_deeply_nested_arrays() {
    let mut text = String::new();
    for _ in 0..200 {
        text.push('[');
    }
    text.push('0');
    for _ in 0..200 {
        text.push(']');
    }
    assert!(miner_manager::json::parse_json(text.as_bytes()).is_some());
}

#[test]
fn test_json_rejects_malformed() {
    assert!(miner_manager::json::parse_json(b"{\"a\":}").is_none());
    assert!(miner_manager::json::parse_json(b"[1,]").is_none());
    assert!(miner_manager::json::parse_json(b"{\"a\":1} trailing").is_none());
    assert!(miner_manager::json::parse_json(b"").is_none());
}

#[test]
fn test_json_string_escapes_kept_verbatim() {
    let text = "{\"k\":\"a\\\"b\"}";
    let v = miner_manager::json::parse_json(text.as_bytes()).unwrap();
    assert_eq!(
        String::from_utf8(miner_manager::json::json_to_bytes(&v)).unwrap(),
        text
    );
}

#[test]
fn test_conf_rewrite_preserves_nested_unknowns() {
    let conf = "{\"miner-mode\":0,\"extras\":{\"fan\":[1,2],\"note\":\"keep me\"}}";
    let out = miner_manager::AntminerWebClient::conf_with_power_mode(conf, false).unwrap();
    assert_eq!(
        String::from_utf8(out).unwrap(),
        "{\"miner-mode\":0,\"extras\":{\"fan\":[1,2],\"note\":\"keep me\"}}"
    );
}

#[test]
fn test_conf_rewrite_adds_missing_mode_field() {
    let out = miner_manager::AntminerWebClient::conf_with_power_mode("{}", true).unwrap();
    assert_eq!(String::from_utf8(out).unwrap(), "{\"miner-mode\":1}");
}

// Several objects repeat the same fans: the slots come out ascending,
// duplicate-free and at most four.
#[test]
fn test_stats_fans_sorted_unique_four_slots() {
    let mut stats = MinerStats::default();
    let text = "{\"STATS\":[{\"fan2\":3120,\"fan1\":3000},{\"fan2\":3120,\"fan1\":3000,\"fan3\":2900,\"fan4\":3200,\"fan5\":3300}]}";
    apply_stats_response(&mut stats, text);
    assert_eq!(
        stats.fan_speeds,
        vec![Some(2900), Some(3000), Some(3120), Some(3200)]
    );
}

// Older firmware reports chip temperatures under bare temp{N} keys.
#[test]
fn test_stats_generic_temp_keys() {
    let mut stats = MinerStats::default();
    let text = "{\"STATS\":[{\"temp1\":45.0,\"temp2\":62.5,\"temp_num\":2,\"temp2_1\":40.0}]}";
    apply_stats_response(&mut stats, text);
    assert_eq!(stats.temp_outlet_min, vec![Some(45000), Some(62500)]);
    assert_eq!(stats.temp_outlet_max, vec![Some(45000), Some(62500)]);
    assert_eq!(stats.temp_inlet_min, Vec::<Option<i64>>::new());
}

// Exponent-form numerals are read too: 9.5e7 MH/s is 95 TH/s.
#[test]
fn test_summary_exponent_numerals() {
    let text = "{\"STATUS\":[{\"STATUS\":\"S\"}],\"SUMMARY\":[{\"Elapsed\":5,\"MHS av\":9.5e7,\"MHS 5s\":9.5E7}]}";
    let stats = parse_summary_response(text).unwrap();
    assert_eq!(stats.hashrate_avg, 95000);
    assert_eq!(stats.hashrate_rt, 95000);
}

#[test]
fn test_exponent_scaling_cases() {
    let mut stats = MinerStats::default();
    // 4.5e1 and 620e-1 degrees: 45 and 62.
    let text = "{\"STATS\":[{\"temp_chip1\":4.5e1,\"temp_chip2\":620e-1}]}";
    apply_stats_response(&mut stats, text);
    assert_eq!(stats.temp_outlet_min, vec![Some(45000), Some(62000)]);
    // A value at or beyond 10^15 units is out of range and dropped.
    let mut stats2 = MinerStats::default();
    let text2 = "{\"STATS\":[{\"temp_chip1\":1e99}]}";
    apply_stats_response(&mut stats2, text2);
    assert_eq!(stats2.temp_outlet_min, Vec::<Option<i64>>::new());
}
