use miner_manager::{
    apply_poll, assemble_batch, classify_config_page, determine_status, digest_first_round,
    digest_second_round, select_whatsminer, AntminerPool, AntminerWebClient, DigestStep,
    MinerRegistry, MinerStats, MinerStatus, MonitorConfig, PageProbe, ScanTracker, ScanEvent,
    WhatsminerPool, WhatsminerWebClient, Miner,
};

fn stats_with(avg_milli: i64, outlet_max_milli: Option<i64>) -> MinerStats {
    let mut s = MinerStats::default();
    s.hashrate_avg = avg_milli;
    if let Some(t) = outlet_max_milli {
        s.temp_outlet_max = vec![Some(t)];
    }
    s
}

#[test]
fn test_status_determination_active() {
    // 100 TH/s, boards at 72 °C: hashing and cool.
    let stats = stats_with(100000, Some(72000));
    let config = MonitorConfig::default();
    assert_eq!(determine_status(&stats, &config), MinerStatus::Active);
}

#[test]
fn test_status_determination_warning_temp() {
    // 100 TH/s but a board at 88 °C: too hot regardless of hashrate.
    let stats = stats_with(100000, Some(88000));
    let config = MonitorConfig::default();
    assert_eq!(determine_status(&stats, &config), MinerStatus::Warning);
}

#[test]
fn test_status_determination_warning_no_hashrate() {
    let stats = stats_with(0, Some(70000));
    let config = MonitorConfig::default();
    assert_eq!(determine_status(&stats, &config), MinerStatus::Warning);
}

#[test]
fn test_status_at_threshold_is_warning() {
    // Exactly at the 85 °C threshold counts as too hot.
    let stats = stats_with(100000, Some(85000));
    let config = MonitorConfig::default();
    assert_eq!(determine_status(&stats, &config), MinerStatus::Warning);
}

#[test]
fn test_scan_tracker_envelope() {
    let (mut t, started) = ScanTracker::start(5);
    match started {
        ScanEvent::Started { total_ips } => assert_eq!(total_ips, 5),
        _ => panic!("expected a Started event"),
    }
    let mut progress_count = 0;
    let outcomes = [true, false, true, true, false];
    for &found in outcomes.iter() {
        if t.record_probe(found) {
            progress_count += 1;
        }
    }
    // Only the final probe (the fifth) is a progress point here.
    assert_eq!(progress_count, 1);
    match t.complete_event() {
        ScanEvent::Complete { found, failed } => {
            assert_eq!(found, 3);
            assert_eq!(failed, 2);
            assert_eq!(found + failed, 5);
        },
        _ => panic!("expected a Complete event"),
    }
}

#[test]
fn test_scan_tracker_progress_every_tenth() {
    let (mut t, _) = ScanTracker::start(25);
    let mut points = Vec::new();
    for i in 1..=25 {
        if t.record_probe(false) {
            points.push(i);
        }
    }
    assert_eq!(points, vec![10, 20, 25]);
}

#[test]
fn test_batch_result_shape() {
    let ips = vec!["10.0.0.1".to_string(), "10.0.0.2".to_string(), "10.0.0.3".to_string()];
    let outcomes = vec![None, Some("connection refused".to_string()), None];
    let results = assemble_batch(&ips, &outcomes);
    assert_eq!(results.len(), 3);
    assert_eq!(results[0].ip, "10.0.0.1");
    assert!(results[0].success);
    assert!(!results[1].success);
    assert_eq!(results[1].error, Some("connection refused".to_string()));
    assert!(results[2].success);
}

#[test]
fn test_batch_failure_isolated() {
    let ips = vec!["10.0.0.1".to_string(), "10.0.0.2".to_string()];
    let one = assemble_batch(&ips, &vec![None, Some("boom".to_string())]);
    let two = assemble_batch(&ips, &vec![Some("down".to_string()), Some("boom".to_string())]);
    // The second address's result is identical whatever happened to the first.
    assert_eq!(one[1].ip, two[1].ip);
    assert_eq!(one[1].success, two[1].success);
    assert_eq!(one[1].error, two[1].error);
}

#[test]
fn test_vendor_selection() {
    let mut st = MinerStats::default();
    st.model = Some("WhatsMiner M31S".to_string());
    assert!(select_whatsminer(&Some(st)));

    let mut st2 = MinerStats::default();
    st2.firmware = Some("whatsminer-fw-2023".to_string());
    assert!(select_whatsminer(&Some(st2)));

    let st3 = MinerStats::default();
    assert!(!select_whatsminer(&Some(st3)));
    // A failed probe defaults to the digest-auth family.
    assert!(!select_whatsminer(&None));
}

#[test]
fn test_registry_dedup_and_poll() {
    let ips = vec!["1.1.1.1".to_string(), "1.1.1.1".to_string(), "2.2.2.2".to_string()];
    let mut reg = MinerRegistry::new_registry(&ips, 7);
    assert_eq!(reg.count(), 2);
    let snap = reg.snapshot();
    assert_eq!(snap.len(), 2);
    assert_eq!(snap[0].status, MinerStatus::Scanning);
    assert_eq!(snap[0].last_updated, 7);

    let config = MonitorConfig::default();
    let changed = reg.apply_to(&"1.1.1.1".to_string(), None, &config, 9).unwrap();
    assert!(changed);
    let snap2 = reg.snapshot();
    assert_eq!(snap2[0].status, MinerStatus::Dead);
    assert_eq!(snap2[0].last_updated, 9);
    assert_eq!(snap2[1].status, MinerStatus::Scanning);

    assert!(reg.apply_to(&"9.9.9.9".to_string(), None, &config, 9).is_none());
}

#[test]
fn test_apply_poll_transitions() {
    let mut m = Miner {
        ip: "1.2.3.4".to_string(),
        model: None,
        status: MinerStatus::Scanning,
        stats: MinerStats::default(),
        last_updated: 0,
    };
    let config = MonitorConfig::default();
    let changed = apply_poll(&mut m, Some(stats_with(50000, Some(60000))), &config, 11);
    assert!(changed);
    assert_eq!(m.status, MinerStatus::Active);
    assert_eq!(m.last_updated, 11);

    let changed2 = apply_poll(&mut m, Some(stats_with(50000, Some(60000))), &config, 12);
    assert!(!changed2);

    let changed3 = apply_poll(&mut m, None, &config, 13);
    assert!(changed3);
    assert_eq!(m.status, MinerStatus::Dead);
}

#[test]
fn test_digest_first_round_outcomes() {
    match digest_first_round(200, "body".to_string(), None, "u", "p", "/x", false) {
        DigestStep::Done(Ok(b)) => assert_eq!(b, "body"),
        _ => panic!("a success status must end the exchange"),
    }
    match digest_first_round(500, String::new(), None, "u", "p", "/x", false) {
        DigestStep::Done(Err(e)) => assert!(e.message().contains("500")),
        _ => panic!("an unexpected status must fail"),
    }
    match digest_first_round(401, String::new(), None, "u", "p", "/x", false) {
        DigestStep::Done(Err(_)) => {},
        _ => panic!("a challenge-less 401 must fail"),
    }
    // A real digest challenge leads to an authenticated retry; this runs
    // the actual digest computation.
    let challenge = "Digest realm=\"device\", nonce=\"abc123\", qop=\"auth\"";
    match digest_first_round(401, String::new(), Some(challenge), "root", "root", "/cgi-bin/reboot.cgi", false) {
        DigestStep::Authenticate(h) => {
            assert!(h.contains("Digest"));
            assert!(h.contains("username=\"root\""));
        },
        _ => panic!("a well-formed challenge must be answered"),
    }
}

#[test]
fn test_digest_rejects_non_ascii_challenge() {
    // The digest library slices the challenge by byte index at character
    // positions; a non-ASCII challenge is refused up front instead.
    match digest_first_round(401, String::new(), Some("\u{e9}=x"), "u", "p", "/x", false) {
        DigestStep::Done(Err(e)) => assert!(e.message().contains("ASCII")),
        _ => panic!("a non-ASCII challenge must be refused"),
    }
}

#[test]
fn test_power_mode_label() {
    assert_eq!(WhatsminerWebClient::power_mode_label(true), "Low");
    assert_eq!(WhatsminerWebClient::power_mode_label(false), "Normal");
}

#[test]
fn test_pools_of_conf() {
    let conf = "{\"pools\":[{\"url\":\"a\",\"user\":\"w1\",\"pass\":\"x\"},{\"url\":\"b\",\"user\":\"w2\",\"pass\":\"y\"}],\"freq-level\":\"100\"}";
    let pools = AntminerWebClient::pools_of_conf(conf);
    assert_eq!(pools.len(), 2);
    assert_eq!(pools[0].url, "a");
    assert_eq!(pools[0].user, "w1");
    assert_eq!(pools[1].pass, "y");
    // A record missing a field spoils the whole list, as a strict
    // decoder would.
    let bad = "{\"pools\":[{\"url\":\"a\",\"user\":\"w1\"}]}";
    assert_eq!(AntminerWebClient::pools_of_conf(bad).len(), 0);
    assert_eq!(AntminerWebClient::pools_of_conf("not json").len(), 0);
}

#[test]
fn test_digest_second_round_tolerance() {
    assert_eq!(
        digest_second_round(200, "ok".to_string(), None, false).unwrap(),
        "ok"
    );
    assert!(digest_second_round(500, String::new(), None, false).is_err());
    // A dropped connection counts as success only for rebooting writes.
    assert_eq!(
        digest_second_round(0, String::new(), Some("reset".to_string()), true).unwrap(),
        ""
    );
    assert!(digest_second_round(0, String::new(), Some("reset".to_string()), false).is_err());
}

#[test]
fn test_conf_power_mode_preserves_unknown_fields() {
    let conf = r#"{"pools": [{"url": "old", "user": "u", "pass": "p"}], "bitmain-fan-ctrl": false, "bitmain-fan-pwm": "100", "freq-level": "100", "miner-mode": 0}"#;
    let out = AntminerWebClient::conf_with_power_mode(conf, true).unwrap();
    assert_eq!(
        String::from_utf8(out).unwrap(),
        r#"{"pools":[{"url":"old","user":"u","pass":"p"}],"bitmain-fan-ctrl":false,"bitmain-fan-pwm":"100","freq-level":"100","miner-mode":1}"#
    );
}

#[test]
fn test_conf_set_pools_replaces_only_pools() {
    let conf = r#"{"pools":[],"freq-level":"100"}"#;
    let pools = vec![AntminerPool {
        url: "stratum+tcp://pool".to_string(),
        user: "worker".to_string(),
        pass: "x".to_string(),
    }];
    let out = AntminerWebClient::conf_with_pools(conf, &pools).unwrap();
    assert_eq!(
        String::from_utf8(out).unwrap(),
        r#"{"pools":[{"url":"stratum+tcp://pool","user":"worker","pass":"x"}],"freq-level":"100"}"#
    );
}

#[test]
fn test_conf_set_pools_rejects_bad_counts() {
    assert!(AntminerWebClient::conf_with_pools("{}", &Vec::new()).is_err());
    let four = (0..4)
        .map(|i| AntminerPool {
            url: format!("u{}", i),
            user: "w".to_string(),
            pass: "p".to_string(),
        })
        .collect::<Vec<_>>();
    assert!(AntminerWebClient::conf_with_pools("{}", &four).is_err());
}

#[test]
fn test_conf_unusable_document_is_read_failure() {
    assert!(AntminerWebClient::conf_with_power_mode("not json", true).is_err());
    assert!(AntminerWebClient::conf_with_power_mode("[1,2]", true).is_err());
}

#[test]
fn test_blink_body_and_status() {
    assert_eq!(AntminerWebClient::blink_body(true), b"{\"blink\":true}".to_vec());
    assert_eq!(AntminerWebClient::blink_body(false), b"{\"blink\":false}".to_vec());
    assert_eq!(
        AntminerWebClient::parse_blink_status(r#"{"blink": true}"#).unwrap(),
        true
    );
    assert!(AntminerWebClient::parse_blink_status("{}").is_err());
}

#[test]
fn test_script_token_extraction() {
    let html = "<script>var t = { token:'abcdef123' };</script>";
    assert_eq!(
        WhatsminerWebClient::extract_script_token(html),
        Some(b"abcdef123".to_vec())
    );
    let html2 = "<script>token: \"zz9\"</script>";
    assert_eq!(
        WhatsminerWebClient::extract_script_token(html2),
        Some(b"zz9".to_vec())
    );
    assert_eq!(WhatsminerWebClient::extract_script_token("<p>no token</p>"), None);
}

#[test]
fn test_form_token_extraction() {
    let html = "<input type=\"hidden\" name=\"token\" value=\"xyz42\"/>";
    assert_eq!(
        WhatsminerWebClient::extract_form_token(html),
        Some(b"xyz42".to_vec())
    );
    assert_eq!(WhatsminerWebClient::extract_form_token("<input>"), None);
}

#[test]
fn test_url_encode() {
    assert_eq!(miner_manager::url_encode(b"a b/c"), b"a%20b%2Fc".to_vec());
    assert_eq!(miner_manager::url_encode(b"safe-._~09AZaz"), b"safe-._~09AZaz".to_vec());
}

#[test]
fn test_login_form_body() {
    assert_eq!(
        miner_manager::login_form_body("admin", "p@ss"),
        b"luci_username=admin&luci_password=p%40ss".to_vec()
    );
}

#[test]
fn test_pools_form_body_pads_to_three() {
    let pools = vec![WhatsminerPool {
        url: "u r".to_string(),
        worker: "w".to_string(),
        password: "p".to_string(),
    }];
    let body = miner_manager::pools_form_body(b"t", b"BTC", &pools);
    let expected = "token=t&cbi.submit=1&cbi.apply=1&cbid.pools.default.coin_type=BTC&cbid.pools.default.pool1url=u%20r&cbid.pools.default.pool1user=w&cbid.pools.default.pool1pw=p&cbid.pools.default.pool2url=&cbid.pools.default.pool2user=&cbid.pools.default.pool2pw=&cbid.pools.default.pool3url=&cbid.pools.default.pool3user=&cbid.pools.default.pool3pw=";
    assert_eq!(String::from_utf8(body).unwrap(), expected);
}

#[test]
fn test_power_form_body() {
    assert_eq!(
        String::from_utf8(miner_manager::power_form_body(b"t", b"btminer", "Low")).unwrap(),
        "token=t&cbi.submit=1&cbi.apply=1&cbid.btminer.default.miner_type=Low"
    );
}

#[test]
fn test_reboot_call_body_is_raw() {
    assert_eq!(
        miner_manager::reboot_call_body(b"a/b"),
        b"token=a/b".to_vec()
    );
}

#[test]
fn test_coin_type_extraction() {
    let html = "<option id=\"cbid.pools.default.coin_type1\" value=\"LTC\">x</option><option id=\"cbid.pools.default.coin_type2\" value=\"BTC\" selected=\"selected\">y</option>";
    assert_eq!(
        WhatsminerWebClient::extract_coin_type(html),
        Some(b"BTC".to_vec())
    );
    let none = "<option id=\"cbid.pools.default.coin_type1\" value=\"LTC\">x</option>";
    assert_eq!(WhatsminerWebClient::extract_coin_type(none), None);
}

#[test]
fn test_config_page_classification() {
    assert!(matches!(classify_config_page(200), PageProbe::Proceed));
    assert!(matches!(classify_config_page(404), PageProbe::TryNext));
    assert!(matches!(classify_config_page(500), PageProbe::Fail));
    assert!(matches!(classify_config_page(302), PageProbe::Fail));
}

#[test]
fn test_login_and_restart_codes() {
    assert!(WhatsminerWebClient::login_ok(302));
    assert!(WhatsminerWebClient::login_ok(200));
    assert!(!WhatsminerWebClient::login_ok(403));
    assert!(WhatsminerWebClient::restart_ok(302));
    assert!(!WhatsminerWebClient::restart_ok(404));
}

#[test]
fn test_build_found_miner_classifies() {
    let stats = stats_with(95000, Some(60000));
    let m = miner_manager::build_found_miner("1.2.3.4".to_string(), Some("S19".to_string()), stats, 42);
    assert_eq!(m.ip, "1.2.3.4");
    assert_eq!(m.model, Some("S19".to_string()));
    assert_eq!(m.status, MinerStatus::Active);
    assert_eq!(m.last_updated, 42);

    let hot = stats_with(95000, Some(90000));
    let m2 = miner_manager::build_found_miner("1.2.3.5".to_string(), None, hot, 42);
    assert_eq!(m2.status, MinerStatus::Warning);
}

// One entry per requested address holds even when outcomes are missing:
// an address with no recorded outcome fails, never disappears.
#[test]
fn test_batch_results_ragged_outcomes() {
    let ips = vec!["10.0.0.1".to_string(), "10.0.0.2".to_string(), "10.0.0.3".to_string()];
    let results = miner_manager::batch_results(&ips, &vec![None]);
    assert_eq!(results.len(), 3);
    assert!(results[0].success);
    assert!(!results[1].success);
    assert_eq!(results[1].error, Some("no outcome recorded".to_string()));
    assert_eq!(results[2].ip, "10.0.0.3");
    assert!(!results[2].success);
}

#[test]
fn test_registry_failed_poll_keeps_stats_and_model() {
    let ips = vec!["1.1.1.1".to_string()];
    let mut reg = MinerRegistry::new_registry(&ips, 1);
    let snap0 = reg.snapshot();
    assert_eq!(snap0[0].model, None);
    let config = MonitorConfig::default();
    // A successful poll installs a snapshot...
    reg.apply_to(&"1.1.1.1".to_string(), Some(stats_with(70000, Some(60000))), &config, 2);
    // ...and a failed one marks Dead but keeps the last snapshot.
    let changed = reg.apply_to(&"1.1.1.1".to_string(), None, &config, 3).unwrap();
    assert!(changed);
    let snap = reg.snapshot();
    assert_eq!(snap[0].status, MinerStatus::Dead);
    assert_eq!(snap[0].stats.hashrate_avg, 70000);
    assert_eq!(snap[0].model, None);
}
