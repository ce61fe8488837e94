//! Discovery, monitoring and remote control of ASIC mining appliances.
//!
//! The crate holds the verified core: address range expansion, the status
//! protocol's JSON handling, response parsing, scan and poll bookkeeping,
//! and the decision logic of the two vendor control protocols. The
//! surrounding process (sockets, HTTP, timers) lives outside and feeds
//! plain values in and out.

pub mod antminer_web;
pub mod api;
pub mod btext;
pub mod cleanup;
pub mod details;
pub mod dispatch;
pub mod error;
pub mod json;
pub mod models;
pub mod monitor;
pub mod numbers;
pub mod protocol;
pub mod range;
pub mod readings;
pub mod scan;
pub mod summary;
pub mod whatsminer_web;

pub use cleanup::{extract_clean_json, extract_json, trim_garbage};
pub use error::{MinerError, MinerResult};
pub use models::{Miner, MinerStats, MinerStatus, MinerCredentials, AppSettings, PoolConfig,
    MinerCommand, CommandResult, ScanConfig, MonitorConfig};
pub use readings::{parse_hashrate_string, parse_temp_string};
pub use range::{parse_ip_range, ipv4_to_string};
pub use api::{test_connection, validate_ip_range, local_range_strings};
pub use summary::{AntminerParser, WhatsminerParser, MinerParser, parse_summary_response,
    detect_parser};
pub use monitor::{MonitorEvent, MinerRegistry, determine_status, determine_status_from_stats,
    apply_poll};
pub use scan::{ScanEvent, ScanTracker, build_found_miner};
pub use protocol::{build_request, parse_mac_from_arp_output, DEFAULT_PORT, DEFAULT_TIMEOUT_MS};
pub use dispatch::{select_whatsminer, make_command_result, assemble_batch, batch_results};
pub use antminer_web::{AntminerPool, AntminerWebClient, DigestStep, digest_first_round,
    digest_second_round};
pub use whatsminer_web::{WhatsminerPool, WhatsminerWebClient, PageProbe, classify_config_page,
    url_encode, login_form_body, pools_form_body, power_form_body, reboot_call_body};
pub use details::{apply_stats_response, apply_pools_response, apply_version_response,
    apply_devdetails_response, extract_model_from_version, parse_compile_time};
