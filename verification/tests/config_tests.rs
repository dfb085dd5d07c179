use solana_wallet::DisplaySettings;
use solana_wallet::NetworkEndpoints;
use solana_wallet::WalletConfig;
use solana_wallet::WalletError;

fn sample_config(keypair_dir: &str) -> WalletConfig {
    WalletConfig {
        default_network: "testnet".to_string(),
        keypair_dir: keypair_dir.to_string(),
        rpc_endpoints: NetworkEndpoints {
            devnet: "https://api.devnet.solana.com".to_string(),
            testnet: "https://api.testnet.solana.com".to_string(),
            mainnet: "https://api.mainnet-beta.solana.com".to_string(),
        },
        display_settings: DisplaySettings {
            sol_precision: 9,
            verbose_transactions: false,
        },
    }
}

fn assert_configs_equal(a: &WalletConfig, b: &WalletConfig) {
    assert_eq!(a.default_network, b.default_network);
    assert_eq!(a.keypair_dir, b.keypair_dir);
    assert_eq!(a.rpc_endpoints.devnet, b.rpc_endpoints.devnet);
    assert_eq!(a.rpc_endpoints.testnet, b.rpc_endpoints.testnet);
    assert_eq!(a.rpc_endpoints.mainnet, b.rpc_endpoints.mainnet);
    assert_eq!(a.display_settings.sol_precision, b.display_settings.sol_precision);
    assert_eq!(
        a.display_settings.verbose_transactions,
        b.display_settings.verbose_transactions
    );
}

#[test]
fn round_trip_plain_config() {
    let c = sample_config("/home/user/.solana-wallet/keypairs");
    let text = c.to_json();
    let back = WalletConfig::from_json(&text).unwrap();
    assert_configs_equal(&c, &back);
}

#[test]
fn round_trip_config_with_awkward_strings() {
    let mut c = sample_config("C:\\Users\\someone\\\"wallet\" dir");
    c.default_network = "dev\\net \"quoted\"".to_string();
    c.rpc_endpoints.mainnet = "https://example.org/päth?q=\"x\"".to_string();
    c.display_settings.sol_precision = 255;
    c.display_settings.verbose_transactions = true;
    let text = c.to_json();
    let back = WalletConfig::from_json(&text).unwrap();
    assert_configs_equal(&c, &back);
}

#[test]
fn rendered_config_is_valid_json_for_serde() {
    let c = sample_config("/tmp/kp");
    let text = c.to_json();
    let v: serde_json::Value = serde_json::from_str(&text).unwrap();
    assert_eq!(v.get("default_network").and_then(|x| x.as_str()), Some("testnet"));
    assert_eq!(v.get("keypair_dir").and_then(|x| x.as_str()), Some("/tmp/kp"));
    let eps = v.get("rpc_endpoints").unwrap();
    assert_eq!(
        eps.get("devnet").and_then(|x| x.as_str()),
        Some("https://api.devnet.solana.com")
    );
    let disp = v.get("display_settings").unwrap();
    assert_eq!(disp.get("sol_precision").and_then(|x| x.as_u64()), Some(9));
    assert_eq!(disp.get("verbose_transactions").and_then(|x| x.as_bool()), Some(false));
}

#[test]
fn parses_document_with_trailing_newline() {
    let c = sample_config("/tmp/kp");
    let mut text = c.to_json();
    text.push('\n');
    let back = WalletConfig::from_json(&text).unwrap();
    assert_configs_equal(&c, &back);
}

#[test]
fn corrupt_document_is_surfaced_not_masked() {
    for bad in [
        "",
        "{",
        "not json at all",
        "{\n  \"default_network\": 7\n}",
        "{\"default_network\": \"devnet\"}",
    ] {
        match WalletConfig::from_json(bad) {
            Err(WalletError::ConfigCorrupt(_)) => {}
            other => panic!("expected ConfigCorrupt, got {:?}", other),
        }
    }
}

#[test]
fn oversized_precision_is_corrupt() {
    let c = sample_config("/tmp/kp");
    let text = c.to_json().replace("\"sol_precision\": 9", "\"sol_precision\": 300");
    assert!(matches!(
        WalletConfig::from_json(&text),
        Err(WalletError::ConfigCorrupt(_))
    ));
}

#[test]
fn leading_zero_precision_is_corrupt() {
    let c = sample_config("/tmp/kp");
    let text = c.to_json().replace("\"sol_precision\": 9", "\"sol_precision\": 09");
    assert!(matches!(
        WalletConfig::from_json(&text),
        Err(WalletError::ConfigCorrupt(_))
    ));
}

#[test]
fn zero_precision_round_trips() {
    let mut c = sample_config("/tmp/kp");
    c.display_settings.sol_precision = 0;
    let back = WalletConfig::from_json(&c.to_json()).unwrap();
    assert_eq!(back.display_settings.sol_precision, 0);
}

#[test]
fn default_config_matches_documented_defaults() {
    let c = WalletConfig::default();
    assert_eq!(c.default_network, "devnet");
    assert_eq!(c.rpc_endpoints.devnet, "https://api.devnet.solana.com");
    assert_eq!(c.rpc_endpoints.testnet, "https://api.testnet.solana.com");
    assert_eq!(c.rpc_endpoints.mainnet, "https://api.mainnet-beta.solana.com");
    assert_eq!(c.display_settings.sol_precision, 9);
    assert!(!c.display_settings.verbose_transactions);
    assert!(c.keypair_dir.ends_with("keypairs"));
}

#[test]
fn fresh_install_bootstraps_defaults_and_persists() {
    let (c, must_persist) = WalletConfig::load_or_default(None).unwrap();
    assert!(must_persist);
    assert_eq!(c.default_network, "devnet");
    assert_eq!(c.display_settings.sol_precision, 9);
}

#[test]
fn existing_document_is_loaded_not_replaced() {
    let on_disk = sample_config("/somewhere/else").to_json();
    let (c, must_persist) = WalletConfig::load_or_default(Some(&on_disk)).unwrap();
    assert!(!must_persist);
    assert_eq!(c.keypair_dir, "/somewhere/else");
}

#[test]
fn corrupt_document_fails_load() {
    assert!(matches!(
        WalletConfig::load_or_default(Some("{ nope")),
        Err(WalletError::ConfigCorrupt(_))
    ));
}

#[test]
fn unknown_network_falls_back_to_devnet() {
    let c = sample_config("/tmp/kp");
    assert_eq!(
        c.get_rpc_endpoints("unknown-network"),
        c.get_rpc_endpoints("devnet")
    );
    assert_eq!(c.get_rpc_endpoints("testnet"), "https://api.testnet.solana.com");
    assert_eq!(c.get_rpc_endpoints("mainnet"), "https://api.mainnet-beta.solana.com");
}

#[test]
fn config_dir_hangs_off_home() {
    match WalletConfig::config_dir() {
        Ok(d) => assert!(d.ends_with(".solana-wallet")),
        Err(e) => assert!(matches!(e, WalletError::HomeDirectoryNotFound)),
    }
}
