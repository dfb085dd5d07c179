use solana_wallet::sanitize_filename;
use solana_wallet::DisplaySettings;
use solana_wallet::KeypairFileEntry;
use solana_wallet::KeypairFileFields;
use solana_wallet::KeypairStorage;
use solana_wallet::NetworkEndpoints;
use solana_wallet::WalletConfig;
use solana_wallet::WalletError;

fn storage_at(dir: &str) -> KeypairStorage {
    KeypairStorage::new(WalletConfig {
        default_network: "devnet".to_string(),
        keypair_dir: dir.to_string(),
        rpc_endpoints: NetworkEndpoints {
            devnet: "https://api.devnet.solana.com".to_string(),
            testnet: "https://api.testnet.solana.com".to_string(),
            mainnet: "https://api.mainnet-beta.solana.com".to_string(),
        },
        display_settings: DisplaySettings {
            sol_precision: 9,
            verbose_transactions: false,
        },
    })
}

fn entry(name: &str, content: Option<&str>, mtime: Option<u64>) -> KeypairFileEntry {
    KeypairFileEntry {
        name: name.to_string(),
        content: content.map(|c| c.to_string()),
        mtime,
    }
}

#[test]
fn sanitize_replaces_each_reserved_character() {
    assert_eq!(sanitize_filename("a/b\\c?d%e*f:g|h\"i<j>k"), "a_b_c_d_e_f_g_h_i_j_k");
    assert_eq!(sanitize_filename("plain-name_09 ü"), "plain-name_09 ü");
    assert_eq!(sanitize_filename(""), "");
}

#[test]
fn sanitize_is_idempotent_on_samples() {
    for s in ["my wallet/", "a:b|c", "", "___", "päth?<>"] {
        let once = sanitize_filename(s);
        let twice = sanitize_filename(&once);
        assert_eq!(once, twice);
    }
}

#[test]
fn named_keypair_path_is_sanitized() {
    let st = storage_at("/tmp/kp");
    let p = st.generate_keypair_path(Some("my wallet/"));
    assert_eq!(p, "/tmp/kp/my wallet_.json");
    assert!(p.ends_with("my wallet_.json"));
}

#[test]
fn unnamed_keypair_path_uses_timestamp() {
    let st = storage_at("/tmp/kp");
    let p = st.generate_keypair_path(None);
    assert!(p.starts_with("/tmp/kp/keypair_"));
    assert!(p.ends_with(".json"));
    let middle = &p["/tmp/kp/keypair_".len()..p.len() - ".json".len()];
    assert!(!middle.is_empty());
    assert!(middle.chars().all(|c| c.is_ascii_digit()));
}

#[test]
fn keypair_exists_reports_the_filesystem() {
    let st = storage_at("/tmp/kp");
    assert!(st.keypair_exists("/"));
    assert!(!st.keypair_exists("/definitely/not/a/real/path/wallet.json"));
}

#[test]
fn listing_two_records_orders_newest_first() {
    let st = storage_at("/tmp/kp");
    let entries = vec![
        entry("a.json", Some("{\"public_key\":\"ABC\",\"created_at\":100}"), None),
        entry("b.json", Some("{\"public_key\":\"DEF\",\"created_at\":200}"), None),
    ];
    let listed = st.list_keypairs(entries);
    assert_eq!(listed.len(), 2);
    assert_eq!(listed[0].name, "b");
    assert_eq!(listed[0].public_key, "DEF");
    assert_eq!(listed[0].created_at, 200);
    assert_eq!(listed[0].file_path, "/tmp/kp/b.json");
    assert_eq!(listed[1].name, "a");
    assert_eq!(listed[1].public_key, "ABC");
    assert_eq!(listed[1].created_at, 100);
}

#[test]
fn listing_skips_malformed_files_but_keeps_well_formed_ones() {
    let st = storage_at("/tmp/kp");
    let entries = vec![
        entry("good.json", Some("{\"public_key\":\"PK1\",\"created_at\":5}"), None),
        entry("no_key.json", Some("{\"created_at\":10}"), None),
        entry("broken.json", Some("{ not json"), None),
        entry("unreadable.json", None, None),
        entry("notes.txt", Some("{\"public_key\":\"PK2\",\"created_at\":50}"), None),
        entry(
            "extra_fields.json",
            Some("{\"public_key\":\"PK3\",\"created_at\":7,\"private_key\":\"opaque-payload\"}"),
            None,
        ),
    ];
    let listed = st.list_keypairs(entries);
    let names: Vec<&str> = listed.iter().map(|k| k.name.as_str()).collect();
    assert_eq!(names, vec!["extra_fields", "good"]);
    assert_eq!(listed[0].public_key, "PK3");
}

#[test]
fn listing_is_sorted_descending_with_ties_allowed() {
    let st = storage_at("/tmp/kp");
    let entries = vec![
        entry("p.json", Some("{\"public_key\":\"P\",\"created_at\":3}"), None),
        entry("q.json", Some("{\"public_key\":\"Q\",\"created_at\":9}"), None),
        entry("r.json", Some("{\"public_key\":\"R\",\"created_at\":3}"), None),
        entry("s.json", Some("{\"public_key\":\"S\",\"created_at\":12}"), None),
    ];
    let listed = st.list_keypairs(entries);
    assert_eq!(listed.len(), 4);
    for w in listed.windows(2) {
        assert!(w[0].created_at >= w[1].created_at);
    }
}

#[test]
fn listing_empty_directory_yields_empty_listing() {
    let st = storage_at("/tmp/kp");
    let listed = st.list_keypairs(Vec::new());
    assert!(listed.is_empty());
}

#[test]
fn missing_created_at_falls_back_to_modification_time() {
    let st = storage_at("/tmp/kp");
    let entries = vec![entry("old.json", Some("{\"public_key\":\"PK\"}"), Some(777))];
    let listed = st.list_keypairs(entries);
    assert_eq!(listed.len(), 1);
    assert_eq!(listed[0].created_at, 777);
}

#[test]
fn missing_created_at_and_mtime_falls_back_to_zero() {
    let st = storage_at("/tmp/kp");
    let rec = st
        .load_keypair_info("x.json", "{\"public_key\":\"PK\"}", None)
        .unwrap();
    assert_eq!(rec.created_at, 0);
    assert_eq!(rec.name, "x");
    assert_eq!(rec.file_path, "/tmp/kp/x.json");
}

#[test]
fn embedded_timestamp_wins_over_modification_time() {
    let st = storage_at("/tmp/kp");
    let rec = st
        .load_keypair_info("y.json", "{\"public_key\":\"PK\",\"created_at\":42}", Some(99))
        .unwrap();
    assert_eq!(rec.created_at, 42);
}

#[test]
fn load_without_public_key_is_invalid_format() {
    let st = storage_at("/tmp/kp");
    for content in ["{\"created_at\":42}", "not json", "{\"public_key\":42}"] {
        match st.load_keypair_info("z.json", content, None) {
            Err(WalletError::InvalidKeypairFormat(_)) => {}
            other => panic!("expected InvalidKeypairFormat, got {:?}", other),
        }
    }
}

#[test]
fn record_from_fields_requires_public_key() {
    let missing = KeypairFileFields {
        name: "n".to_string(),
        storage_path: "/tmp/kp/n.json".to_string(),
        public_key: None,
        created_at: Some(5),
        mtime: Some(6),
    };
    assert!(matches!(
        solana_wallet::storage::record_from_fields(missing),
        Err(WalletError::InvalidKeypairFormat(_))
    ));
    let present = KeypairFileFields {
        name: "n".to_string(),
        storage_path: "/tmp/kp/n.json".to_string(),
        public_key: Some("PK".to_string()),
        created_at: None,
        mtime: Some(6),
    };
    let rec = solana_wallet::storage::record_from_fields(present).unwrap();
    assert_eq!(rec.created_at, 6);
    assert_eq!(rec.public_key, "PK");
}

#[test]
fn dotted_names_keep_their_full_stem() {
    let st = storage_at("/kp");
    let rec = st
        .load_keypair_info("main.backup.json", "{\"public_key\":\"PK\"}", None)
        .unwrap();
    assert_eq!(rec.name, "main.backup");
    assert_eq!(rec.file_path, "/kp/main.backup.json");
}

#[test]
fn error_messages_name_the_failure() {
    let e = WalletError::HomeDirectoryNotFound;
    assert!(e.message().contains("home"));
    let c = WalletError::ConfigCorrupt("bad".to_string());
    assert_eq!(c.message(), "bad");
}

#[test]
fn equal_timestamps_keep_scan_order_across_calls() {
    let st = storage_at("/tmp/kp");
    let make = || {
        vec![
            entry("first.json", Some("{\"public_key\":\"F\",\"created_at\":7}"), None),
            entry("second.json", Some("{\"public_key\":\"S\",\"created_at\":7}"), None),
            entry("newer.json", Some("{\"public_key\":\"N\",\"created_at\":9}"), None),
        ]
    };
    let a = st.list_keypairs(make());
    let b = st.list_keypairs(make());
    let names_a: Vec<&str> = a.iter().map(|k| k.name.as_str()).collect();
    let names_b: Vec<&str> = b.iter().map(|k| k.name.as_str()).collect();
    assert_eq!(names_a, vec!["newer", "first", "second"]);
    assert_eq!(names_a, names_b);
}
