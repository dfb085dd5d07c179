//! The configuration store: the wallet configuration document, its
//! textual codec, endpoint resolution, and the laws that tie them
//! together.
//!
//! The codec's grammar is deliberately canonical: `from_json` accepts
//! exactly the document `to_json` writes — fixed key order, fixed
//! indentation, `\"` and `\\` as the only string escapes — plus
//! trailing whitespace, and reports anything else as corruption
//! rather than guessing at it. The store always reads a file it
//! itself wrote, and the canonical grammar is what makes rendering
//! and reading provably mutual inverses (`lemma_config_round_trip`,
//! `lemma_config_parse_sound`). The price, accepted on purpose, is
//! that a hand-edited document survives only if it keeps the
//! canonical shape; corruption is surfaced, never silently repaired.

use vstd::prelude::*;

use crate::error::WalletError;
use crate::host;
use crate::text::all_ws_from;
use crate::text::append_quoted;
use crate::text::append_u64;
use crate::text::dec_digits;
use crate::text::expect_lit;
use crate::text::parse_number_u8;
use crate::text::parse_qstring;
use crate::text::path_join;
use crate::text::path_joined;
use crate::text::quoted;
use crate::text::rest_is_ws;
use crate::text::spec_expect;
use crate::text::spec_parse_number;
use crate::text::spec_parse_qstring;
use crate::text::str_eq;

verus! {

use vstd::string::StringExecFns;

/// One RPC endpoint per fixed network.
#[derive(Debug)]
pub struct NetworkEndpoints {
    pub devnet: String,
    pub testnet: String,
    pub mainnet: String,
}

pub struct NetworkEndpointsView {
    pub devnet: Seq<char>,
    pub testnet: Seq<char>,
    pub mainnet: Seq<char>,
}

impl View for NetworkEndpoints {
    type V = NetworkEndpointsView;

    open spec fn view(&self) -> NetworkEndpointsView {
        NetworkEndpointsView { devnet: self.devnet@, testnet: self.testnet@, mainnet: self.mainnet@ }
    }
}

/// Display preferences.
#[derive(Debug)]
pub struct DisplaySettings {
    /// Number of decimal places shown for token amounts.
    pub sol_precision: u8,
    /// Show verbose transaction details.
    pub verbose_transactions: bool,
}

pub struct DisplaySettingsView {
    pub sol_precision: u8,
    pub verbose_transactions: bool,
}

impl View for DisplaySettings {
    type V = DisplaySettingsView;

    open spec fn view(&self) -> DisplaySettingsView {
        DisplaySettingsView {
            sol_precision: self.sol_precision,
            verbose_transactions: self.verbose_transactions,
        }
    }
}

/// The wallet configuration: which network commands target by default,
/// where keypairs are stored, the endpoint of each network, and how
/// results are displayed.
#[derive(Debug)]
pub struct WalletConfig {
    /// Default network (devnet, testnet, mainnet).
    pub default_network: String,
    /// Directory where keypairs are stored.
    pub keypair_dir: String,
    /// RPC endpoint for each network.
    pub rpc_endpoints: NetworkEndpoints,
    /// Display preferences.
    pub display_settings: DisplaySettings,
}

pub struct WalletConfigView {
    pub default_network: Seq<char>,
    pub keypair_dir: Seq<char>,
    pub rpc_endpoints: NetworkEndpointsView,
    pub display_settings: DisplaySettingsView,
}

impl View for WalletConfig {
    type V = WalletConfigView;

    open spec fn view(&self) -> WalletConfigView {
        WalletConfigView {
            default_network: self.default_network@,
            keypair_dir: self.keypair_dir@,
            rpc_endpoints: self.rpc_endpoints@,
            display_settings: self.display_settings@,
        }
    }
}

pub open spec fn bool_text(b: bool) -> Seq<char> {
    if b {
        "true"@
    } else {
        "false"@
    }
}

/// The exact text `to_json` renders: the document serde-style
/// pretty-printers produce for this shape, two-space indent, keys in
/// declaration order.
pub open spec fn config_text(c: WalletConfigView) -> Seq<char> {
    "{\n  \"default_network\": "@ + quoted(c.default_network) + ",\n  \"keypair_dir\": "@
        + quoted(c.keypair_dir) + ",\n  \"rpc_endpoints\": {\n    \"devnet\": "@ + quoted(
        c.rpc_endpoints.devnet,
    ) + ",\n    \"testnet\": "@ + quoted(c.rpc_endpoints.testnet) + ",\n    \"mainnet\": "@
        + quoted(c.rpc_endpoints.mainnet)
        + "\n  },\n  \"display_settings\": {\n    \"sol_precision\": "@ + dec_digits(
        c.display_settings.sol_precision as int,
    ) + ",\n    \"verbose_transactions\": "@ + bool_text(c.display_settings.verbose_transactions)
        + "\n  }\n}"@
}

pub open spec fn spec_parse_bool(s: Seq<char>, i: int) -> Option<(bool, int)> {
    match spec_expect(s, i, "true"@) {
        Some(j) => Some((true, j)),
        None => match spec_expect(s, i, "false"@) {
            Some(j) => Some((false, j)),
            None => None,
        },
    }
}

/// The reading of a whole configuration document: the fixed template
/// with its five strings, one number and one boolean, optionally
/// followed by trailing whitespace. `None` is corruption.
pub open spec fn spec_parse_config(s: Seq<char>) -> Option<WalletConfigView> {
    match spec_expect(s, 0, "{\n  \"default_network\": "@) {
        None => None,
        Some(i1) => match spec_parse_qstring(s, i1) {
            None => None,
            Some((dn, i2)) => match spec_expect(s, i2, ",\n  \"keypair_dir\": "@) {
                None => None,
                Some(i3) => match spec_parse_qstring(s, i3) {
                    None => None,
                    Some((kd, i4)) => match spec_expect(
                        s,
                        i4,
                        ",\n  \"rpc_endpoints\": {\n    \"devnet\": "@,
                    ) {
                        None => None,
                        Some(i5) => match spec_parse_qstring(s, i5) {
                            None => None,
                            Some((dev, i6)) => match spec_expect(s, i6, ",\n    \"testnet\": "@) {
                                None => None,
                                Some(i7) => match spec_parse_qstring(s, i7) {
                                    None => None,
                                    Some((tst, i8)) => match spec_expect(
                                        s,
                                        i8,
                                        ",\n    \"mainnet\": "@,
                                    ) {
                                        None => None,
                                        Some(i9) => match spec_parse_qstring(s, i9) {
                                            None => None,
                                            Some((mnn, i10)) => spec_parse_config_tail(
                                                s,
                                                i10,
                                                dn,
                                                kd,
                                                dev,
                                                tst,
                                                mnn,
                                            ),
                                        },
                                    },
                                },
                            },
                        },
                    },
                },
            },
        },
    }
}

/// The part of the document after the endpoint strings: the display
/// settings and the closing braces.
pub open spec fn spec_parse_config_tail(
    s: Seq<char>,
    i: int,
    dn: Seq<char>,
    kd: Seq<char>,
    dev: Seq<char>,
    tst: Seq<char>,
    mnn: Seq<char>,
) -> Option<WalletConfigView> {
    match spec_expect(s, i, "\n  },\n  \"display_settings\": {\n    \"sol_precision\": "@) {
        None => None,
        Some(i11) => match spec_parse_number(s, i11) {
            None => None,
            Some((n, i12)) => if 0 <= n <= 255 {
                match spec_expect(s, i12, ",\n    \"verbose_transactions\": "@) {
                    None => None,
                    Some(i13) => match spec_parse_bool(s, i13) {
                        None => None,
                        Some((vt, i14)) => match spec_expect(s, i14, "\n  }\n}"@) {
                            None => None,
                            Some(i15) => if all_ws_from(s, i15) {
                                Some(
                                    WalletConfigView {
                                        default_network: dn,
                                        keypair_dir: kd,
                                        rpc_endpoints: NetworkEndpointsView {
                                            devnet: dev,
                                            testnet: tst,
                                            mainnet: mnn,
                                        },
                                        display_settings: DisplaySettingsView {
                                            sol_precision: n as u8,
                                            verbose_transactions: vt,
                                        },
                                    },
                                )
                            } else {
                                None
                            },
                        },
                    },
                }
            } else {
                None
            },
        },
    }
}

impl WalletConfig {
    /// Renders the configuration as its pretty-printed document.
    pub fn to_json(&self) -> (r: String)
        ensures
            r@ == config_text(self@),
    {
        let mut out = String::new();
        out.append("{\n  \"default_network\": ");
        append_quoted(&mut out, self.default_network.as_str());
        out.append(",\n  \"keypair_dir\": ");
        append_quoted(&mut out, self.keypair_dir.as_str());
        out.append(",\n  \"rpc_endpoints\": {\n    \"devnet\": ");
        append_quoted(&mut out, self.rpc_endpoints.devnet.as_str());
        out.append(",\n    \"testnet\": ");
        append_quoted(&mut out, self.rpc_endpoints.testnet.as_str());
        out.append(",\n    \"mainnet\": ");
        append_quoted(&mut out, self.rpc_endpoints.mainnet.as_str());
        out.append("\n  },\n  \"display_settings\": {\n    \"sol_precision\": ");
        append_u64(&mut out, self.display_settings.sol_precision as u64);
        out.append(",\n    \"verbose_transactions\": ");
        out.append(
            if self.display_settings.verbose_transactions {
                "true"
            } else {
                "false"
            },
        );
        out.append("\n  }\n}");
        out
    }

    /// Reads a configuration document. The accepted grammar is
    /// canonical on purpose: exactly what `to_json` writes, plus
    /// trailing whitespace — reordered keys, other indentation or
    /// further JSON escapes are corruption and are surfaced, never
    /// masked. `spec_parse_config` is the whole grammar, and the two
    /// public lemmas prove it inverse to the renderer.
    pub fn from_json(s: &str) -> (r: Result<WalletConfig, WalletError>)
        ensures
            match r {
                Ok(c) => spec_parse_config(s@) == Some(c@),
                Err(e) => spec_parse_config(s@) is None && e matches WalletError::ConfigCorrupt(_),
            },
    {
        let i1 = match expect_lit(s, 0, "{\n  \"default_network\": ") {
            Some(j) => j,
            None => {
                return Err(corrupt());
            },
        };
        let (dn, i2) = match parse_qstring(s, i1) {
            Some(p) => p,
            None => {
                return Err(corrupt());
            },
        };
        let i3 = match expect_lit(s, i2, ",\n  \"keypair_dir\": ") {
            Some(j) => j,
            None => {
                return Err(corrupt());
            },
        };
        let (kd, i4) = match parse_qstring(s, i3) {
            Some(p) => p,
            None => {
                return Err(corrupt());
            },
        };
        let i5 = match expect_lit(s, i4, ",\n  \"rpc_endpoints\": {\n    \"devnet\": ") {
            Some(j) => j,
            None => {
                return Err(corrupt());
            },
        };
        let (dev, i6) = match parse_qstring(s, i5) {
            Some(p) => p,
            None => {
                return Err(corrupt());
            },
        };
        let i7 = match expect_lit(s, i6, ",\n    \"testnet\": ") {
            Some(j) => j,
            None => {
                return Err(corrupt());
            },
        };
        let (tst, i8) = match parse_qstring(s, i7) {
            Some(p) => p,
            None => {
                return Err(corrupt());
            },
        };
        let i9 = match expect_lit(s, i8, ",\n    \"mainnet\": ") {
            Some(j) => j,
            None => {
                return Err(corrupt());
            },
        };
        let (mnn, i10) = match parse_qstring(s, i9) {
            Some(p) => p,
            None => {
                return Err(corrupt());
            },
        };
        let i11 = match expect_lit(
            s,
            i10,
            "\n  },\n  \"display_settings\": {\n    \"sol_precision\": ",
        ) {
            Some(j) => j,
            None => {
                return Err(corrupt());
            },
        };
        let (prec, i12) = match parse_number_u8(s, i11) {
            Some(p) => p,
            None => {
                return Err(corrupt());
            },
        };
        let i13 = match expect_lit(s, i12, ",\n    \"verbose_transactions\": ") {
            Some(j) => j,
            None => {
                return Err(corrupt());
            },
        };
        let (vt, i14): (bool, usize) = match expect_lit(s, i13, "true") {
            Some(j) => (true, j),
            None => match expect_lit(s, i13, "false") {
                Some(j) => (false, j),
                None => {
                    return Err(corrupt());
                },
            },
        };
        let i15 = match expect_lit(s, i14, "\n  }\n}") {
            Some(j) => j,
            None => {
                return Err(corrupt());
            },
        };
        if !rest_is_ws(s, i15) {
            return Err(corrupt());
        }
        Ok(
            WalletConfig {
                default_network: dn,
                keypair_dir: kd,
                rpc_endpoints: NetworkEndpoints { devnet: dev, testnet: tst, mainnet: mnn },
                display_settings: DisplaySettings {
                    sol_precision: prec,
                    verbose_transactions: vt,
                },
            },
        )
    }
}

/// A rendered boolean at the head of the remaining input is read back.
proof fn lemma_bool_at(s: Seq<char>, i: int, b: bool, rest: Seq<char>)
    requires
        0 <= i <= s.len(),
        s.skip(i) == bool_text(b) + rest,
    ensures
        i + bool_text(b).len() <= s.len(),
        spec_parse_bool(s, i) == Some((b, i + bool_text(b).len())),
        s.skip(i + bool_text(b).len()) == rest,
{
    if b {
        crate::text::lemma_expect_at(s, i, "true"@, rest);
    } else {
        crate::text::lemma_expect_at(s, i, "false"@, rest);
        reveal_strlit("true");
        reveal_strlit("false");
        assert(s[i] == s.skip(i)[0]);
        assert(("false"@ + rest)[0] == 'f');
        if spec_expect(s, i, "true"@) is Some {
            assert(s.subrange(i, i + "true"@.len())[0] == s[i]);
            assert(false);
        }
    }
}

/// Round trip: reading back a rendered configuration yields the same
/// configuration, whatever its strings hold; the escaper guarantees it.
#[verifier::rlimit(100)]
pub proof fn lemma_config_round_trip(cv: WalletConfigView)
    ensures
        spec_parse_config(config_text(cv)) == Some(cv),
{
    let s = config_text(cv);
    let q1 = quoted(cv.default_network);
    let q2 = quoted(cv.keypair_dir);
    let q3 = quoted(cv.rpc_endpoints.devnet);
    let q4 = quoted(cv.rpc_endpoints.testnet);
    let q5 = quoted(cv.rpc_endpoints.mainnet);
    let num = dec_digits(cv.display_settings.sol_precision as int);
    let bt = bool_text(cv.display_settings.verbose_transactions);
    let r15 = "\n  }\n}"@;
    let r14 = bt + r15;
    let r13 = ",\n    \"verbose_transactions\": "@ + r14;
    let r12 = num + r13;
    let r11 = "\n  },\n  \"display_settings\": {\n    \"sol_precision\": "@ + r12;
    let r10 = q5 + r11;
    let r9 = ",\n    \"mainnet\": "@ + r10;
    let r8 = q4 + r9;
    let r7 = ",\n    \"testnet\": "@ + r8;
    let r6 = q3 + r7;
    let r5 = ",\n  \"rpc_endpoints\": {\n    \"devnet\": "@ + r6;
    let r4 = q2 + r5;
    let r3 = ",\n  \"keypair_dir\": "@ + r4;
    let r2 = q1 + r3;
    assert(s.skip(0) =~= "{\n  \"default_network\": "@ + r2);
    crate::text::lemma_expect_at(s, 0, "{\n  \"default_network\": "@, r2);
    let i1 = 0 + "{\n  \"default_network\": "@.len() as int;
    crate::text::lemma_qstring_at(s, i1, cv.default_network, r3);
    let i2 = i1 + q1.len() as int;
    crate::text::lemma_expect_at(s, i2, ",\n  \"keypair_dir\": "@, r4);
    let i3 = i2 + ",\n  \"keypair_dir\": "@.len() as int;
    crate::text::lemma_qstring_at(s, i3, cv.keypair_dir, r5);
    let i4 = i3 + q2.len() as int;
    crate::text::lemma_expect_at(s, i4, ",\n  \"rpc_endpoints\": {\n    \"devnet\": "@, r6);
    let i5 = i4 + ",\n  \"rpc_endpoints\": {\n    \"devnet\": "@.len() as int;
    crate::text::lemma_qstring_at(s, i5, cv.rpc_endpoints.devnet, r7);
    let i6 = i5 + q3.len() as int;
    crate::text::lemma_expect_at(s, i6, ",\n    \"testnet\": "@, r8);
    let i7 = i6 + ",\n    \"testnet\": "@.len() as int;
    crate::text::lemma_qstring_at(s, i7, cv.rpc_endpoints.testnet, r9);
    let i8 = i7 + q4.len() as int;
    crate::text::lemma_expect_at(s, i8, ",\n    \"mainnet\": "@, r10);
    let i9 = i8 + ",\n    \"mainnet\": "@.len() as int;
    crate::text::lemma_qstring_at(s, i9, cv.rpc_endpoints.mainnet, r11);
    let i10 = i9 + q5.len() as int;
    crate::text::lemma_expect_at(
        s,
        i10,
        "\n  },\n  \"display_settings\": {\n    \"sol_precision\": "@,
        r12,
    );
    let i11 = i10 + "\n  },\n  \"display_settings\": {\n    \"sol_precision\": "@.len() as int;
    reveal_strlit(",\n    \"verbose_transactions\": ");
    assert(r13[0] == ',');
    crate::text::lemma_number_at(s, i11, cv.display_settings.sol_precision as int, r13);
    let i12 = i11 + num.len() as int;
    crate::text::lemma_expect_at(s, i12, ",\n    \"verbose_transactions\": "@, r14);
    let i13 = i12 + ",\n    \"verbose_transactions\": "@.len() as int;
    lemma_bool_at(s, i13, cv.display_settings.verbose_transactions, r15);
    let i14 = i13 + bt.len() as int;
    assert(r15 =~= "\n  }\n}"@ + Seq::<char>::empty());
    crate::text::lemma_expect_at(s, i14, "\n  }\n}"@, Seq::<char>::empty());
    let i15 = i14 + "\n  }\n}"@.len() as int;
    assert(s.skip(i15).len() == 0);
    assert(all_ws_from(s, i15));
}

/// Soundness of the reader: a document is accepted only when it is
/// exactly the rendering of the configuration it yields, followed by
/// nothing but whitespace. Together with the round trip this makes
/// rendering and reading mutually inverse.
#[verifier::rlimit(100)]
pub proof fn lemma_config_parse_sound(s: Seq<char>)
    requires
        spec_parse_config(s) is Some,
    ensures
        match spec_parse_config(s) {
            Some(cv) => exists|k: int|
                0 <= k <= s.len() && s.subrange(0, k) == config_text(cv) && all_ws_from(s, k),
            None => true,
        },
{
    let cv = spec_parse_config(s).unwrap();
    let l0 = "{\n  \"default_network\": "@;
    let l1 = ",\n  \"keypair_dir\": "@;
    let l2 = ",\n  \"rpc_endpoints\": {\n    \"devnet\": "@;
    let l3 = ",\n    \"testnet\": "@;
    let l4 = ",\n    \"mainnet\": "@;
    let l5 = "\n  },\n  \"display_settings\": {\n    \"sol_precision\": "@;
    let l6 = ",\n    \"verbose_transactions\": "@;
    let l7 = "\n  }\n}"@;
    let i1 = spec_expect(s, 0, l0).unwrap();
    let (dn, i2) = spec_parse_qstring(s, i1).unwrap();
    let i3 = spec_expect(s, i2, l1).unwrap();
    let (kd, i4) = spec_parse_qstring(s, i3).unwrap();
    let i5 = spec_expect(s, i4, l2).unwrap();
    let (dev, i6) = spec_parse_qstring(s, i5).unwrap();
    let i7 = spec_expect(s, i6, l3).unwrap();
    let (tst, i8) = spec_parse_qstring(s, i7).unwrap();
    let i9 = spec_expect(s, i8, l4).unwrap();
    let (mnn, i10) = spec_parse_qstring(s, i9).unwrap();
    let i11 = spec_expect(s, i10, l5).unwrap();
    let (n, i12) = spec_parse_number(s, i11).unwrap();
    let i13 = spec_expect(s, i12, l6).unwrap();
    let (vt, i14) = spec_parse_bool(s, i13).unwrap();
    let i15 = spec_expect(s, i14, l7).unwrap();
    crate::text::lemma_qstring_sound(s, i1);
    crate::text::lemma_qstring_sound(s, i3);
    crate::text::lemma_qstring_sound(s, i5);
    crate::text::lemma_qstring_sound(s, i7);
    crate::text::lemma_qstring_sound(s, i9);
    crate::text::lemma_parse_number_sound(s, i11);
    assert(s.subrange(i13, i14) == bool_text(vt));
    crate::text::lemma_subrange_split(s, 0, i1, i2);
    crate::text::lemma_subrange_split(s, 0, i2, i3);
    crate::text::lemma_subrange_split(s, 0, i3, i4);
    crate::text::lemma_subrange_split(s, 0, i4, i5);
    crate::text::lemma_subrange_split(s, 0, i5, i6);
    crate::text::lemma_subrange_split(s, 0, i6, i7);
    crate::text::lemma_subrange_split(s, 0, i7, i8);
    crate::text::lemma_subrange_split(s, 0, i8, i9);
    crate::text::lemma_subrange_split(s, 0, i9, i10);
    crate::text::lemma_subrange_split(s, 0, i10, i11);
    crate::text::lemma_subrange_split(s, 0, i11, i12);
    crate::text::lemma_subrange_split(s, 0, i12, i13);
    crate::text::lemma_subrange_split(s, 0, i13, i14);
    crate::text::lemma_subrange_split(s, 0, i14, i15);
    assert(cv.display_settings.sol_precision as int == n);
    assert(dec_digits(cv.display_settings.sol_precision as int) == dec_digits(n));
    assert(s.subrange(0, i15) == config_text(cv));
    assert(0 <= i15 <= s.len() && s.subrange(0, i15) == config_text(cv) && all_ws_from(s, i15));
}

/// The endpoint resolved for a network name: a recognized name gets
/// its own endpoint; any other name falls back to devnet.
pub open spec fn spec_rpc_endpoint(c: WalletConfigView, network: Seq<char>) -> Seq<char> {
    if network == "devnet"@ {
        c.rpc_endpoints.devnet
    } else if network == "testnet"@ {
        c.rpc_endpoints.testnet
    } else if network == "mainnet"@ {
        c.rpc_endpoints.mainnet
    } else {
        c.rpc_endpoints.devnet
    }
}

/// An unrecognized network name resolves exactly as devnet does; the
/// permissive fallback never fails.
pub proof fn lemma_unknown_network_uses_devnet(c: WalletConfigView, network: Seq<char>)
    requires
        network != "testnet"@,
        network != "mainnet"@,
    ensures
        spec_rpc_endpoint(c, network) == spec_rpc_endpoint(c, "devnet"@),
{
}

impl WalletConfig {
    /// The RPC endpoint for the named network; unrecognized names
    /// resolve to the devnet endpoint rather than failing.
    pub fn get_rpc_endpoints(&self, network: &str) -> (r: &str)
        ensures
            r@ == spec_rpc_endpoint(self@, network@),
    {
        if str_eq(network, "devnet") {
            self.rpc_endpoints.devnet.as_str()
        } else if str_eq(network, "testnet") {
            self.rpc_endpoints.testnet.as_str()
        } else if str_eq(network, "mainnet") {
            self.rpc_endpoints.mainnet.as_str()
        } else {
            self.rpc_endpoints.devnet.as_str()
        }
    }

    /// The per-user configuration directory, under the platform's home
    /// directory.
    pub fn config_dir() -> (r: Result<String, WalletError>)
        ensures
            match r {
                Ok(d) => exists|h: Seq<char>| d@ == path_joined(h, ".solana-wallet"@),
                Err(e) => e matches WalletError::HomeDirectoryNotFound,
            },
    {
        match host::home_dir_path() {
            Some(h) => {
                let d = path_join(h.as_str(), ".solana-wallet");
                proof {
                    assert(d@ == path_joined(h@, ".solana-wallet"@));
                }
                Ok(d)
            },
            None => Err(WalletError::HomeDirectoryNotFound),
        }
    }

    /// Where the configuration document itself lives.
    pub fn config_file_path() -> (r: Result<String, WalletError>)
        ensures
            match r {
                Ok(p) => exists|d: Seq<char>| p@ == path_joined(d, "config.json"@),
                Err(e) => e matches WalletError::HomeDirectoryNotFound,
            },
    {
        match Self::config_dir() {
            Ok(d) => {
                let p = path_join(d.as_str(), "config.json");
                proof {
                    assert(p@ == path_joined(d@, "config.json"@));
                }
                Ok(p)
            },
            Err(e) => Err(e),
        }
    }

    /// The default keypair storage directory: `keypairs` under the
    /// configuration directory, or under `.` when no home is known.
    pub fn default_keypair_dir() -> (r: String)
        ensures
            is_default_keypair_dir(r@),
    {
        let base = match Self::config_dir() {
            Ok(d) => d,
            Err(_) => String::from_str("."),
        };
        let r = path_join(base.as_str(), "keypairs");
        proof {
            assert(r@ == path_joined(base@, "keypairs"@));
        }
        r
    }

    /// Interprets what was found at the configuration path: a document
    /// is parsed (corruption surfaces as an error), an absent file
    /// yields the default configuration together with the instruction
    /// to persist it immediately.
    pub fn load_or_default(existing: Option<&str>) -> (r: Result<(WalletConfig, bool), WalletError>)
        ensures
            match existing {
                Some(t) => match r {
                    Ok((c, persist)) => spec_parse_config(t@) == Some(c@) && !persist,
                    Err(e) => spec_parse_config(t@) is None && e matches WalletError::ConfigCorrupt(
                        _,
                    ),
                },
                None => match r {
                    Ok((c, persist)) => persist && is_default_config(c@),
                    Err(e) => false,
                },
            },
    {
        match existing {
            Some(text) => match Self::from_json(text) {
                Ok(c) => Ok((c, false)),
                Err(e) => Err(e),
            },
            None => Ok((WalletConfig::default(), true)),
        }
    }
}

/// The default keypair directory's shape: `keypairs` under some
/// home's `.solana-wallet` directory, or under `.` where the platform
/// supplies no home. Only the home segment is left open, since the
/// home directory is the platform's answer and rightly has no name.
pub open spec fn is_default_keypair_dir(d: Seq<char>) -> bool {
    ||| exists|h: Seq<char>| d == path_joined(path_joined(h, ".solana-wallet"@), "keypairs"@)
    ||| d == path_joined("."@, "keypairs"@)
}

/// The fixed parts of the default configuration, the only document new
/// users see. The keypair directory is not fixed: it hangs off the
/// machine's home directory.
pub open spec fn is_default_config(c: WalletConfigView) -> bool {
    &&& c.default_network == "devnet"@
    &&& c.rpc_endpoints.devnet == "https://api.devnet.solana.com"@
    &&& c.rpc_endpoints.testnet == "https://api.testnet.solana.com"@
    &&& c.rpc_endpoints.mainnet == "https://api.mainnet-beta.solana.com"@
    &&& c.display_settings.sol_precision == 9
    &&& c.display_settings.verbose_transactions == false
    &&& is_default_keypair_dir(c.keypair_dir)
}

impl Default for WalletConfig {
    /// The configuration a fresh installation starts from.
    fn default() -> (r: Self)
        ensures
            is_default_config(r@),
    {
        let r = WalletConfig {
            default_network: String::from_str("devnet"),
            keypair_dir: WalletConfig::default_keypair_dir(),
            rpc_endpoints: NetworkEndpoints {
                devnet: String::from_str("https://api.devnet.solana.com"),
                testnet: String::from_str("https://api.testnet.solana.com"),
                mainnet: String::from_str("https://api.mainnet-beta.solana.com"),
            },
            display_settings: DisplaySettings { sol_precision: 9, verbose_transactions: false },
        };
        r
    }
}

fn corrupt() -> (r: WalletError)
    ensures
        r matches WalletError::ConfigCorrupt(_),
{
    WalletError::ConfigCorrupt(String::from_str("configuration file is not a valid wallet configuration document"))
}

} // verus!
