use hl_orderbook::clearing_house::rmp_streaming::raw_debug::extract_raw_debug_users_from_rmp;
use hl_orderbook::clearing_house::rmp_streaming::referrals::{
    dump_locus_ftr_keys, extract_builder_approval_users, extract_referrer_users_by_code, probe_book_structure,
    KeyLine,
};
use hl_orderbook::clearing_house::rmp_streaming::root::load_from_rmp;
use hl_orderbook::clearing_house::{AccountMode, Leverage};
use hl_orderbook::msgpack::{MsgpackError, Reader};
use hl_orderbook::strmap::StrMap;

enum V {
    Dict(Vec<(&'static str, V)>),
    List(Vec<V>),
    Text(String),
    Int(i64),
    Double(f64),
    Nil,
}

fn text(s: &str) -> V {
    V::Text(s.to_string())
}

fn write(v: &V, out: &mut Vec<u8>) {
    match v {
        V::Dict(es) => {
            rmp::encode::write_map_len(out, es.len() as u32).unwrap();
            for (k, x) in es {
                rmp::encode::write_str(out, k).unwrap();
                write(x, out);
            }
        }
        V::List(xs) => {
            rmp::encode::write_array_len(out, xs.len() as u32).unwrap();
            for x in xs {
                write(x, out);
            }
        }
        V::Text(s) => rmp::encode::write_str(out, s).unwrap(),
        V::Int(n) => {
            rmp::encode::write_sint(out, *n).unwrap();
        }
        V::Double(x) => rmp::encode::write_f64(out, *x).unwrap(),
        V::Nil => rmp::encode::write_nil(out).unwrap(),
    }
}

fn bytes(v: &V) -> Vec<u8> {
    let mut out = Vec::new();
    write(v, &mut out);
    out
}

const BUILDER: &str = "0x74c362cd3a141769f38c48d66ee51b1938ea4bd0";

fn snapshot() -> Vec<u8> {
    let asset = |name: &str| {
        V::Dict(vec![
            ("name", text(name)),
            ("szDecimals", V::Int(2)),
            ("marginTableId", V::Int(50)),
        ])
    };
    let position = V::Dict(vec![
        ("s", V::Int(-300)),
        ("e", V::Int(1_000_000)),
        ("l", V::Dict(vec![("I", V::Dict(vec![("l", V::Int(5)), ("u", V::Int(77))]))])),
        ("f", V::Dict(vec![("a", V::Int(1)), ("o", V::Int(9))])),
        ("M", V::Int(50)),
    ]);
    let user = |balance: i64, ps: Vec<V>| {
        V::Dict(vec![("u", V::Int(balance)), ("p", V::Dict(vec![("p", V::List(ps))]))])
    };
    let dex = V::Dict(vec![
        (
            "meta",
            V::Dict(vec![
                ("universe", V::List(vec![asset("BTC"), asset("ETH")])),
                (
                    "marginTableIdToMarginTable",
                    V::List(vec![V::List(vec![
                        V::Int(50),
                        V::Dict(vec![(
                            "margin_tiers",
                            V::List(vec![V::Dict(vec![
                                ("lower_bound", V::Int(0)),
                                ("max_leverage", V::Int(50)),
                                ("maintenance_deduction", V::Int(0)),
                            ])]),
                        )]),
                    ])]),
                ),
                ("collateralToken", V::Int(0)),
            ]),
        ),
        (
            "oracle",
            V::Dict(vec![(
                "pxs",
                V::List(vec![
                    V::List(vec![V::Dict(vec![("px", V::Int(500_000))])]),
                    V::List(vec![]),
                ]),
            )]),
        ),
        (
            "user_states",
            V::Dict(vec![
                ("users_with_positions", V::List(vec![text("0xa")])),
                (
                    "user_to_state",
                    V::List(vec![
                        V::List(vec![text("0xa"), user(1_234, vec![V::List(vec![V::Int(1), position])])]),
                        V::List(vec![text("0xb"), user(55, vec![])]),
                    ]),
                ),
            ]),
        ),
    ]);
    let ftr = V::Dict(vec![
        (
            "referrer_states",
            V::List(vec![V::List(vec![
                text("0xOwner"),
                V::Dict(vec![
                    ("c", text("CODE")),
                    ("s", V::List(vec![V::List(vec![text("0xRef"), V::Nil])])),
                ]),
            ])]),
        ),
        (
            "user_states",
            V::List(vec![
                V::List(vec![
                    text("0xApp"),
                    V::Dict(vec![("m", V::List(vec![V::List(vec![text(BUILDER), V::Int(1)])]))]),
                ]),
                V::List(vec![text("0xNo"), V::Dict(vec![("m", V::List(vec![]))])]),
            ]),
        ),
    ]);
    bytes(&V::Dict(vec![
        ("other", V::List(vec![V::Double(1.5), V::Nil])),
        (
            "exchange",
            V::Dict(vec![(
                "locus",
                V::Dict(vec![
                    ("cls", V::List(vec![dex])),
                    (
                        "ust",
                        V::List(vec![
                            V::List(vec![text("0xa"), V::Dict(vec![("a", text("u"))])]),
                            V::List(vec![text("0xc"), V::Dict(vec![("a", text("p"))])]),
                        ]),
                    ),
                    (
                        "scl",
                        V::Dict(vec![(
                            "user_states",
                            V::List(vec![V::List(vec![
                                text("0xa"),
                                V::Dict(vec![(
                                    "b",
                                    V::List(vec![V::List(vec![V::Int(0), V::Dict(vec![("t", V::Int(900))])])]),
                                )]),
                            ])]),
                        )]),
                    ),
                    ("ftr", ftr),
                ]),
            )]),
        ),
    ]))
}

#[test]
fn snapshots_are_loaded() {
    let state = load_from_rmp(&snapshot()).ok().expect("a whole snapshot");
    assert!(state.has_valid_coins());
    assert_eq!(state.dex_states.len(), 1);
    let d = &state.dex_states[0];
    assert_eq!(d.universe.iter().map(|a| a.name.as_str()).collect::<Vec<_>>(), vec!["BTC", "ETH"]);
    assert_eq!(d.oracle_prices, vec![500_000, 0]);
    assert_eq!(d.margin_tables.get(50).unwrap()[0].max_leverage, 50);
    let a = d.users.get("0xa").unwrap();
    assert_eq!((a.usdc_balance, a.spot_collateral, a.account_mode), (1_234, 900, AccountMode::Unified));
    let p = a.positions.get(1).unwrap();
    assert_eq!((p.szi, p.cost_basis, p.outstanding_funding), (-300, 1_000_000, 9));
    assert_eq!(p.leverage, Leverage::Isolated { leverage: 5, raw_usd: 77 });
    assert_eq!(d.users_without_positions.get("0xb").unwrap().usdc_balance, 55);
    assert_eq!(d.users_without_positions.get("0xc").unwrap().account_mode, AccountMode::PortfolioMargin);
    assert!(state.portfolio_margin_users.contains_key("0xc"));
    assert_eq!(state.coin_to_dex_asset.get("ETH"), Some(&(0, 1)));
    assert_eq!(state.coin_to_dex_asset.get("BTC"), Some(&(0, 0)));
    assert_eq!(state.coin_to_dex_asset.len(), 2);
    let marks = state.initial_marks();
    assert!(marks.iter().any(|m| (m.dex, m.asset, m.raw, m.sz_decimals) == (0, 0, 500_000, 2)));
}

/// A snapshot that ends with the balance of its only user, or with a leverage in the order books.
fn ending(balance: Option<i64>) -> Vec<u8> {
    let user = V::Dict(vec![("u", V::Int(balance.unwrap_or(70_000)))]);
    let dex = V::Dict(vec![
        (
            "meta",
            V::Dict(vec![(
                "universe",
                V::List(vec![V::Dict(vec![("name", text("BTC")), ("szDecimals", V::Int(2))])]),
            )]),
        ),
        (
            "user_states",
            V::Dict(vec![
                ("users_with_positions", V::List(vec![text("0xa")])),
                ("user_to_state", V::List(vec![V::List(vec![text("0xb"), user])])),
            ]),
        ),
    ]);
    let mut exchange = vec![("locus", V::Dict(vec![("cls", V::List(vec![dex]))]))];
    if balance.is_none() {
        let asset = V::List(vec![V::Int(0), V::Dict(vec![("l", V::Int(70_000))])]);
        let settings = V::Dict(vec![("a", V::List(vec![asset]))]);
        let book = V::Dict(vec![("user_states", V::List(vec![V::List(vec![text("0xb"), settings])]))]);
        exchange.push(("perp_dexs", V::List(vec![V::Dict(vec![("books", V::List(vec![book]))])])));
    }
    bytes(&V::Dict(vec![("exchange", V::Dict(exchange))]))
}

#[test]
fn numbers_that_are_cut_off_count_as_absent() {
    let balance = |data: &[u8]| {
        let state = load_from_rmp(data).ok()?;
        Some(state.dex_states[0].users_without_positions.get("0xb")?.usdc_balance)
    };
    let whole = ending(Some(70_000));
    assert_eq!(balance(&whole), Some(70_000));
    for cut in 1..=5 {
        assert_eq!(balance(&whole[..whole.len() - cut]), Some(0));
    }
    assert_eq!(balance(&whole[..whole.len() - 6]), None);
    let whole = ending(None);
    assert_eq!(balance(&whole), Some(70_000));
    for cut in 1..=5 {
        assert_eq!(balance(&whole[..whole.len() - cut]), Some(70_000));
    }
    assert_eq!(balance(&whole[..whole.len() - 6]), None);
}

#[test]
fn cut_snapshots_are_refused() {
    let whole = snapshot();
    for n in [0, 1, 20, whole.len() / 2, whole.len() - 400] {
        assert!(load_from_rmp(&whole[..n]).is_err());
    }
    assert!(load_from_rmp(&bytes(&V::Dict(vec![("x", V::Nil)]))).is_err());
    assert!(load_from_rmp(&bytes(&V::Int(3))).is_err());
}

#[test]
fn referred_users_are_found_by_code() {
    let (owner, users) = extract_referrer_users_by_code(&snapshot(), "code").ok().unwrap();
    assert_eq!(owner, Some("0xowner".to_string()));
    assert!(users.contains_key("0xref"));
    let (nobody, none) = extract_referrer_users_by_code(&snapshot(), "nope").ok().unwrap();
    assert_eq!(nobody, None);
    assert!(none.is_empty());
}

#[test]
fn approving_users_are_found() {
    let users = extract_builder_approval_users(&snapshot(), &BUILDER.to_uppercase().replace("0X", "0x")).ok().unwrap();
    assert_eq!(users.len(), 1);
    assert!(users.contains_key("0xapp"));
}

#[test]
fn structures_are_listed() {
    let (lines, whole) = dump_locus_ftr_keys(&snapshot());
    assert!(whole);
    let shown: Vec<String> = lines
        .iter()
        .map(|line| match line {
            KeyLine::Locus(key) => format!("locus {key}"),
            KeyLine::Ftr(key) => format!("ftr {key}"),
            KeyLine::Approvers { approvers, users } => format!("{approvers} of {users}"),
        })
        .collect();
    assert_eq!(
        shown,
        vec!["locus cls", "locus ust", "locus scl", "locus ftr", "ftr referrer_states", "ftr user_states", "1 of 2"]
    );
    let (empty, whole) = dump_locus_ftr_keys(&[]);
    assert!(empty.is_empty() && !whole);
    let (n, keys, whole) = probe_book_structure(&snapshot()).unwrap();
    assert_eq!((n, whole), (2, true));
    assert_eq!(keys, vec![("other".to_string(), 0x92), ("exchange".to_string(), 0x81)]);
    assert!(probe_book_structure(&[]).is_none());
}

#[test]
fn raw_data_of_users_is_shown() {
    let mut users: StrMap<()> = StrMap::new();
    users.insert("0xa".to_string(), ());
    let out = extract_raw_debug_users_from_rmp(&snapshot(), &users).ok().unwrap();
    assert!(out.contains("0xa"));
    assert!(!out.contains("0xOwner"));
}

#[test]
fn the_reader_steps_over_values() {
    let data = bytes(&V::List(vec![
        V::Dict(vec![("a", V::Double(1.0)), ("b", text("x"))]),
        V::Int(-5),
        text("end"),
    ]));
    let mut r = Reader::new(&data);
    assert_eq!(r.read_array_len().ok(), Some(3));
    assert!(r.skip_value().is_ok());
    assert_eq!(r.read_int().ok(), Some(-5));
    assert_eq!(r.read_str().ok(), Some("end".to_string()));
    assert_eq!(r.peek_marker(), None);
    assert!(matches!(r.read_int(), Err(MsgpackError::CutShort)));
}

#[test]
fn the_reader_finds_keys() {
    let data = bytes(&V::Dict(vec![("a", V::Int(1)), ("b", V::Int(2))]));
    let mut r = Reader::new(&data);
    assert!(r.map_seek("b").is_ok());
    assert_eq!(r.read_int().ok(), Some(2));
    let mut r = Reader::new(&data);
    assert!(matches!(r.map_seek("c"), Err(MsgpackError::KeyNotFound)));
    let mut r = Reader::new(&data);
    assert!(matches!(r.read_array_len(), Err(MsgpackError::Mismatch)));
}

#[test]
fn fractions_are_read_in_every_width() {
    let data = bytes(&V::Double(0.25));
    let mut r = Reader::new(&data);
    assert!(r.read_float().ok().unwrap().is_positive());
    let data = bytes(&V::Double(-0.25));
    let mut r = Reader::new(&data);
    assert!(!r.read_float().ok().unwrap().is_positive());
}
