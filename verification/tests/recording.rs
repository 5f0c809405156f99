//! What is recorded, when, and under which names.
use amm_replay::codec::AddressError;
use amm_replay::reader::{parse_state_batch, StoredRow};
use amm_replay::recorder::buffers::{state_file, suffix_of, SessionWriter, StateRow};
use amm_replay::recorder::config::{
    read_config, session_config, ConfigError, LoadedConfig, PoolConfig, PythFeedConfig, RawPoolConfig,
};
use amm_replay::recorder::duration::{parse_duration, DurationError};
use amm_replay::recorder::metadata::{data_dir_name, session_pools};
use amm_replay::recorder::prices::{
    prices_file, read_price, read_price_text, subscribe_ids, FeedPart, PriceAction, PriceEvent, PriceMessage, PricePart,
    PriceStream,
};
use amm_replay::recorder::stream::{on_stream_event, AccountMessage, Backoff, StreamAction, StreamEvent};
use amm_replay::recorder::watch::{address_of, should_stop, AccountUpdate, Recorder};

const WSOL: &str = "So11111111111111111111111111111111111111112";
const USDC: &str = "EPjFWdd5AufqSSqeM2qN1xzybapC8G4wEGGkZwyTDt1v";
const SYSTEM: &str = "11111111111111111111111111111111";

#[test]
fn durations_add_up() {
    assert!(matches!(parse_duration("1h30m"), Some(Ok(5400))));
    assert!(matches!(parse_duration("90"), Some(Ok(90))));
    assert!(matches!(parse_duration("2H5M7S"), Some(Ok(7507))));
    assert!(matches!(parse_duration("1s1s"), Some(Ok(2))));
}

#[test]
fn durations_that_are_none() {
    let message = |s: &str| match parse_duration(s) {
        Some(Err(e)) => e.message(),
        _ => panic!("{s} is a duration"),
    };
    assert_eq!(message("h"), "invalid number in duration: ");
    assert_eq!(message("99999999999999999999s"), "invalid number in duration: 99999999999999999999");
    assert_eq!(message("5d"), "invalid duration unit: d");
    assert_eq!(message(""), "duration must be greater than 0");
    assert_eq!(message("0h0"), "duration must be greater than 0");
    assert!(matches!(parse_duration("5x"), Some(Err(DurationError::InvalidUnit('x')))));
    assert!(matches!(parse_duration("0"), Some(Err(DurationError::Zero))));
    assert!(parse_duration("18446744073709551615h").is_none());
    assert!(parse_duration("18446744073709551615s1s").is_none());
}

fn raw(pool_type: &str, id: Option<&str>) -> RawPoolConfig {
    RawPoolConfig {
        pool_type: pool_type.to_string(),
        id: id.map(str::to_string),
        feed_id: None,
        symbol: None,
        accounts: None,
    }
}

fn accounts(pairs: &[(&str, &str)]) -> Option<Vec<(String, String)>> {
    Some(pairs.iter().map(|(a, b)| (a.to_string(), b.to_string())).collect())
}

fn pool_config(symbol: &str, id: &str, pairs: &[(&str, &str)]) -> PoolConfig {
    let mut config = raw("alphaq", Some(id));
    config.symbol = Some(symbol.to_string());
    config.accounts = accounts(pairs);
    match read_config(config, "stem") {
        Ok(LoadedConfig::Pool(p)) => p,
        _ => panic!("the pool is refused"),
    }
}

#[test]
fn pools_are_read_with_their_accounts() {
    let mut config = raw("bisonfi", Some(WSOL));
    config.accounts = accounts(&[("base_vault", USDC), ("pool", "not read"), ("oracle", SYSTEM)]);
    let pool = match read_config(config, "sol_usdc") {
        Ok(LoadedConfig::Pool(p)) => p,
        _ => panic!("the pool is refused"),
    };
    assert_eq!((pool.amm_type.as_str(), pool.symbol.as_str()), ("bisonfi", "sol_usdc"));
    let roles: Vec<&str> = pool.accounts.iter().map(|a| a.role.as_str()).collect();
    assert_eq!(roles, vec!["pool", "base_vault", "oracle"]);
    assert_eq!(pool.accounts[0].pubkey, pool.pool_id);
    assert_eq!(pool.pool_id[..4], [6, 155, 136, 87]);
    assert_eq!(pool.accounts[2].pubkey, [0u8; 32]);
}

#[test]
fn feeds_are_read_by_either_name() {
    let feed = |config: RawPoolConfig| match read_config(config, "stem") {
        Ok(LoadedConfig::Pyth(f)) => (f.feed_id, f.symbol),
        _ => panic!("the feed is refused"),
    };
    assert_eq!(feed(raw("pyth", Some("0xab"))), ("0xab".to_string(), String::new()));
    let mut config = raw("pyth", Some("0xab"));
    config.feed_id = Some("0xcd".to_string());
    config.symbol = Some("SOL/USD".to_string());
    assert_eq!(feed(config), ("0xcd".to_string(), "SOL/USD".to_string()));
}

#[test]
fn configs_that_are_refused() {
    let error = |config: RawPoolConfig| match read_config(config, "stem") {
        Err(e) => e,
        Ok(_) => panic!("the config is accepted"),
    };
    let e = error(raw("pyth", None));
    assert!(matches!(e, ConfigError::MissingFeedId));
    assert_eq!(e.message(), "missing feed_id");
    let e = error(raw("alphaq", None));
    assert!(matches!(e, ConfigError::MissingId));
    assert_eq!(e.message(), "missing id");
    let e = error(raw("alphaq", Some("0OIl")));
    assert!(matches!(e, ConfigError::InvalidPoolId(AddressError::Invalid)));
    assert_eq!(e.message(), "invalid pool id");
    let e = error(raw("alphaq", Some("abc")));
    assert!(matches!(e, ConfigError::InvalidPoolId(AddressError::WrongSize)));
    let mut config = raw("alphaq", Some(WSOL));
    config.accounts = accounts(&[("oracle", "abc")]);
    let e = error(config);
    assert!(matches!(&e, ConfigError::InvalidPubkey { error: AddressError::WrongSize, .. }));
    assert_eq!(e.message(), "invalid pubkey for role oracle");
}

#[test]
fn pools_have_directories() {
    assert_eq!(data_dir_name("SOL/USDC", "0123456789abcdef").as_deref(), Some("SOL-USDC_01234567"));
    assert_eq!(data_dir_name("", "0123456789abcdef").as_deref(), Some("0123456789ab"));
    assert_eq!(data_dir_name("", "0123"), None);
    let pools = session_pools(&vec![pool_config("SOL/USDC", WSOL, &[]), pool_config("", USDC, &[])]).unwrap();
    assert_eq!(pools[0].pool_id, WSOL);
    assert_eq!(pools[0].data_dir, "SOL-USDC_So111111");
    assert_eq!((pools[1].data_dir.as_str(), pools[1].symbol.as_str()), ("EPjFWdd5Aufq", ""));
    assert_eq!(pools[1].amm_type, "alphaq");
}

fn state_row(slot: u64) -> StateRow {
    StateRow {
        timestamp_ms: 1,
        slot,
        write_version: 0,
        txn_signature: String::new(),
        pool_id: "a".to_string(),
        account_pubkey: String::new(),
        account_role: String::new(),
        account_data_b64: String::new(),
        is_heartbeat: false,
    }
}

#[test]
fn rows_wait_for_a_flush() {
    let mut writer = SessionWriter::new(&vec!["a".to_string(), "b".to_string(), "c".to_string()]);
    writer.push("b", state_row(1));
    writer.push("a", state_row(2));
    writer.push("b", state_row(3));
    writer.push("unknown", state_row(4));
    assert!(writer.maybe_flush(299).is_none());
    let flush = writer.maybe_flush(300).unwrap();
    assert_eq!(flush.suffix, "_0001");
    let batches: Vec<(&str, Vec<u64>)> = flush
        .batches
        .iter()
        .map(|b| (b.pool_id.as_str(), b.rows.iter().map(|r| r.slot).collect()))
        .collect();
    assert_eq!(batches, vec![("a", vec![2]), ("b", vec![1, 3])]);
    assert!(writer.maybe_flush(300).unwrap().batches.is_empty());
    writer.push("c", state_row(5));
    let last = writer.finish_all();
    assert_eq!(last.suffix, "_0003");
    assert_eq!((last.batches.len(), last.batches[0].rows[0].slot), (1, 5));
    assert_eq!(state_file(&last.suffix), "state_0003.parquet");
}

#[test]
fn a_short_session_has_one_file() {
    let mut writer = SessionWriter::new(&vec!["a".to_string()]);
    writer.push("a", state_row(1));
    let flush = writer.finish_all();
    assert_eq!(state_file(&flush.suffix), "state.parquet");
    assert_eq!(suffix_of(12345), "_12345");
}

fn update(pubkey: [u8; 32], data: &[u8], signature: Option<&[u8]>) -> AccountUpdate {
    AccountUpdate {
        pubkey,
        data: data.to_vec(),
        slot: 77,
        write_version: 5,
        txn_signature: signature.map(|s| s.to_vec()),
    }
}

fn recorder() -> Recorder {
    let configs = vec![
        pool_config("A", WSOL, &[("base_vault", SYSTEM)]),
        pool_config("B", USDC, &[("base_vault", SYSTEM)]),
    ];
    Recorder::new(&configs, SessionWriter::new(&vec![WSOL.to_string(), USDC.to_string()]))
}

#[test]
fn accounts_are_watched_once() {
    let keys = recorder().all_pubkeys();
    assert_eq!(keys.len(), 3);
    assert!(keys[0] < keys[1] && keys[1] < keys[2]);
    // The last pool to name an account owns it.
    let r = recorder();
    assert_eq!((r.accounts[0].pool_id.as_str(), r.accounts[0].role.as_str()), (USDC, "base_vault"));
}

#[test]
fn what_is_recorded_is_read_back() {
    let mut r = recorder();
    let data = [0u8, 255, 17, 4];
    assert!(r.record(update([0; 32], &data, Some(&[0, 1, 2])), 1234));
    assert!(!r.record(update([9; 32], &data, None), 1235));
    assert_eq!(r.update_count, 1);
    let rows = &r.writer.buffers[1].rows;
    assert_eq!(rows.len(), 1);
    assert_eq!((rows[0].timestamp_ms, rows[0].slot, rows[0].write_version), (1234, 77, 5));
    assert_eq!(rows[0].txn_signature, "15T");
    assert_eq!(rows[0].account_data_b64, "AP8RBA==");
    assert_eq!(rows[0].account_pubkey, SYSTEM);
    assert_eq!((rows[0].pool_id.as_str(), rows[0].account_role.as_str()), (USDC, "base_vault"));
    assert!(!rows[0].is_heartbeat);

    let stored = StoredRow {
        timestamp_ms: rows[0].timestamp_ms,
        slot: rows[0].slot,
        write_version: rows[0].write_version,
        txn_signature: rows[0].txn_signature.clone(),
        account_role: rows[0].account_role.clone(),
        account_data_b64: rows[0].account_data_b64.clone(),
    };
    let mut read = vec![];
    assert!(parse_state_batch(vec![stored], &mut read).is_ok());
    assert_eq!(read[0].account_data, data);
}

#[test]
fn heartbeats_repeat_what_is_known() {
    let mut r = recorder();
    assert!(!r.maybe_heartbeat(29, 1));
    assert!(r.maybe_heartbeat(30, 1));
    assert!(r.writer.buffers.iter().all(|b| b.rows.is_empty()));
    assert!(r.set_data(&[0; 32], vec![1]));
    assert!(!r.set_data(&[9; 32], vec![1]));
    assert!(r.record(update([0; 32], &[2, 3], None), 10));
    assert!(r.maybe_heartbeat(31, 99));
    let rows = &r.writer.buffers[1].rows;
    assert_eq!(rows.len(), 2);
    assert_eq!(rows[0].txn_signature, "");
    let hb = &rows[1];
    assert_eq!((hb.timestamp_ms, hb.slot, hb.write_version, hb.is_heartbeat), (99, 0, 0, true));
    assert_eq!((hb.account_data_b64.as_str(), hb.txn_signature.as_str()), ("AgM=", ""));
    assert!(r.writer.buffers[0].rows.is_empty());
}

#[test]
fn a_recording_ends() {
    assert!(should_stop(true, 0, None));
    assert!(!should_stop(false, 1_000_000, None));
    assert!(!should_stop(false, 59, Some(60)));
    assert!(should_stop(false, 60, Some(60)));
    assert_eq!(address_of(&[7; 32]), Some([7; 32]));
    assert_eq!(address_of(&[7; 31]), None);
}

#[test]
fn waits_double_up_to_a_minute() {
    let mut b = Backoff::new();
    let waits: Vec<u64> = (0..9).map(|_| b.wait()).collect();
    assert_eq!(waits, vec![1, 2, 4, 8, 16, 32, 60, 60, 60]);
}

#[test]
fn a_subscription_follows_its_events() {
    let mut b = Backoff::new();
    assert!(matches!(on_stream_event(&mut b, StreamEvent::ConnectFailed), StreamAction::Reconnect { after_secs: 1 }));
    assert!(matches!(on_stream_event(&mut b, StreamEvent::ConnectFailed), StreamAction::Reconnect { after_secs: 2 }));
    assert!(matches!(on_stream_event(&mut b, StreamEvent::Connected), StreamAction::Subscribe));
    assert_eq!(b.secs, 1);
    assert!(matches!(on_stream_event(&mut b, StreamEvent::Subscribed), StreamAction::Read));
    let message = |len: usize| AccountMessage {
        pubkey: vec![3; len],
        data: vec![1, 2],
        write_version: 8,
        txn_signature: None,
    };
    match on_stream_event(&mut b, StreamEvent::Account { slot: 4, account: Some(message(32)) }) {
        StreamAction::Forward(u) => assert_eq!((u.pubkey, u.slot, u.write_version, u.data), ([3; 32], 4, 8, vec![1, 2])),
        _ => panic!("the update is not forwarded"),
    }
    assert!(matches!(
        on_stream_event(&mut b, StreamEvent::Account { slot: 4, account: Some(message(31)) }),
        StreamAction::Read
    ));
    assert!(matches!(on_stream_event(&mut b, StreamEvent::Account { slot: 4, account: None }), StreamAction::Read));
    assert!(matches!(on_stream_event(&mut b, StreamEvent::Ping), StreamAction::AnswerPing));
    assert!(matches!(on_stream_event(&mut b, StreamEvent::OtherMessage), StreamAction::Read));
    assert!(matches!(on_stream_event(&mut b, StreamEvent::Forwarded), StreamAction::Read));
    assert!(matches!(on_stream_event(&mut b, StreamEvent::Failed), StreamAction::Reconnect { after_secs: 1 }));
    assert!(matches!(on_stream_event(&mut b, StreamEvent::SubscribeFailed), StreamAction::Reconnect { after_secs: 2 }));
    assert!(matches!(on_stream_event(&mut b, StreamEvent::Closed), StreamAction::Reconnect { after_secs: 4 }));
    assert!(matches!(on_stream_event(&mut b, StreamEvent::ReceiverGone), StreamAction::Stop));
}

fn feeds() -> Vec<PythFeedConfig> {
    vec![
        PythFeedConfig { feed_id: "0xaa".to_string(), symbol: "SOL/USD".to_string() },
        PythFeedConfig { feed_id: "bb".to_string(), symbol: "USDC/USD".to_string() },
    ]
}

const PRICE_TEXT: &str = r#"{"type":"price_update","price_feed":{"id":"aa","price":
    {"price":"-15","conf":"7","expo":-8,"publish_time":1700000000},"ema_price":{"price":"9"}}}"#;

fn price_message() -> PriceMessage {
    PriceMessage {
        kind: Some("price_update".to_string()),
        feed: Some(FeedPart {
            id: Some("aa".to_string()),
            price: Some(PricePart {
                price: Some("-15".to_string()),
                conf: Some("7".to_string()),
                expo: Some(-8),
                publish_time: Some(1_700_000_000),
            }),
        }),
    }
}

#[test]
fn prices_are_read_from_messages() {
    assert_eq!(subscribe_ids(&feeds()), vec!["aa", "bb"]);
    let row = read_price(&price_message(), &feeds(), 42).unwrap();
    assert_eq!((row.timestamp_ms, row.feed_id.as_str(), row.symbol.as_str()), (42, "0xaa", "SOL/USD"));
    assert_eq!((row.price, row.conf, row.expo, row.publish_time), (-15, 7, -8, 1_700_000_000));

    let mut bare = price_message();
    bare.feed = Some(FeedPart {
        id: None,
        price: Some(PricePart { price: Some("x".to_string()), conf: None, expo: Some(1 << 32 | 3), publish_time: None }),
    });
    let row = read_price(&bare, &feeds(), 42).unwrap();
    assert_eq!((row.feed_id.as_str(), row.symbol.as_str()), ("0x", ""));
    assert_eq!((row.price, row.conf, row.expo, row.publish_time), (0, 0, 3, 0));

    let mut other = price_message();
    other.kind = Some("response".to_string());
    assert!(read_price(&other, &feeds(), 42).is_none());
    let mut empty = price_message();
    empty.feed = None;
    assert!(read_price(&empty, &feeds(), 42).is_none());
    let mut unpriced = price_message();
    unpriced.feed = Some(FeedPart { id: Some("aa".to_string()), price: None });
    assert!(read_price(&unpriced, &feeds(), 42).is_none());
}

#[test]
fn a_price_stream_follows_its_events() {
    let feeds = feeds();
    let mut s = PriceStream::new();
    assert!(matches!(s.on_event(PriceEvent::Ready, &feeds, 0, false), PriceAction::Connect));
    assert!(matches!(s.on_event(PriceEvent::ConnectFailed, &feeds, 0, false), PriceAction::Wait { secs: 1 }));
    assert!(matches!(s.on_event(PriceEvent::ConnectFailed, &feeds, 0, false), PriceAction::Wait { secs: 2 }));
    assert!(matches!(s.on_event(PriceEvent::Connected, &feeds, 0, false), PriceAction::Subscribe));
    assert!(matches!(s.on_event(PriceEvent::SubscribeFailed, &feeds, 0, false), PriceAction::Wait { secs: 1 }));
    assert!(matches!(s.on_event(PriceEvent::Subscribed, &feeds, 0, false), PriceAction::Read));
    assert!(matches!(s.on_event(PriceEvent::Text(PRICE_TEXT.to_string()), &feeds, 9, false), PriceAction::Read));
    assert!(matches!(s.on_event(PriceEvent::Nothing, &feeds, 9, false), PriceAction::Read));
    assert!(matches!(s.on_event(PriceEvent::Ping, &feeds, 9, false), PriceAction::AnswerPing));
    assert!(matches!(s.on_event(PriceEvent::Failed, &feeds, 9, false), PriceAction::Wait { secs: 2 }));
    assert!(matches!(s.on_event(PriceEvent::Closed, &feeds, 9, true), PriceAction::Stop));
    assert!(matches!(s.on_event(PriceEvent::Ready, &feeds, 9, true), PriceAction::Stop));
    assert_eq!(s.records.len(), 1);
}

#[test]
fn prices_are_flushed() {
    let feeds = feeds();
    let mut s = PriceStream::new();
    assert!(s.maybe_flush(600).is_none());
    s.on_event(PriceEvent::Text(PRICE_TEXT.to_string()), &feeds, 9, false);
    assert!(s.maybe_flush(59).is_none());
    let flush = s.maybe_flush(60).unwrap();
    assert_eq!((flush.rows.len(), prices_file(&flush.suffix)), (1, "pyth_prices_0001.parquet".to_string()));
    assert!(s.maybe_flush(60).is_none());
    s.on_event(PriceEvent::Text(PRICE_TEXT.to_string()), &feeds, 10, false);
    let last = s.finish().unwrap();
    assert_eq!((last.rows[0].timestamp_ms, last.suffix.as_str()), (10, "_0002"));

    let mut short = PriceStream::new();
    short.on_event(PriceEvent::Text(PRICE_TEXT.to_string()), &feeds, 11, false);
    assert_eq!(prices_file(&short.finish().unwrap().suffix), "pyth_prices.parquet");
    assert!(PriceStream::new().finish().is_none());
}

#[test]
fn prices_are_read_from_texts() {
    let row = read_price_text(PRICE_TEXT, &feeds(), 42).unwrap();
    assert_eq!((row.timestamp_ms, row.feed_id.as_str(), row.symbol.as_str()), (42, "0xaa", "SOL/USD"));
    assert_eq!((row.price, row.conf, row.expo, row.publish_time), (-15, 7, -8, 1_700_000_000));
    // Fields of another kind count as missing.
    let odd = r#"{"type":"price_update","price_feed":{"id":5,"price":
        {"price":15,"conf":["7"],"expo":"-8","publish_time":1.5}}}"#;
    let row = read_price_text(odd, &feeds(), 42).unwrap();
    assert_eq!((row.feed_id.as_str(), row.price, row.conf, row.expo, row.publish_time), ("0x", 0, 0, 0, 0));
    // Of two fields with one name the last one counts.
    let twice = r#"{"type":"x","type":"price_update","price_feed":{"price":null}}"#;
    assert!(read_price_text(twice, &feeds(), 42).is_some());
    for text in [
        "",
        "not json",
        "{\"type\":\"price_update\"",
        "[1]",
        "null",
        r#"{"type":"response","price_feed":{"id":"aa","price":{}}}"#,
        r#"{"type":"price_update"}"#,
        r#"{"type":"price_update","price_feed":"aa"}"#,
        r#"{"type":"price_update","price_feed":{"id":"aa"}}"#,
    ] {
        assert!(read_price_text(text, &feeds(), 42).is_none(), "{text}");
    }
}

#[test]
fn a_session_needs_a_pool() {
    let feed = |id: &str| LoadedConfig::Pyth(PythFeedConfig { feed_id: id.to_string(), symbol: String::new() });
    let pool = |symbol: &str| LoadedConfig::Pool(pool_config(symbol, WSOL, &[]));
    assert!(session_config(vec![]).is_none());
    assert!(session_config(vec![feed("a"), feed("b")]).is_none());
    let config = session_config(vec![feed("a"), pool("X"), feed("b"), pool("Y")]).unwrap();
    let symbols: Vec<&str> = config.pools.iter().map(|p| p.symbol.as_str()).collect();
    let ids: Vec<&str> = config.feeds.iter().map(|f| f.feed_id.as_str()).collect();
    assert_eq!((symbols, ids), (vec!["X", "Y"], vec!["a", "b"]));
}
