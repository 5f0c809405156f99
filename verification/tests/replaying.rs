//! Recorded updates replayed into quotes, routes and files.
use amm_replay::engine::{Advance, PoolResult, PoolRun};
use amm_replay::protocols::quotes::TierInput;
use amm_replay::reader::AccountUpdateRow;
use amm_replay::route::{
    csv_header, detect_swap, route_pools, run_route_analysis, RouteError, Swap,
};
use amm_replay::session::PoolInfo;
use amm_replay::writer::{chunk_bounds, derived_file, quotes_file, SessionTotals, MAX_ROWS_PER_FILE};

fn pool(id: &str, amm_type: &str, symbol: Option<&str>) -> PoolInfo {
    PoolInfo {
        pool_id: id.to_string(),
        amm_type: amm_type.to_string(),
        symbol: symbol.map(|s| s.to_string()),
        data_dir: id.to_string(),
    }
}

fn account(len: usize, fields: &[(usize, u64)]) -> Vec<u8> {
    let mut data = vec![0u8; len];
    for (offset, value) in fields {
        data[*offset..offset + 8].copy_from_slice(&value.to_le_bytes());
    }
    data
}

fn update(slot: u64, version: u64, role: &str, data: Vec<u8>) -> AccountUpdateRow {
    AccountUpdateRow {
        timestamp_ms: slot * 1000 + version,
        slot,
        write_version: version,
        txn_signature: format!("sig{slot}-{version}"),
        account_role: role.to_string(),
        account_data: data,
    }
}

fn vault(slot: u64, version: u64, role: &str, balance: u64) -> AccountUpdateRow {
    update(slot, version, role, account(165, &[(64, balance)]))
}

/// A market that pays 7 for 2942 in its first direction.
fn market() -> Vec<u8> {
    let mut data = account(
        496,
        &[
            (360, 12475574246),
            (408, 1005691075034),
            (424, 2581926535595),
            (432, 994276340403),
            (440, 1004222499673),
            (464, 18326990122),
            (480, 27981),
            (488, 1037886),
        ],
    );
    data[106] = 5;
    data
}

fn tier(micro_usd: u128) -> TierInput {
    TierInput { micro_usd, usd_e21: 0, base_amount: None }
}

fn recording() -> Vec<AccountUpdateRow> {
    vec![
        update(5, 1, "pool", market()),
        vault(5, 2, "base_vault", 95045582),
        vault(7, 1, "quote_vault", 3357940),
        vault(7, 2, "base_vault", 95045582),
        vault(7, 3, "oracle", 1),
        vault(9, 1, "quote_vault", 3357940),
        vault(9, 2, "base_vault", 95045583),
        vault(9, 3, "oracle", 1),
    ]
}

fn replay(info: &PoolInfo, updates: &Vec<AccountUpdateRow>, tiers: &[TierInput]) -> (PoolResult, Vec<usize>) {
    let mut run = PoolRun::new(info).unwrap();
    let mut due = vec![];
    let mut from = 0;
    loop {
        match run.advance(updates, from) {
            Advance::Due(i) => {
                assert!(run.protocol.is_ready());
                assert!(run.emit(&updates[i], tiers));
                due.push(i);
                from = i + 1;
            }
            Advance::Refused(i) => panic!("update {i} is refused"),
            Advance::Done => break,
        }
    }
    (run.finish(info.symbol.clone(), updates.len()), due)
}

#[test]
fn a_slot_is_quoted_at_its_end() {
    let info = pool("poolpoolpoolpool", "alphaq", Some("SOL/USDC"));
    let (result, due) = replay(&info, &recording(), &[tier(2942), tier(0)]);
    // Nothing at slot 5, where the quote vault is still unknown.
    assert_eq!(due, vec![4, 7]);
    assert_eq!(result.updates_processed, 8);
    assert_eq!(result.quotes_emitted, result.quotes.len());
    assert_eq!(result.quotes.len(), 8);
    let q = &result.quotes[0];
    assert_eq!((q.slot, q.timestamp_ms, q.tier), (7, 7003, 0));
    assert_eq!((q.direction.as_str(), q.input_amount, q.output_amount), ("B2Q", 2942, 7));
    assert_eq!((q.pool_id.as_str(), q.amm_type.as_str()), ("poolpoolpoolpool", "alphaq"));
    assert_eq!(result.quotes[1].direction, "Q2B");
    assert_eq!(result.quotes[2].tier, 1);
    assert_eq!((result.quotes[2].input_amount, result.quotes[2].output_amount), (0, 0));
    assert!(result.quotes[4..].iter().all(|q| q.slot == 9 && q.timestamp_ms == 9003));
}

#[test]
fn balances_carry_the_change_that_made_them() {
    let info = pool("p", "alphaq", None);
    let (result, _) = replay(&info, &recording(), &[]);
    assert!(result.quotes.is_empty());
    assert_eq!(result.derived.len(), 2);
    let d = &result.derived[0];
    assert_eq!((d.slot, d.write_version, d.timestamp_ms), (7, 1, 7001));
    assert_eq!(d.txn_signature, "sig7-1");
    assert_eq!((d.base_vault_balance, d.quote_vault_balance), (95045582, 3357940));
    let d = &result.derived[1];
    assert_eq!((d.slot, d.write_version, d.txn_signature.as_str()), (9, 2, "sig9-2"));
    assert_eq!(d.base_vault_balance, 95045583);
}

#[test]
fn a_slot_without_change_is_signed_by_its_last_update() {
    let mut updates = recording();
    updates.push(vault(11, 4, "oracle", 1));
    let (result, due) = replay(&pool("p", "alphaq", None), &updates, &[]);
    assert_eq!(due, vec![4, 7, 8]);
    let d = &result.derived[2];
    assert_eq!((d.slot, d.write_version, d.txn_signature.as_str()), (11, 4, "sig11-4"));
    assert_eq!((d.base_vault_balance, d.quote_vault_balance), (95045583, 3357940));
}

#[test]
fn unknown_pools_do_not_run() {
    let error = PoolRun::new(&pool("p", "other", None)).unwrap_err();
    assert_eq!(error.message(), "unsupported amm_type: other");
}

#[test]
fn swaps_move_the_vaults_apart() {
    let b2q = Swap { b2q: true, input: 10, output: 7 };
    assert_eq!(detect_swap((100, 50), (110, 43)), Some(Some(b2q)));
    let q2b = Swap { b2q: false, input: 7, output: 10 };
    assert_eq!(detect_swap((110, 43), (100, 50)), Some(Some(q2b)));
    assert_eq!(detect_swap((100, 50), (110, 60)), Some(None));
    assert_eq!(detect_swap((100, 50), (100, 40)), Some(None));
    assert_eq!(detect_swap((100, 50), (100, 50)), Some(None));
}

#[test]
fn routes_go_through_pools_of_one_pair() {
    let pools = vec![
        pool("a", "humidifi", Some("SOL/USDC")),
        pool("b", "orca_clmm", Some("SOL/USDC")),
        pool("c", "zerofi", Some("USDC-SOL")),
        pool("d", "tesserav", None),
        pool("e", "goonfi", Some("SOL/USDT")),
    ];
    assert_eq!(route_pools(&pools), vec![0, 2]);
}

/// A pool that pays 143494868 for 1962499 base tokens.
fn candidate() -> Vec<AccountUpdateRow> {
    let mut data = account(
        1024,
        &[
            (8, 416589582),
            (632, 7),
            (128, 78426504299811008),
            (144, 12750791443887),
            (160, 932486208),
            (168, 932318),
            (176, 34),
            (184, 36),
            (192, 932680),
            (208, 3343),
            (216, 936632),
            (224, 3),
            (232, 2677714),
            (240, 999867),
            (256, 34010566),
            (264, 917333),
        ],
    );
    data[16] = 5;
    vec![update(0, 0, "pool", data), vault(0, 1, "base_vault", 7), vault(0, 2, "quote_vault", 9)]
}

fn swapping() -> Vec<AccountUpdateRow> {
    vec![
        vault(0, 0, "base_vault", 10_000_000),
        vault(0, 1, "quote_vault", 900_000_000),
        vault(12, 4, "base_vault", 11_962_499),
        vault(12, 5, "quote_vault", 800_000_000),
    ]
}

#[test]
fn a_swap_is_compared_with_ready_pools() {
    let pools = vec![
        pool("maker", "humidifi", Some("SOL/USDC")),
        pool("idle", "bisonfi", Some("SOL/USDC")),
        pool("other", "tesserav", Some("SOL/USDC")),
    ];
    let rows = match run_route_analysis(&pools, vec![swapping(), vec![], candidate()]) {
        Ok(rows) => rows,
        Err(_) => panic!("the analysis fails"),
    };
    assert_eq!(rows.len(), 1);
    assert_eq!(
        rows[0].csv_line(),
        "12005,12,maker,humidifi,B2Q,1962499,100000000,other,tesserav,143494868"
    );
    assert_eq!(csv_header().split(',').count(), rows[0].csv_line().split(',').count());
}

#[test]
fn swaps_of_one_kind_are_passed_over() {
    let pools = vec![pool("maker", "tesserav", Some("SOL/USDC")), pool("other", "tesserav", Some("SOL/USDC"))];
    let rows = run_route_analysis(&pools, vec![swapping(), candidate()]);
    assert!(matches!(rows, Ok(rows) if rows.is_empty()));
}

#[test]
fn routes_refuse_unknown_pools() {
    let pools = vec![pool("x", "other", None)];
    match run_route_analysis(&pools, vec![vec![]]) {
        Err(RouteError::Unsupported(e)) => assert_eq!(e.amm_type, "other"),
        _ => panic!("the pool is accepted"),
    }
}

#[test]
fn routes_refuse_what_outgrows_a_word() {
    let pools = vec![pool("maker", "humidifi", Some("SOL/USDC"))];
    let updates = vec![
        vault(0, 0, "base_vault", 0),
        vault(0, 1, "quote_vault", 1 << 63),
        vault(3, 1, "base_vault", u64::MAX),
        vault(3, 2, "quote_vault", (1 << 63) - 1),
    ];
    assert!(matches!(run_route_analysis(&pools, vec![updates]), Err(RouteError::Overflow)));
}

#[test]
fn rows_are_divided_among_files() {
    assert_eq!(chunk_bounds(0), vec![]);
    assert_eq!(chunk_bounds(3), vec![(0, 3)]);
    let n = MAX_ROWS_PER_FILE;
    assert_eq!(n, 5_000_000);
    assert_eq!(chunk_bounds(n), vec![(0, n)]);
    assert_eq!(chunk_bounds(2 * n + 1), vec![(0, n), (n, 2 * n), (2 * n, 2 * n + 1)]);
    assert_eq!(quotes_file(0), "quotes_0000.parquet");
    assert_eq!(derived_file(12), "derived_0012.parquet");
}

#[test]
fn pools_of_a_pair_share_its_output() {
    let mut totals = SessionTotals::new();
    let updates = recording();
    for (id, symbol) in [("one", Some("SOL/USDC")), ("two", None), ("three", Some("SOL/USDC"))] {
        let (result, _) = replay(&pool(id, "alphaq", symbol), &updates, &[tier(2942)]);
        assert!(totals.add(result));
    }
    assert!(totals.add_error());
    let pairs: Vec<(&str, usize, usize)> =
        totals.pairs.iter().map(|p| (p.pair.as_str(), p.quotes.len(), p.derived.len())).collect();
    assert_eq!(pairs, vec![("SOL-USDC", 8, 4), ("two", 4, 2)]);
    assert_eq!(
        (totals.total_updates, totals.total_quotes, totals.total_derived, totals.pool_errors),
        (24, 12, 6, 1)
    );
    assert_eq!(totals.pairs[0].quotes[4].pool_id, "three");
}
