use forty_two_sniper::address::{Address, TxHash};
use forty_two_sniper::fields::parse_token_units;
use forty_two_sniper::json::jsonl_line;
use forty_two_sniper::log_audit::{
    format_scaled_bps, scaled_bps, validate_pricing_logs, LogAudit, PricingLog,
};
use forty_two_sniper::scan::{
    begin_run, candidate_target, dedupe_market_block, is_rate_limit_text, retried_markets,
    select_cases, LogRetry, RedeemEvent, RedeemLog, Scan,
};
use forty_two_sniper::u256::U256;
use forty_two_sniper::validation::{
    abs_diff, begin_case, check_markets, compare_case, result_record, summarize, summary_record,
    with_swap_counts, CaseStep, RedeemCase, ValidationError, ValidationOptions, ValidationResult,
    ValidationRun, ValidationStatus,
};

fn n(value: u64) -> U256 {
    U256::from(value)
}

fn address(byte: u8) -> Address {
    Address { bytes: [byte; 20] }
}

fn case(market: u8, block: u64, tx: u8) -> RedeemCase {
    RedeemCase {
        market: address(market),
        block_number: block,
        tx_hash: TxHash { bytes: [tx; 32] },
        log_index: Some(3),
        token_id: n(1),
        collateral_to_user: n(90),
        ot_to_pool: n(500),
        collateral_to_treasury: n(10),
    }
}

fn options() -> ValidationOptions {
    ValidationOptions {
        samples: 2,
        lookback_blocks: 100,
        chunk_size: 10,
        tolerance_wei: n(1),
        output_path: "out.jsonl".to_owned(),
        market_limit: 5,
        market_offset: 0,
        market_batch_size: 2,
        market_order: "desc".to_owned(),
        market_status: None,
    }
}

#[test]
fn checks_the_options() {
    let mut options = options();
    assert!(options.check().is_ok());
    options.market_batch_size = 0;
    assert_eq!(options.check(), Err(ValidationError::ZeroBatchSize));
    options.market_limit = 0;
    assert_eq!(options.check(), Err(ValidationError::ZeroMarketLimit));
    options.chunk_size = 0;
    assert_eq!(options.check(), Err(ValidationError::ZeroChunkSize));
    options.samples = 0;
    assert_eq!(options.check(), Err(ValidationError::ZeroSamples));
    assert_eq!(ValidationError::ZeroSamples.message(), "samples must be greater than zero");
    assert_eq!(ValidationError::ZeroChunkSize.message(), "chunk_size must be greater than zero");
    assert_eq!(
        ValidationError::ZeroMarketLimit.message(),
        "market_limit must be greater than zero"
    );
    assert_eq!(
        ValidationError::ZeroBatchSize.message(),
        "market_batch_size must be greater than zero"
    );
    assert_eq!(check_markets(&vec![]), Err(ValidationError::NoMarkets));
    assert_eq!(
        ValidationError::NoMarkets.message(),
        "no 42Space markets returned by REST API"
    );
    assert!(check_markets(&vec![address(1)]).is_ok());
}

fn redeem_log(market: u8, block: Option<u64>, tx: Option<u8>, decoded: bool) -> RedeemLog {
    RedeemLog {
        address: address(market),
        block_number: block,
        transaction_hash: tx.map(|byte| TxHash { bytes: [byte; 32] }),
        log_index: None,
        event: if decoded {
            Some(RedeemEvent {
                token_id: n(1),
                collateral_to_user: n(90),
                ot_to_pool: n(500),
                collateral_to_treasury: n(10),
            })
        } else {
            None
        },
    }
}

fn scan(markets: Vec<Address>, batch: usize, chunk: u64, back: u64, samples: usize, latest: u64) -> Scan {
    let mut options = options();
    options.market_batch_size = batch;
    options.chunk_size = chunk;
    options.lookback_blocks = back;
    options.samples = samples;
    Scan::new(&options, markets, latest)
}

#[test]
fn scans_down_from_the_latest_block() {
    let markets = vec![address(1), address(2), address(3)];
    let mut search = scan(markets, 2, 10, 15, 100, 1_000);
    assert_eq!(search.target, 120);
    let mut asked: Vec<(usize, u64, u64)> = Vec::new();
    while let Some(request) = search.next_request() {
        asked.push((request.markets.len(), request.from, request.to));
        search.absorb(&vec![]);
    }
    assert_eq!(asked, vec![(2, 991, 1_000), (1, 991, 1_000), (2, 985, 990), (1, 985, 990)]);
}

#[test]
fn scans_every_block_above_the_limit() {
    let mut search = scan(vec![address(1)], 1, 7, 1_000, 100, 50);
    assert_eq!(search.from_limit, 0);
    let mut reached = vec![false; 51];
    while let Some(request) = search.next_request() {
        for block in request.from..=request.to {
            reached[block as usize] = true;
        }
        search.absorb(&vec![]);
    }
    for block in 1..=50 {
        assert!(reached[block]);
    }
}

#[test]
fn scans_nothing_without_blocks_to_look_at() {
    let search = scan(vec![address(1)], 1, 7, 0, 100, 50);
    assert!(search.next_request().is_none());
    let search = scan(vec![address(1)], 1, 7, 10, 100, 0);
    assert!(search.next_request().is_none());
}

#[test]
fn takes_the_newest_sales_first_and_stops_at_the_target() {
    let mut search = scan(vec![address(1), address(2)], 1, 10, 100, 2, 1_000);
    assert_eq!(search.target, 2);
    search.absorb(&vec![
        redeem_log(1, Some(991), Some(1), true),
        redeem_log(1, Some(992), Some(2), false),
        redeem_log(1, None, Some(3), true),
        redeem_log(1, Some(994), None, true),
        redeem_log(1, Some(995), Some(5), true),
    ]);
    let blocks: Vec<u64> = search.candidates.iter().map(|case| case.block_number).collect();
    assert_eq!(blocks, vec![995, 991]);
    assert!(search.next_request().is_none());
    let run = begin_run(search, 1);
    assert_eq!(run.cases.len(), 2);
    assert_eq!(run.samples, 1);
}

#[test]
fn looks_for_a_fifth_more_than_asked() {
    assert_eq!(candidate_target(1), 1);
    assert_eq!(candidate_target(5), 6);
    assert_eq!(candidate_target(100), 120);
    assert_eq!(candidate_target(usize::MAX), usize::MAX);
}

#[test]
fn keeps_only_sales_that_are_alone() {
    let cases = vec![case(1, 10, 1), case(1, 10, 2), case(2, 10, 3), case(1, 11, 4), case(2, 12, 5)];
    let kept: Vec<u8> =
        dedupe_market_block(cases.clone()).iter().map(|case| case.tx_hash.bytes[0]).collect();
    assert_eq!(kept, vec![3, 4, 5]);
    assert_eq!(select_cases(cases.clone(), 1).len(), 2);
    assert_eq!(select_cases(cases.clone(), 2).len(), 3);
    assert_eq!(select_cases(cases, usize::MAX).len(), 3);
}

#[test]
fn tells_rate_limits_from_other_errors() {
    assert!(is_rate_limit_text("HTTP 429"));
    assert!(is_rate_limit_text("Too Many requests"));
    assert!(is_rate_limit_text("daily Usage Limit"));
    assert!(is_rate_limit_text("RATE LIMIT"));
    assert!(!is_rate_limit_text("timeout"));
}

#[test]
fn asks_for_the_markets_of_a_failed_batch_one_by_one() {
    let markets = vec![address(2), address(1), address(2)];
    assert_eq!(retried_markets(&markets, "timeout"), markets);
    assert!(retried_markets(&markets, "HTTP 429").is_empty());
    assert!(retried_markets(&vec![address(1)], "timeout").is_empty());
    assert!(retried_markets(&vec![], "timeout").is_empty());
}

#[test]
fn backs_off_four_times() {
    let mut retry = LogRetry::new();
    let mut waits: Vec<u64> = Vec::new();
    while let Some(wait) = retry.after_error("429") {
        waits.push(wait);
    }
    assert_eq!(waits, vec![2_000, 4_000, 8_000, 16_000]);
    assert_eq!(LogRetry::new().after_error("timeout"), None);
}

#[test]
fn skips_what_cannot_be_replayed() {
    match begin_case(case(1, 0, 1)) {
        CaseStep::Skip(result) => assert!(
            matches!(result.status, ValidationStatus::Skipped { reason } if reason == "block 0 has no previous state")
        ),
        _ => panic!("there is no block before"),
    }
    assert!(matches!(begin_case(case(1, 8, 1)), CaseStep::CountSwaps { block_number: 8, .. }));
    match with_swap_counts(case(1, 8, 1), 1, 2) {
        CaseStep::Skip(result) => assert!(
            matches!(result.status, ValidationStatus::Skipped { reason } if reason == "market has 3 MintSwap/RedeemSwap logs in block; block-1 replay is ambiguous")
        ),
        _ => panic!("the sale is not alone"),
    }
    assert!(matches!(with_swap_counts(case(1, 8, 1), 0, 0), CaseStep::Skip(_)));
    match with_swap_counts(case(1, 8, 1), 0, 1) {
        CaseStep::Quote { market, token_id, ot_amount, block_number } => {
            assert_eq!(market, address(1));
            assert_eq!(token_id, n(1));
            assert_eq!(ot_amount, n(500));
            assert_eq!(block_number, 7);
        }
        _ => panic!("the sale is alone"),
    }
}

#[test]
fn compares_within_the_tolerance() {
    assert_eq!(abs_diff(n(3), n(5)), n(2));
    assert_eq!(abs_diff(n(5), n(3)), n(2));
    let passed = compare_case(case(1, 8, 1), n(91), n(9), n(1));
    match passed.status {
        ValidationStatus::Passed { computed_user, computed_treasury, user_diff, treasury_diff } => {
            assert_eq!(computed_user, n(91));
            assert_eq!(computed_treasury, n(9));
            assert_eq!(user_diff, n(1));
            assert_eq!(treasury_diff, n(1));
        }
        _ => panic!("the differences are within the tolerance"),
    }
    let failed = compare_case(case(1, 8, 1), n(92), n(10), n(1));
    assert!(matches!(failed.status, ValidationStatus::Failed { .. }));
    let failed = compare_case(case(1, 8, 1), n(90), n(12), n(1));
    assert!(matches!(failed.status, ValidationStatus::Failed { .. }));
}

fn skipped(case: RedeemCase) -> ValidationResult {
    ValidationResult { case, status: ValidationStatus::Skipped { reason: "why".to_owned() } }
}

#[test]
fn compares_as_many_as_asked() {
    let cases = vec![case(1, 8, 1), case(2, 8, 2), case(3, 8, 3), case(4, 8, 4), case(5, 8, 5)];
    let mut run = ValidationRun::new(cases, 2);
    let first = run.next_case().unwrap();
    run.record(Some(skipped(first)));
    let second = run.next_case().unwrap();
    run.record(Some(compare_case(second, n(93), n(10), n(1))));
    assert!(run.next_case().is_some());
    run.record(None);
    let fourth = run.next_case().unwrap();
    assert_eq!(fourth.tx_hash.bytes[0], 4);
    run.record(Some(compare_case(fourth, n(90), n(11), n(1))));
    assert!(run.next_case().is_none());
    let summary = summarize(&run, 77, "out.jsonl");
    assert_eq!(summary.requested_samples, 2);
    assert_eq!(summary.collected_candidates, 5);
    assert_eq!(summary.validated, 2);
    assert_eq!(summary.passed, 1);
    assert_eq!(summary.failed, 1);
    assert_eq!(summary.skipped, 1);
    assert_eq!(summary.max_abs_user_diff, n(3));
    assert_eq!(summary.max_abs_treasury_diff, n(1));
    assert_eq!(summary.output_path, "out.jsonl");
    assert_eq!(
        jsonl_line(&summary_record(&summary)),
        "{\"collected_candidates\":5,\"elapsed_ms\":77,\"failed\":1,\"max_abs_treasury_diff\":\"1\",\"max_abs_user_diff\":\"3\",\"passed\":1,\"requested_samples\":2,\"skipped\":1,\"type\":\"summary\",\"validated\":2}\n"
    );
}

#[test]
fn stops_when_all_sales_were_taken_up() {
    let mut run = ValidationRun::new(vec![case(1, 8, 1)], 9);
    run.record(None);
    assert!(run.next_case().is_none());
}

#[test]
fn records_a_result() {
    let mut lonely = case(1, 0, 0xab);
    lonely.log_index = None;
    let line = jsonl_line(&result_record(&skipped(lonely)));
    let hash = "ab".repeat(32);
    assert_eq!(
        line,
        format!(
            "{{\"block_number\":0,\"event_collateral_to_treasury\":\"10\",\"event_collateral_to_user\":\"90\",\"event_ot_to_pool\":\"500\",\"log_index\":null,\"market\":\"0x0101010101010101010101010101010101010101\",\"reason\":\"why\",\"replay_block\":0,\"status\":\"skipped\",\"token_id\":\"1\",\"tx_hash\":\"0x{hash}\",\"type\":\"sample\"}}\n"
        )
    );
    let passed = result_record(&compare_case(case(1, 8, 1), n(91), n(9), n(1)));
    assert_eq!(passed.get("status").and_then(|value| value.as_str()), Some("passed"));
    assert_eq!(passed.get("user_diff").and_then(|value| value.as_str()), Some("1"));
    assert_eq!(passed.get("replay_block").and_then(|value| value.as_u64()), Some(7));
    assert_eq!(passed.get("log_index").and_then(|value| value.as_u64()), Some(3));
    assert_eq!(
        passed.get("computed_collateral_to_treasury").and_then(|value| value.as_str()),
        Some("9")
    );
    let failed = result_record(&compare_case(case(1, 8, 1), n(99), n(9), n(1)));
    assert_eq!(failed.get("status").and_then(|value| value.as_str()), Some("failed"));
}

fn log_file(path: &str, lines: &[String]) -> PricingLog {
    PricingLog { path: path.to_owned(), raw: lines.concat() }
}

#[test]
fn audits_what_was_written() {
    let lines = vec![
        jsonl_line(&result_record(&compare_case(case(1, 8, 1), n(90), n(10), n(1)))),
        jsonl_line(&result_record(&compare_case(case(2, 9, 2), n(91), n(10), n(1)))),
        jsonl_line(&result_record(&compare_case(case(2, 7, 3), n(95), n(10), n(1)))),
        jsonl_line(&result_record(&skipped(case(3, 6, 4)))),
        " \n".to_owned(),
        jsonl_line(&summary_record(&summarize(&ValidationRun::new(vec![], 1), 0, ""))),
    ];
    let logs = vec![log_file("a.jsonl", &lines), log_file("b.jsonl", &lines)];
    let summary = validate_pricing_logs(&logs, n(1)).unwrap();
    assert_eq!(summary.inputs, vec!["a.jsonl", "b.jsonl"]);
    assert_eq!(summary.unique_samples, 4);
    assert_eq!(summary.passed, 2);
    assert_eq!(summary.failed, 1);
    assert_eq!(summary.skipped, 1);
    assert_eq!(summary.unique_markets, 3);
    assert_eq!(summary.unique_token_ids, 1);
    assert_eq!(summary.block_min, Some(6));
    assert_eq!(summary.block_max, Some(9));
    assert_eq!(summary.zero_diff_samples, 1);
    assert_eq!(summary.tolerance_wei, "1");
    assert_eq!(summary.max_abs_user_diff, "5");
    assert_eq!(summary.max_abs_treasury_diff, "0");
    assert_eq!(summary.protocol_tax_bps_min, Some("1000.000000".to_owned()));
    assert_eq!(summary.protocol_tax_bps_max, Some("1000.000000".to_owned()));
    assert_eq!(summary.slippage_auditable_samples, 0);
    assert!(summary.slippage_formula_note.starts_with("existing validation logs do not"));
    let strict = validate_pricing_logs(&logs, U256::zero()).unwrap();
    assert_eq!(strict.passed, 1);
    assert_eq!(strict.failed, 2);
}

fn audit(raw: &str) -> Result<forty_two_sniper::log_audit::PricingLogSummary, String> {
    let logs = vec![PricingLog { path: "p".to_owned(), raw: raw.to_owned() }];
    validate_pricing_logs(&logs, n(1)).map_err(|error| error.message())
}

#[test]
fn audits_samples_without_differences() {
    let sample = "{\"type\":\"sample\",\"tx_hash\":\"t\",\"status\":\"passed\",\"event_collateral_to_user\":\"90\",\"event_collateral_to_treasury\":\"0\",\"computed_collateral_to_user\":\"89\",\"computed_collateral_to_treasury\":\"0\",\"spot_collateral_value\":\"1\",\"slippage_bps\":0}";
    let summary = audit(sample).unwrap();
    assert_eq!(summary.passed, 1);
    assert_eq!(summary.max_abs_user_diff, "1");
    assert_eq!(summary.slippage_auditable_samples, 1);
    assert_eq!(
        summary.slippage_formula_note,
        "slippage fields were present in at least one log sample"
    );
    assert_eq!(summary.protocol_tax_bps_min, Some("0.000000".to_owned()));
    assert_eq!(summary.block_min, None);
    assert_eq!(summary.unique_markets, 0);
}

#[test]
fn tells_samples_apart_by_their_logs() {
    let sample = |index: &str| {
        format!("{{\"type\":\"sample\",\"tx_hash\":\"t\",\"status\":\"skipped\"{index}}}\n")
    };
    let one = sample("");
    let null = sample(",\"log_index\":null");
    let number = sample(",\"log_index\":1");
    let text = sample(",\"log_index\":\"1\"");
    let list = sample(",\"log_index\":[1]");
    let truth = sample(",\"log_index\":true");
    let raw = format!("{one}{null}{number}{text}{list}{truth}{number}");
    let summary = audit(&raw).unwrap();
    assert_eq!(summary.unique_samples, 5);
    assert_eq!(summary.skipped, 5);
    assert_eq!(summary.protocol_tax_bps_max, None);
}

#[test]
fn passes_over_what_is_no_sample() {
    let raw = "\n  \n[1]\n\"text\"\n{}\n{\"type\":\"summary\"}\n{\"type\":1}\n";
    let summary = audit(raw).unwrap();
    assert_eq!(summary.unique_samples, 0);
    assert_eq!(summary.tolerance_wei, "1");
}

#[test]
fn says_which_line_is_wrong() {
    let error = audit("{}\n{\n").unwrap_err();
    assert!(error.starts_with("p:2 invalid JSONL: EOF while parsing"));
    let error = audit("\n\n{\"type\":\"sample\"}\n{").unwrap_err();
    assert_eq!(error, "p:3 missing tx_hash");
    let error = audit("{\"type\":\"sample\",\"tx_hash\":\"t\"}").unwrap_err();
    assert_eq!(error, "p:1 missing event_collateral_to_user");
    let front = "{\"type\":\"sample\",\"tx_hash\":\"t\",\"event_collateral_to_user\":\"1\"";
    let error = audit(&format!("{front},\"event_collateral_to_treasury\":\"x\"}}")).unwrap_err();
    assert_eq!(error, "p:1 invalid event_collateral_to_treasury: invalid digit: x");
    let front = format!("{front},\"event_collateral_to_treasury\":\"1\"");
    let error = audit(&format!("{front}}}")).unwrap_err();
    assert_eq!(error, "p:1 missing computed_collateral_to_user");
    let front = format!("{front},\"computed_collateral_to_user\":\"1\"");
    let error = audit(&format!("{front}}}")).unwrap_err();
    assert_eq!(error, "p:1 missing computed_collateral_to_treasury");
    let front = format!("{front},\"computed_collateral_to_treasury\":\"1\"");
    let error = audit(&format!("{front},\"user_diff\":\"u\"}}")).unwrap_err();
    assert_eq!(error, "p:1 invalid user_diff: invalid digit: u");
    let error = audit(&format!("{front},\"treasury_diff\":\"t\"}}")).unwrap_err();
    assert_eq!(error, "p:1 invalid treasury_diff: invalid digit: t");
    let logged = audit(&format!("{front}}}")).unwrap();
    assert_eq!(logged.failed, 1);
}

#[test]
fn audits_logs_one_after_the_other() {
    let line = jsonl_line(&result_record(&skipped(case(3, 6, 4))));
    let audit = LogAudit::new().with_log("a", &line, n(1)).ok().unwrap();
    let audit = audit.with_log("b", &line, n(1)).ok().unwrap();
    let summary = audit.summary(vec!["a".to_owned()], n(1));
    assert_eq!(summary.unique_samples, 1);
    let error = audit.with_log("c", "x", n(1)).err().unwrap();
    assert_eq!(error.path, "c");
    assert_eq!(error.line, 1);
}

#[test]
fn writes_shares_with_six_digits() {
    assert_eq!(scaled_bps(n(1), n(3)), n(3_333_333_333));
    assert_eq!(scaled_bps(n(1), U256::zero()), U256::zero());
    assert_eq!(format_scaled_bps(n(3_333_333_333)), "3333.333333");
    assert_eq!(format_scaled_bps(n(1)), "0.000001");
    assert_eq!(format_scaled_bps(n(10_000_000_000)), "10000.000000");
}

#[test]
fn reads_shares_back() {
    for share in [0, 1, 999_999, 1_000_000, 3_333_333_333, u64::MAX] {
        let text = format_scaled_bps(n(share));
        assert_eq!(parse_token_units("share", &text, 6).unwrap(), n(share));
    }
    let text = format_scaled_bps(U256::max_value());
    assert_eq!(parse_token_units("share", &text, 6).unwrap(), U256::max_value());
}

#[test]
fn audits_a_log_that_grows() {
    let first = jsonl_line(&result_record(&skipped(case(3, 6, 4))));
    let second = jsonl_line(&result_record(&skipped(case(3, 7, 5))));
    assert_eq!(audit(&first).unwrap().skipped, 1);
    assert_eq!(audit(&format!("{first}{second}")).unwrap().skipped, 2);
    assert_eq!(audit(&format!("{first}{second}{{")).unwrap_err().split(':').nth(1), Some("3 invalid JSONL"));
}

#[test]
fn audits_a_run_to_what_it_counted() {
    let results = vec![
        compare_case(case(1, 8, 1), n(90), n(10), n(1)),
        compare_case(case(2, 9, 2), n(91), n(10), n(1)),
        compare_case(case(2, 7, 3), n(95), n(13), n(1)),
        skipped(case(3, 6, 4)),
    ];
    let raw: String = results.iter().map(|result| jsonl_line(&result_record(result))).collect();
    let mut run = ValidationRun::new(results.iter().map(|result| result.case).collect(), 4);
    for result in results {
        run.record(Some(result));
    }
    let counted = summarize(&run, 0, "");
    let logs = vec![PricingLog { path: "a.jsonl".to_owned(), raw }];
    let audited = validate_pricing_logs(&logs, n(1)).unwrap();
    assert_eq!(audited.unique_samples, 4);
    assert_eq!(audited.unique_markets, 3);
    assert_eq!(audited.passed, counted.passed);
    assert_eq!(audited.failed, counted.failed);
    assert_eq!(audited.skipped, counted.skipped);
    assert_eq!(audited.max_abs_user_diff, counted.max_abs_user_diff.to_decimal());
    assert_eq!(audited.max_abs_treasury_diff, counted.max_abs_treasury_diff.to_decimal());
    let strict = validate_pricing_logs(&logs, U256::zero()).unwrap();
    assert_eq!(strict.passed, counted.passed - 1);
    assert_eq!(strict.failed, counted.failed + 1);
}

#[test]
fn counts_overlapping_logs_once() {
    let first = jsonl_line(&result_record(&compare_case(case(1, 8, 1), n(95), n(10), n(1))));
    let second = jsonl_line(&result_record(&compare_case(case(2, 9, 2), n(90), n(10), n(1))));
    let third = jsonl_line(&result_record(&skipped(case(3, 6, 4))));
    let once = vec![
        log_file("a", &[first.clone(), second.clone()]),
        log_file("b", &[second.clone(), third.clone()]),
    ];
    let mut expected = validate_pricing_logs(&once, n(1)).unwrap();
    assert_eq!(expected.unique_samples, 3);
    let twice = vec![
        log_file("a", &[first.clone(), second.clone()]),
        log_file("b", &[second.clone(), third.clone()]),
        log_file("a", &[first.clone(), second.clone()]),
        log_file("b", &[second, third.clone()]),
        log_file("c", &[third, first]),
    ];
    let mut found = validate_pricing_logs(&twice, n(1)).unwrap();
    assert_eq!(found.inputs, vec!["a", "b", "a", "b", "c"]);
    expected.inputs = vec![];
    found.inputs = vec![];
    assert_eq!(format!("{found:?}"), format!("{expected:?}"));
}

#[test]
fn a_record_behind_an_open_line_is_no_line_of_its_own() {
    let record = jsonl_line(&result_record(&skipped(case(3, 6, 4))));
    let opened = format!("{{}}{record}");
    assert_eq!(opened.lines().count(), 1);
    assert_eq!(audit(&opened).unwrap_err().split(':').nth(1), Some("1 invalid JSONL"));
    assert_eq!(audit(&format!("{{}}\n{record}")).unwrap().skipped, 1);
}

#[test]
fn counts_every_result_once() {
    let mut run = ValidationRun::new(vec![case(1, 8, 1), case(2, 8, 2), case(3, 8, 3)], 3);
    run.record(Some(compare_case(case(1, 8, 1), n(90), n(10), n(1))));
    run.record(Some(compare_case(case(2, 8, 2), n(80), n(10), n(1))));
    run.record(Some(skipped(case(3, 8, 3))));
    let summary = summarize(&run, 0, "");
    assert_eq!(summary.passed + summary.failed + summary.skipped, 3);
    assert_eq!(summary.validated, 2);
    assert_eq!(summary.max_abs_user_diff, n(10));
}
