use forty_two_sniper::address::Address;
use forty_two_sniper::commands::{amount_source, exact_amount, quote_target, AmountSource};
use forty_two_sniper::config::{
    ContractConfig, FilterConfig, LatencyConfig, MetadataConfig, PricingConfig, RpcConfig,
    Settings, StrategyConfig, WalletConfig,
};
use forty_two_sniper::json::{jsonl_line, pretty_text, JsonObject};
use forty_two_sniper::price::{
    checked_mul_div, loss_bps, pow10, quote_for_display, quote_sell_record, ratio_bps, sample_record,
    sampler_plan, sell_quote, sell_quote_record, skip_record, QuoteError, QuoteJob, QuoteReply, QuoteRequest,
    QuoteStep, SamplerPlan, SellAmount, SellQuote,
};
use forty_two_sniper::u256::U256;

fn settings() -> Settings {
    Settings {
        rpc: RpcConfig {
            http_url: "https://bsc.example".to_owned(),
            ws_url: "wss://bsc.example".to_owned(),
            chain_id: 56,
            max_requests_per_second: 15,
        },
        wallet: WalletConfig { private_key_env: "KEY".to_owned() },
        contracts: ContractConfig {
            controller: "0xF21b2D4F8989b27f732e369907F25f0E8D95Fe62".to_owned(),
            router: "0x88888888338e60bfB4657187169cFFa5c8640E42".to_owned(),
            collateral: "0x55d398326f99059fF775485246999027B3197955".to_owned(),
        },
        strategy: StrategyConfig {
            outcome_token_id: "4".to_owned(),
            buy_amount_units: "10".to_owned(),
            collateral_decimals: 18,
            min_out_or_max_in: String::new(),
            gas_limit: 300_000,
            gas_price_bump_bps: 2_000,
            dry_run: false,
            wait_for_receipt: false,
        },
        pricing: PricingConfig::default(),
        metadata: MetadataConfig::default(),
        filters: FilterConfig::default(),
        latency: LatencyConfig::default(),
    }
}

fn n(value: u64) -> U256 {
    U256::from(value)
}

fn address(byte: u8) -> Address {
    Address { bytes: [byte; 20] }
}

#[test]
fn computes_loss_bps() {
    assert_eq!(loss_bps(U256::from(100), U256::from(75)), 2_500);
    assert_eq!(loss_bps(U256::from(100), U256::from(100)), 0);
    assert_eq!(loss_bps(U256::from(100), U256::from(110)), 0);
}

#[test]
fn computes_units_scale() {
    assert_eq!(pow10(6), U256::from(1_000_000));
}

#[test]
fn computes_scales_at_the_edges() {
    assert_eq!(pow10(0), n(1));
    let largest = format!("1{}", "0".repeat(77));
    assert_eq!(pow10(77).to_decimal(), largest);
    assert_eq!(
        pow10(78).to_decimal(),
        "73663286101470436611432119930496737173840122674875487684339327936694962880512"
    );
    assert_eq!(pow10(255), U256 { w0: 0, w1: 0, w2: 0, w3: 1 << 63 });
}

#[test]
fn computes_shares_at_the_edges() {
    assert_eq!(ratio_bps(n(1), U256::zero()), 0);
    assert_eq!(ratio_bps(n(1), n(3)), 3_333);
    assert_eq!(ratio_bps(U256::max_value(), n(1)), u64::MAX);
    assert_eq!(ratio_bps(U256::max_value(), U256::max_value()), 1);
    assert_eq!(loss_bps(U256::zero(), U256::zero()), 0);
    assert_eq!(loss_bps(n(10), U256::zero()), 10_000);
    assert_eq!(checked_mul_div(n(7), n(3), n(2)), n(10));
    assert_eq!(checked_mul_div(n(7), n(3), U256::zero()), U256::zero());
    assert_eq!(checked_mul_div(U256::max_value(), n(2), n(1)), U256::max_value());
}

fn quote() -> SellQuote {
    sell_quote(
        address(1),
        n(4),
        2,
        n(500),
        n(2_000),
        n(30),
        n(20),
        n(90),
        n(10),
        500,
        3_000,
    )
}

#[test]
fn quotes_a_sale() {
    let quote = quote();
    assert_eq!(quote.post_supply, n(1_500));
    assert_eq!(quote.spot_collateral_value, n(150));
    assert_eq!(quote.slippage_bps, 3_333);
    assert_eq!(quote.protocol_tax_bps, 1_000);
    assert_eq!(quote.extra_sell_tax, n(4));
    assert_eq!(quote.estimated_net_to_user, n(86));
    assert_eq!(quote.effective_loss_bps, 4_266);
    assert!(!quote.executable);
    assert_eq!(quote.reason, "slippage 3333 bps exceeds max 3000 bps");
}

#[test]
fn accepts_a_sale_within_the_slippage() {
    let quote = sell_quote(
        address(1),
        n(4),
        2,
        n(500),
        n(500),
        n(30),
        n(20),
        n(90),
        n(10),
        0,
        3_333,
    );
    assert!(quote.executable);
    assert_eq!(quote.reason, "ok");
    assert_eq!(quote.post_supply, U256::zero());
    assert_eq!(quote.estimated_net_to_user, n(90));
}

#[test]
fn keeps_the_numbers_of_a_quote_consistent() {
    let quote = quote();
    assert_eq!(
        quote.estimated_net_to_user.wrapping_sum(quote.extra_sell_tax),
        quote.collateral_to_user
    );
    assert!(quote.slippage_bps <= quote.effective_loss_bps);
    assert!(quote.effective_loss_bps <= 10_000);
    assert!(quote.protocol_tax_bps <= 10_000);
}

#[test]
fn loses_less_with_a_higher_yield() {
    let mut last: u64 = 10_000;
    for actual in 0..120 {
        let loss = loss_bps(n(100), n(actual));
        assert!(loss <= last);
        last = loss;
    }
    assert_eq!(last, 0);
    assert_eq!(checked_mul_div(n(90), n(10_000), n(10_000)), n(90));
    assert_eq!(checked_mul_div(n(90), n(9_999), n(10_000)), n(89));
}

fn ask(step: QuoteStep) -> QuoteJob {
    match step {
        QuoteStep::Ask(job) => job,
        _ => panic!("there is more to ask"),
    }
}

#[test]
fn asks_for_what_a_quote_needs() {
    let wallet = address(5);
    let curve = address(6);
    let job = QuoteJob::new(&settings(), address(1), n(4), SellAmount::WalletBalance(wallet));
    assert!(matches!(job.request(), QuoteRequest::Decimals));
    assert!(job.is_answered_by(&QuoteReply::Decimals(2)));
    assert!(!job.is_answered_by(&QuoteReply::Number(n(2))));
    let job = ask(job.advance(QuoteReply::Decimals(2)));
    assert!(matches!(job.request(), QuoteRequest::BalanceOf(asked) if asked == wallet));
    let job = ask(job.advance(QuoteReply::Number(n(500))));
    assert!(matches!(job.request(), QuoteRequest::DeployParams));
    let job = ask(job.advance(QuoteReply::Curve(curve)));
    assert!(matches!(job.request(), QuoteRequest::TotalSupply));
    let job = ask(job.advance(QuoteReply::Number(n(2_000))));
    assert!(matches!(job.request(), QuoteRequest::MarginalPrice { curve: asked } if asked == curve));
    let job = ask(job.advance(QuoteReply::Number(n(30))));
    assert!(
        matches!(job.request(), QuoteRequest::RedeemValue { curve: asked, ot_amount } if asked == curve && ot_amount == n(500))
    );
    let job = ask(job.advance(QuoteReply::Redeem {
        collateral_to_user: n(90),
        collateral_to_treasury: n(10),
    }));
    assert!(
        matches!(job.request(), QuoteRequest::SimMarginalPrice { curve: asked, supply } if asked == curve && supply == n(1_500))
    );
    match job.advance(QuoteReply::Number(n(20))) {
        QuoteStep::Quote(quote) => {
            assert_eq!(quote.slippage_bps, 3_333);
            assert!(quote.executable);
            assert_eq!(quote.post_marginal_price, n(20));
            assert_eq!(quote.market, address(1));
        }
        _ => panic!("the quote is complete"),
    }
}

#[test]
fn refuses_to_quote_nothing_or_too_much() {
    let job = QuoteJob::new(&settings(), address(1), n(4), SellAmount::Exact(U256::zero()));
    match job.advance(QuoteReply::Decimals(2)) {
        QuoteStep::Refused(error) => {
            assert_eq!(error, QuoteError::ZeroAmount);
            assert_eq!(error.message(), "OT amount is zero; no sell quote can be produced");
        }
        _ => panic!("nothing is no amount"),
    }
    let job = QuoteJob::new(&settings(), address(1), n(4), SellAmount::Exact(n(5)));
    let job = ask(job.advance(QuoteReply::Decimals(2)));
    let job = ask(job.advance(QuoteReply::Curve(address(6))));
    match job.advance(QuoteReply::Number(n(4))) {
        QuoteStep::Refused(error) => {
            assert_eq!(error.message(), "OT amount exceeds current token supply");
        }
        _ => panic!("there are only four"),
    }
}

fn text(record: &JsonObject, name: &str) -> String {
    record.get(name).and_then(|value| value.as_str()).unwrap().to_owned()
}

fn number(record: &JsonObject, name: &str) -> u64 {
    record.get(name).and_then(|value| value.as_u64()).unwrap()
}

#[test]
fn records_a_quote() {
    let record = quote_sell_record(99, &quote());
    assert_eq!(record.len(), 22);
    assert_eq!(number(&record, "ts_ms"), 99);
    assert_eq!(text(&record, "context"), "quote_sell");
    assert!(record.get("sample_offset_ms").unwrap().is_null());
    assert_eq!(text(&record, "market"), address(1).to_checksummed());
    assert_eq!(text(&record, "token_id"), "4");
    assert_eq!(number(&record, "ot_decimals"), 2);
    assert_eq!(text(&record, "ot_amount"), "500");
    assert_eq!(text(&record, "pre_supply"), "2000");
    assert_eq!(text(&record, "post_supply"), "1500");
    assert_eq!(text(&record, "pre_marginal_price"), "30");
    assert_eq!(text(&record, "post_marginal_price"), "20");
    assert_eq!(text(&record, "spot_collateral_value"), "150");
    assert_eq!(text(&record, "collateral_to_user"), "90");
    assert_eq!(text(&record, "collateral_to_treasury"), "10");
    assert_eq!(text(&record, "extra_sell_tax"), "4");
    assert_eq!(text(&record, "estimated_net_to_user"), "86");
    assert_eq!(number(&record, "slippage_bps"), 3_333);
    assert_eq!(number(&record, "protocol_tax_bps"), 1_000);
    assert_eq!(number(&record, "extra_tax_bps"), 500);
    assert_eq!(number(&record, "effective_loss_bps"), 4_266);
    assert_eq!(record.get("executable").and_then(|value| value.as_bool()), Some(false));
    assert_eq!(text(&record, "reason"), "slippage 3333 bps exceeds max 3000 bps");
}

#[test]
fn records_a_quote_in_its_context() {
    let record = sell_quote_record(99, "other", Some(5), &quote());
    assert_eq!(text(&record, "context"), "other");
    assert_eq!(number(&record, "sample_offset_ms"), 5);
}

#[test]
fn records_what_was_skipped() {
    let record = skip_record(99, "c", &address(1), n(4), Some(10), "no \"luck\"\n");
    assert_eq!(
        jsonl_line(&record),
        "{\"context\":\"c\",\"market\":\"0x0101010101010101010101010101010101010101\",\"reason\":\"no \\\"luck\\\"\\n\",\"sample_offset_ms\":10,\"skipped\":true,\"token_id\":\"4\",\"ts_ms\":99}\n"
    );
}

#[test]
fn prints_a_quote() {
    let record = quote_for_display(&quote());
    assert_eq!(record.len(), 15);
    assert!(record.get("pre_supply").is_none());
    assert!(record.get("ts_ms").is_none());
    let printed = pretty_text(&record);
    assert!(printed.starts_with("{\n  \"collateral_to_treasury\": \"10\",\n"));
}

#[test]
fn samples_prices_only_after_a_real_buy() {
    let mut settings = settings();
    match sampler_plan(&settings) {
        SamplerPlan::Sample(mut sampler) => {
            assert_eq!(sampler.token_id, n(4));
            assert_eq!(sampler.next_sample(), Some(0));
            assert_eq!(sampler.next_sample(), Some(10_000));
            assert_eq!(sampler.next_sample(), Some(60_000));
            assert_eq!(sampler.next_sample(), None);
            assert_eq!(sampler.next_sample(), None);
            assert_eq!(sampler.next, 3);
        }
        _ => panic!("prices are sampled"),
    }
    settings.strategy.outcome_token_id = "x".to_owned();
    assert!(matches!(sampler_plan(&settings), SamplerPlan::Invalid(_)));
    settings.strategy.dry_run = true;
    assert!(matches!(sampler_plan(&settings), SamplerPlan::Off));
    settings.strategy.dry_run = false;
    settings.pricing.enabled = false;
    assert!(matches!(sampler_plan(&settings), SamplerPlan::Off));
}

#[test]
fn records_samples() {
    let good = sample_record(1, &address(1), n(4), 10_000, &Ok(quote()));
    assert_eq!(text(&good, "context"), "post_buy_price_sample");
    assert_eq!(number(&good, "sample_offset_ms"), 10_000);
    assert_eq!(text(&good, "ot_amount"), "500");
    let bad = sample_record(1, &address(1), n(4), 0, &Err("timeout".to_owned()));
    assert_eq!(text(&bad, "context"), "post_buy_price_sample");
    assert_eq!(number(&bad, "sample_offset_ms"), 0);
    assert_eq!(text(&bad, "reason"), "timeout");
    assert_eq!(bad.get("skipped").and_then(|value| value.as_bool()), Some(true));
}

#[test]
fn reads_the_target_of_a_quote() {
    let mut settings = settings();
    let market = address(7).to_hex();
    let (target, token_id) = quote_target(&settings, &market).unwrap();
    assert_eq!(target, address(7));
    assert_eq!(token_id, n(4));
    assert_eq!(quote_target(&settings, "m").unwrap_err().message(), "failed to parse market");
    settings.rpc.chain_id = 0;
    assert_eq!(
        quote_target(&settings, "m").unwrap_err().message(),
        "rpc.chain_id must be greater than zero"
    );
}

#[test]
fn finds_the_amount_of_a_quote() {
    let units = amount_source(Some("1.5".to_owned()), Some("w".to_owned())).unwrap();
    assert!(matches!(units, AmountSource::Units(text) if text == "1.5"));
    let wallet = amount_source(None, Some(address(7).to_hex())).unwrap();
    assert!(matches!(wallet, AmountSource::Wallet(found) if found == address(7)));
    assert!(matches!(amount_source(None, None).unwrap(), AmountSource::OwnWallet));
    let error = amount_source(None, Some("w".to_owned())).unwrap_err();
    assert_eq!(error.message(), "failed to parse wallet");
    let exact = exact_amount(&settings(), "1.5", 3).unwrap();
    assert!(matches!(exact, SellAmount::Exact(amount) if amount == n(1_500)));
    let refused = exact_amount(&settings(), "1.5", 0).unwrap_err();
    assert_eq!(refused.message(), "amount_units has more precision than collateral_decimals");
}
