use forty_two_sniper::abi::{announcement_topic, approve_calldata, mint_calldata};
use forty_two_sniper::address::{Address, TxHash};
use forty_two_sniper::commands::{start_plan, subscription};
use forty_two_sniper::config::{
    ContractConfig, FilterConfig, LatencyConfig, MetadataConfig, PricingConfig, RpcConfig,
    Settings, StrategyConfig, WalletConfig,
};
use forty_two_sniper::execution::{
    approval_parties, bumped_gas_price, dispatch_approval, dispatch_buy, order_approval, order_buy,
    Dispatch,
};
use forty_two_sniper::json::{jsonl_line, JsonObject};
use forty_two_sniper::latency::LatencyLogger;
use forty_two_sniper::rate_limit::RpcRateLimiter;
use forty_two_sniper::u256::U256;
use forty_two_sniper::watch::{
    read_new_market, stream_ended_text, MarketWatch, NewMarket, WatchEvent, WatchStep,
};

const ROUTER: &str = "0x88888888338e60bfB4657187169cFFa5c8640E42";
const COLLATERAL: &str = "0x55d398326f99059fF775485246999027B3197955";

fn settings() -> Settings {
    Settings {
        rpc: RpcConfig {
            http_url: "https://bsc.example".to_owned(),
            ws_url: "wss://bsc.example".to_owned(),
            chain_id: 56,
            max_requests_per_second: 15,
        },
        wallet: WalletConfig { private_key_env: "KEY".to_owned() },
        contracts: ContractConfig {
            controller: "0xF21b2D4F8989b27f732e369907F25f0E8D95Fe62".to_owned(),
            router: ROUTER.to_owned(),
            collateral: COLLATERAL.to_owned(),
        },
        strategy: StrategyConfig {
            outcome_token_id: "1".to_owned(),
            buy_amount_units: "10".to_owned(),
            collateral_decimals: 2,
            min_out_or_max_in: "3".to_owned(),
            gas_limit: 300_000,
            gas_price_bump_bps: 2_000,
            dry_run: true,
            wait_for_receipt: true,
        },
        pricing: PricingConfig::default(),
        metadata: MetadataConfig::default(),
        filters: FilterConfig::default(),
        latency: LatencyConfig {
            enabled: true,
            log_path: "logs/latency.jsonl".to_owned(),
            provider_label: "tokyo".to_owned(),
        },
    }
}

fn address(byte: u8) -> Address {
    Address { bytes: [byte; 20] }
}

fn word(last: &[u8]) -> Vec<u8> {
    let mut word = vec![0; 32 - last.len()];
    word.extend_from_slice(last);
    word
}

#[test]
fn encodes_a_mint() {
    let calldata = mint_calldata(
        &address(0x11),
        &address(0x22),
        U256::from(7u64),
        U256::from(258u64),
        U256::from(9u64),
    );
    let mut expected = vec![0x36, 0x94, 0xe6, 0x55];
    expected.extend(word(&[0x11; 20]));
    expected.extend(word(&[0x22; 20]));
    expected.extend(word(&[7]));
    expected.extend(word(&[1]));
    expected.extend(word(&[1, 2]));
    expected.extend(word(&[1]));
    expected.extend(word(&[9]));
    expected.extend(word(&[1, 0x20]));
    expected.extend(word(&[1, 0x40]));
    expected.extend(word(&[]));
    expected.extend(word(&[]));
    assert_eq!(calldata, expected);
}

#[test]
fn encodes_an_approval() {
    let calldata = approve_calldata(&address(0x33), U256::max_value());
    let mut expected = vec![0x09, 0x5e, 0xa7, 0xb3];
    expected.extend(word(&[0x33; 20]));
    expected.extend([0xff; 32]);
    assert_eq!(calldata, expected);
}

#[test]
fn bumps_the_gas_price() {
    assert_eq!(bumped_gas_price(1_000, 2_000), 1_200);
    assert_eq!(bumped_gas_price(1_001, 1), 1_001);
    assert_eq!(bumped_gas_price(5, 0), 5);
    assert_eq!(bumped_gas_price(u128::MAX / 10_000, 0), u128::MAX / 10_000);
    assert_eq!(bumped_gas_price(u128::MAX / 10_000, 1), u128::MAX / 10_000);
    assert_eq!(bumped_gas_price(u128::MAX, 2_000), u128::MAX / 10_000);
}

#[test]
fn sends_nothing_in_a_dry_run() {
    let settings = settings();
    let order = order_buy(&settings, &address(1), &address(2)).unwrap();
    assert_eq!(order.amount, U256::from(1_000u64));
    assert_eq!(order.token_id, U256::from(1u64));
    match dispatch_buy(&settings, order, 1_000) {
        Dispatch::DryRun { gas_price } => assert_eq!(gas_price, 1_200),
        Dispatch::Send { .. } => panic!("nothing is sent in a dry run"),
    }
}

#[test]
fn sends_a_buy() {
    let mut settings = settings();
    settings.strategy.dry_run = false;
    let order = order_buy(&settings, &address(1), &address(2)).unwrap();
    match dispatch_buy(&settings, order, 1_000) {
        Dispatch::DryRun { .. } => panic!("the buy is sent"),
        Dispatch::Send { tx, wait_for_receipt } => {
            assert_eq!(tx.to.to_checksummed(), ROUTER);
            assert_eq!(tx.chain_id, 56);
            assert_eq!(tx.gas_limit, 300_000);
            assert_eq!(tx.gas_price, 1_200);
            assert!(wait_for_receipt);
            let expected = mint_calldata(
                &address(2),
                &address(1),
                U256::from(1u64),
                U256::from(1_000u64),
                U256::from(3u64),
            );
            assert_eq!(tx.input, expected);
        }
    }
}

#[test]
fn orders_whatever_a_checked_configuration_asks_for() {
    let settings = settings();
    assert!(settings.validate().is_ok());
    assert!(order_buy(&settings, &address(1), &address(2)).is_ok());
    let (token, router) = approval_parties(&settings).unwrap();
    assert!(order_approval(&settings, token, router, U256::zero(), false).is_ok());
}

#[test]
fn orders_no_buy_with_a_broken_configuration() {
    let mut broken = settings();
    broken.strategy.min_out_or_max_in = "x".to_owned();
    let message = order_buy(&broken, &address(1), &address(2)).unwrap_err().message();
    assert!(message.starts_with("strategy.min_out_or_max_in"));
    broken.strategy.outcome_token_id = "x".to_owned();
    let message = order_buy(&broken, &address(1), &address(2)).unwrap_err().message();
    assert!(message.starts_with("strategy.outcome_token_id"));
    broken.strategy.buy_amount_units = "-1".to_owned();
    let message = order_buy(&broken, &address(1), &address(2)).unwrap_err().message();
    assert_eq!(message, "strategy.buy_amount_units must not be negative");
    broken.contracts.router = "x".to_owned();
    let message = order_buy(&broken, &address(1), &address(2)).unwrap_err().message();
    assert!(message.starts_with("contracts.router"));
}

#[test]
fn approves_only_what_is_missing() {
    let mut settings = settings();
    let (token, router) = approval_parties(&settings).unwrap();
    assert_eq!(token.to_checksummed(), COLLATERAL);
    assert_eq!(router.to_checksummed(), ROUTER);
    let enough = order_approval(&settings, token, router, U256::from(1_000u64), false).unwrap();
    assert!(enough.is_none());
    let short = order_approval(&settings, token, router, U256::from(999u64), false).unwrap();
    assert_eq!(short.unwrap().amount, U256::from(1_000u64));
    let infinite = order_approval(&settings, token, router, U256::from(1_000u64), true).unwrap();
    let order = infinite.unwrap();
    assert_eq!(order.amount, U256::max_value());
    assert_eq!(order.calldata, approve_calldata(&router, U256::max_value()));
    let dry = dispatch_approval(&settings, order, 10_000);
    assert!(matches!(dry, Dispatch::DryRun { gas_price: 12_000 }));
    settings.strategy.dry_run = false;
    settings.strategy.wait_for_receipt = false;
    let order = order_approval(&settings, token, router, U256::zero(), false).unwrap().unwrap();
    match dispatch_approval(&settings, order, 10_000) {
        Dispatch::DryRun { .. } => panic!("the approval is sent"),
        Dispatch::Send { tx, wait_for_receipt } => {
            assert_eq!(tx.to, token);
            assert_eq!(tx.gas_limit, 80_000);
            assert_eq!(tx.gas_price, 12_000);
            assert!(wait_for_receipt);
        }
    }
    settings.strategy.buy_amount_units = String::new();
    assert!(order_approval(&settings, token, router, U256::zero(), false).is_err());
    assert!(order_approval(&settings, token, router, U256::zero(), true).is_ok());
    settings.contracts.router = "x".to_owned();
    assert!(approval_parties(&settings).unwrap_err().message().starts_with("contracts.router"));
    settings.contracts.collateral = "x".to_owned();
    assert!(approval_parties(&settings).unwrap_err().message().starts_with("contracts.collateral"));
}

#[test]
fn spaces_requests() {
    let mut limiter = RpcRateLimiter::new(3, 50);
    assert_eq!(limiter.min_interval_ns, 333_333_334);
    assert_eq!(limiter.wait(50), 0);
    limiter.grant(100);
    assert_eq!(limiter.wait(100), 333_333_334);
    assert_eq!(limiter.wait(333_333_433), 1);
    assert_eq!(limiter.wait(333_333_434), 0);
    assert_eq!(limiter.wait(u128::MAX), 0);
    assert_eq!(RpcRateLimiter::new(0, 0).min_interval_ns, 1_000_000_000);
    assert_eq!(RpcRateLimiter::new(u32::MAX, 0).min_interval_ns, 1);
}

#[test]
fn lets_no_more_requests_go_than_the_pace_allows() {
    let mut limiter = RpcRateLimiter::new(15, 0);
    let mut now: u128 = 0;
    let mut granted: Vec<u128> = Vec::new();
    for _ in 0..40 {
        now += limiter.wait(now);
        limiter.grant(now);
        granted.push(now);
    }
    for i in 0..25 {
        assert!(granted[i + 15] - granted[i] >= 1_000_000_000);
    }
}

fn log(market: u8, collateral: Address) -> WatchEvent {
    WatchEvent::Log(Some(NewMarket {
        market: address(market),
        collateral,
        parent_token_id: U256::zero(),
        question_id: TxHash { bytes: [0; 32] },
        curve: address(0),
        timestamp_start: U256::zero(),
    }))
}

#[test]
fn buys_each_market_once() {
    let mut settings = settings();
    let collateral = settings.collateral_address().unwrap();
    let mut watch = MarketWatch::new();
    assert_eq!(watch.on_event(&settings, WatchEvent::Log(None)), WatchStep::IgnoreUndecodable);
    assert_eq!(
        watch.on_event(&settings, log(1, collateral)),
        WatchStep::Buy { fetch_metadata: false }
    );
    assert_eq!(watch.on_event(&settings, log(1, collateral)), WatchStep::IgnoreDuplicate);
    assert_eq!(watch.on_event(&settings, log(2, address(9))), WatchStep::IgnoreCollateral);
    assert_eq!(watch.on_event(&settings, log(2, collateral)), WatchStep::IgnoreDuplicate);
    settings.metadata.enabled = true;
    assert_eq!(
        watch.on_event(&settings, log(3, collateral)),
        WatchStep::Buy { fetch_metadata: true }
    );
    assert_eq!(watch.on_event(&settings, WatchEvent::StreamEnded), WatchStep::FailStreamEnded);
    assert_eq!(watch.on_event(&settings, WatchEvent::Shutdown), WatchStep::Stop);
    assert_eq!(stream_ended_text(), "websocket log stream ended");
}

#[test]
fn samples_prices_after_a_buy_that_succeeded() {
    let settings = settings();
    let collateral = settings.collateral_address().unwrap();
    let mut watch = MarketWatch::new();
    assert_eq!(watch.on_event(&settings, WatchEvent::BuyEnded { bought: true }), WatchStep::Wait);
    watch.on_event(&settings, log(1, collateral));
    assert_eq!(
        watch.on_event(&settings, WatchEvent::BuyEnded { bought: true }),
        WatchStep::Sample { market: address(1) }
    );
    assert_eq!(watch.on_event(&settings, WatchEvent::BuyEnded { bought: true }), WatchStep::Wait);
    watch.on_event(&settings, log(2, collateral));
    assert_eq!(watch.on_event(&settings, WatchEvent::BuyEnded { bought: false }), WatchStep::Wait);
    assert_eq!(watch.on_event(&settings, log(2, collateral)), WatchStep::IgnoreDuplicate);
    assert_eq!(watch.on_event(&settings, WatchEvent::BuyEnded { bought: true }), WatchStep::Wait);
    assert_eq!(
        watch.on_event(&settings, log(3, collateral)),
        WatchStep::Buy { fetch_metadata: false }
    );
}

fn announcement() -> (Vec<[u8; 32]>, Vec<u8>) {
    let signature = "CreateNewMarket(address,address,uint256,bytes32,address,uint256)";
    let mut market = [0xee; 32];
    market[12..].copy_from_slice(&[0x11; 20]);
    let topics = vec![alloy::primitives::keccak256(signature).0, market];
    let mut data = word(&[0x22; 20]);
    data.extend(word(&[1, 0]));
    data.extend([0x33; 32]);
    data.extend(word(&[0x44; 20]));
    data.extend(word(&[7]));
    (topics, data)
}

#[test]
fn listens_for_new_markets() {
    let (topics, _) = announcement();
    assert_eq!(announcement_topic(), topics[0]);
    let mut settings = settings();
    let wanted = subscription(&settings).unwrap();
    assert_eq!(wanted.ws_url, settings.rpc.ws_url);
    assert_eq!(wanted.controller, settings.controller_address().unwrap());
    assert_eq!(wanted.topic, topics[0]);
    settings.contracts.controller = "0x12".to_owned();
    assert_eq!(
        subscription(&settings).unwrap_err().message(),
        settings.validate().unwrap_err().message()
    );
}

#[test]
fn names_the_key_only_for_a_checked_configuration() {
    let mut settings = settings();
    let plan = start_plan(&settings).unwrap();
    assert_eq!(plan.key_variable, settings.wallet.private_key_env);
    assert_eq!(plan.http_url, settings.rpc.http_url);
    assert_eq!(plan.max_requests_per_second, settings.rpc.max_requests_per_second);
    settings.strategy.gas_limit = 0;
    assert_eq!(
        start_plan(&settings).unwrap_err().message(),
        settings.validate().unwrap_err().message()
    );
}

#[test]
fn reads_the_log_of_a_new_market() {
    let (topics, mut data) = announcement();
    let new = read_new_market(&topics, &data).unwrap();
    assert_eq!(new.market, address(0x11));
    assert_eq!(new.collateral, address(0x22));
    assert_eq!(new.parent_token_id, U256::from(256u64));
    assert_eq!(new.question_id, TxHash { bytes: [0x33; 32] });
    assert_eq!(new.curve, address(0x44));
    assert_eq!(new.timestamp_start, U256::from(7u64));
    data[0] = 0xff;
    data.push(1);
    assert_eq!(read_new_market(&topics, &data).unwrap().collateral, address(0x22));
}

#[test]
fn refuses_other_logs() {
    let (topics, mut data) = announcement();
    assert!(read_new_market(&vec![topics[0]], &data).is_none());
    assert!(read_new_market(&vec![topics[0], topics[1], topics[1]], &data).is_none());
    assert!(read_new_market(&vec![topics[1], topics[1]], &data).is_none());
    data.pop();
    assert!(read_new_market(&topics, &data).is_none());
    assert!(read_new_market(&topics, &vec![]).is_none());
}

#[test]
fn reads_nested_members_back() {
    let logger = LatencyLogger::from_settings(&settings());
    let text = "{\"list\":[-3,{\"a.b\":\"1e5 \\\" [\"},true],\"loss\":-7}";
    let extra: JsonObject = serde_json::from_str(text).unwrap();
    let record = logger.record(7, "submit", 12, None, Some(extra)).unwrap();
    let line = jsonl_line(&record);
    let read: JsonObject = serde_json::from_str(line.trim_end()).unwrap();
    assert_eq!(read, record);
    assert_eq!(read.len(), 6);
}

#[test]
fn records_how_long_a_stage_took() {
    let logger = LatencyLogger::from_settings(&settings());
    assert_eq!(logger.log_path, "logs/latency.jsonl");
    let mut extra: JsonObject = serde_json::Map::new();
    extra.insert("stage".to_owned(), serde_json::Value::from("other"));
    extra.insert("attempt".to_owned(), serde_json::Value::from(2));
    let market = settings().collateral_address().unwrap();
    let record = logger.record(7, "submit", 12, Some(market), Some(extra)).unwrap();
    assert_eq!(
        jsonl_line(&record),
        format!(
            "{{\"attempt\":2,\"elapsed_ms\":12,\"market\":\"{COLLATERAL}\",\"provider\":\"tokyo\",\"stage\":\"other\",\"ts_ms\":7}}\n"
        )
    );
    let plain = logger.record(7, "submit", 12, None, None).unwrap();
    assert_eq!(plain.len(), 4);
    assert_eq!(plain.get("stage").and_then(|value| value.as_str()), Some("submit"));
    let mut off = settings();
    off.latency.enabled = false;
    assert!(LatencyLogger::from_settings(&off).record(7, "submit", 12, None, None).is_none());
}
