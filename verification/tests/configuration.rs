use forty_two_sniper::address::Address;
use forty_two_sniper::config::{
    default_buy_amount, default_chain_id, default_decimals, default_gas_bump_bps,
    default_gas_limit, default_max_requests_per_second, default_private_key_env, default_token_id,
    default_true, ContractConfig, FilterConfig, LatencyConfig, MetadataConfig, PricingConfig,
    RpcConfig, Settings, StrategyConfig, WalletConfig,
};
use forty_two_sniper::fields::{parse_address, parse_token_units, parse_u256, ConfigError};
use forty_two_sniper::u256::U256;
use forty_two_sniper::urls::{
    endpoint_url, market_url, markets_url, query_pairs, redact_path, redact_segment, redact_url,
    try_markets_url, try_redact_url,
};

fn settings() -> Settings {
    Settings {
        rpc: RpcConfig {
            http_url: "https://bsc.example/rpc".to_owned(),
            ws_url: "wss://bsc.example/ws".to_owned(),
            chain_id: default_chain_id(),
            max_requests_per_second: default_max_requests_per_second(),
        },
        wallet: WalletConfig { private_key_env: default_private_key_env() },
        contracts: ContractConfig {
            controller: "0xF21b2D4F8989b27f732e369907F25f0E8D95Fe62".to_owned(),
            router: "0x88888888338e60bfB4657187169cFFa5c8640E42".to_owned(),
            collateral: "0x55d398326f99059fF775485246999027B3197955".to_owned(),
        },
        strategy: StrategyConfig {
            outcome_token_id: default_token_id(),
            buy_amount_units: default_buy_amount(),
            collateral_decimals: default_decimals(),
            min_out_or_max_in: String::new(),
            gas_limit: default_gas_limit(),
            gas_price_bump_bps: default_gas_bump_bps(),
            dry_run: default_true(),
            wait_for_receipt: false,
        },
        pricing: PricingConfig::default(),
        metadata: MetadataConfig::default(),
        filters: FilterConfig::default(),
        latency: LatencyConfig::default(),
    }
}

#[test]
fn parses_units_with_decimals() {
    let parsed = parse_token_units("x", "10.25", 18).unwrap();
    assert_eq!(parsed.to_decimal(), "10250000000000000000");
}

#[test]
fn rejects_excess_precision() {
    let err = parse_token_units("x", "1.123", 2).unwrap_err();
    assert!(err.message().contains("more precision"));
}

#[test]
fn redacts_rpc_url_path_tokens() {
    let redacted =
        redact_url("https://example.quiknode.pro/9c2d108bc3e3e72a415759f317f9e050bd04c311/");
    assert_eq!(redacted, "https://example.quiknode.pro/9c2d...c311/");
}

#[test]
fn reads_amounts_without_a_fraction_or_a_whole_part() {
    assert_eq!(parse_token_units("x", "7", 3).unwrap().to_decimal(), "7000");
    assert_eq!(parse_token_units("x", "7.", 3).unwrap().to_decimal(), "7000");
    assert_eq!(parse_token_units("x", ".5", 3).unwrap().to_decimal(), "500");
    assert_eq!(parse_token_units("x", ".", 3).unwrap().to_decimal(), "0");
    assert_eq!(parse_token_units("x", " 1_0.5 \n", 1).unwrap().to_decimal(), "105");
    assert_eq!(parse_token_units("x", "12.345", 3).unwrap().to_decimal(), "12345");
    assert_eq!(parse_token_units("x", "12", 0).unwrap().to_decimal(), "12");
}

#[test]
fn says_why_an_amount_is_refused() {
    let empty = parse_token_units("f", "  ", 3).unwrap_err();
    assert_eq!(empty, ConfigError::EmptyAmount { field: "f".to_owned() });
    assert_eq!(empty.message(), "f must not be empty");
    let negative = parse_token_units("f", "-1", 3).unwrap_err();
    assert_eq!(negative.message(), "f must not be negative");
    let points = parse_token_units("f", "1.2.3", 3).unwrap_err();
    assert_eq!(points.message(), "f has too many decimal points");
    let precision = parse_token_units("f", "1.2345", 3).unwrap_err();
    assert_eq!(precision.message(), "f has more precision than collateral_decimals");
    let digit = parse_token_units("f", "1x.2", 3).unwrap_err();
    assert_eq!(digit.message(), "f is not a valid uint256: invalid digit: x");
    let large = "9".repeat(78);
    let overflow = parse_token_units("f", &large, 0).unwrap_err();
    assert!(overflow.message().starts_with("f is not a valid uint256: "));
}

#[test]
fn reads_integers() {
    assert_eq!(parse_u256("f", " 42 ").unwrap(), U256::from(42u64));
    assert_eq!(parse_u256("f", "   ").unwrap(), U256::zero());
    let largest = "115792089237316195423570985008687907853269984665640564039457584007913129639935";
    assert_eq!(parse_u256("f", largest).unwrap(), U256::max_value());
    assert_eq!(U256::max_value().to_decimal(), largest);
    let above = "115792089237316195423570985008687907853269984665640564039457584007913129639936";
    assert!(parse_u256("f", above).is_err());
    assert!(parse_u256("f", "0x10").is_err());
}

#[test]
fn reads_addresses() {
    let address = parse_address("f", "0x55d398326f99059ff775485246999027b3197955").unwrap();
    assert_eq!(address.to_checksummed(), "0x55d398326f99059fF775485246999027B3197955");
    assert_eq!(address.to_hex(), "0x55d398326f99059ff775485246999027b3197955");
    let bare = parse_address("f", "55D398326F99059FF775485246999027B3197955").unwrap();
    assert_eq!(address, bare);
    let capital = parse_address("f", "0X55d398326f99059ff775485246999027b3197955").unwrap();
    assert_eq!(address, capital);
    let short = parse_address("f", "0x55").unwrap_err();
    assert_eq!(short.message(), "f is not a valid address: invalid string length");
}

#[test]
fn redacts_only_what_is_secret() {
    assert_eq!(redact_segment(""), "");
    assert_eq!(redact_segment("short"), "***");
    assert_eq!(redact_segment("123456789012345"), "***");
    assert_eq!(redact_segment("1234567890123456"), "1234...3456");
    assert_eq!(redact_segment("1234____________________3456"), "1234...3456");
    let segments = vec!["v3".to_owned(), "1234567890123456".to_owned(), "".to_owned()];
    assert_eq!(redact_path(&segments), "***/1234...3456/");
    assert_eq!(redact_url("https://host.example"), "https://host.example/");
    assert_eq!(redact_url("https://host.example/v3/abc?x=1"), "https://host.example/***/***?x=1");
    assert_eq!(redact_url("no url but a long secret"), "no u...cret");
    assert_eq!(redact_url("mailto:someone@host.example"), "mailto:someone@host.example");
}

#[test]
fn redacts_where_it_can() {
    assert_eq!(try_redact_url("https://host.example/abc").unwrap(), "https://host.example/***");
    assert_eq!(try_redact_url("not a url"), Some("***".to_owned()));
    assert_eq!(try_redact_url("123\u{e9}5678901234567"), None);
}

#[test]
fn reads_the_address_of_a_node() {
    assert_eq!(endpoint_url("HTTPS://Node.Example/key"), Ok("https://node.example/key".to_owned()));
    assert_eq!(endpoint_url("https://node.example"), Ok("https://node.example/".to_owned()));
    assert_eq!(endpoint_url("node"), Err("relative URL without a base".to_owned()));
}

#[test]
fn builds_the_addresses_of_markets() {
    let market = parse_address("f", "0x55d398326f99059ff775485246999027b3197955").unwrap();
    assert_eq!(
        market_url("https://rest.ft.42.space/api/v1//", &market).unwrap(),
        "https://rest.ft.42.space/api/v1/markets/0x55d398326f99059ff775485246999027b3197955"
    );
    assert_eq!(market_url("nowhere", &market).unwrap_err(), "relative URL without a base");
    assert_eq!(
        markets_url("https://a.example/v1/", 5, 10, "created at", &Some("live&open".to_owned()))
            .unwrap(),
        "https://a.example/v1/markets?limit=5&offset=10&order=created+at&status=live%26open"
    );
    assert_eq!(
        try_markets_url("https://a.example", 1, 0, "desc", &Some("  ".to_owned())).unwrap().unwrap(),
        "https://a.example/markets?limit=1&offset=0&order=desc"
    );
    assert_eq!(
        try_markets_url("https://a.example", 1, 0, "desc", &None).unwrap().unwrap(),
        "https://a.example/markets?limit=1&offset=0&order=desc"
    );
    assert!(try_markets_url("nowhere", 1, 0, "desc", &None).unwrap().is_err());
    let pairs = query_pairs(1, 0, "desc", &Some("live".to_owned()));
    assert_eq!(pairs.len(), 4);
    assert_eq!(pairs[3], ("status".to_owned(), "live".to_owned()));
}

#[test]
fn addresses_and_numbers_read_back() {
    let address = parse_address("f", "0x00000000338e60bfB4657187169cFFa5c8640E42").unwrap();
    assert_eq!(parse_address("f", &address.to_hex()).unwrap(), address);
    assert_eq!(parse_address("f", &address.to_checksummed()).unwrap(), address);
    let number = U256 { w0: 1, w1: 2, w2: 3, w3: 4 };
    assert_eq!(parse_u256("f", &number.to_decimal()).unwrap(), number);
}

#[test]
fn accepts_a_complete_configuration() {
    let settings = settings();
    assert!(settings.validate().is_ok());
    assert_eq!(settings.buy_amount().unwrap().to_decimal(), "10000000000000000000");
    assert_eq!(settings.outcome_token_id().unwrap(), U256::from(1u64));
    assert_eq!(settings.min_out_or_max_in().unwrap(), U256::zero());
    assert_eq!(
        settings.controller_address().unwrap().to_checksummed(),
        "0xF21b2D4F8989b27f732e369907F25f0E8D95Fe62"
    );
    assert_eq!(settings.parse_units("u", "1.5", 1).unwrap(), U256::from(15u64));
}

#[test]
fn reports_the_first_thing_that_is_wrong() {
    let mut broken = settings();
    broken.pricing.extra_sell_tax_bps = 10_001;
    assert_eq!(
        broken.validate().unwrap_err().message(),
        "pricing.extra_sell_tax_bps must be less than or equal to 10000"
    );
    broken.pricing.max_sell_slippage_bps = 10_001;
    assert_eq!(
        broken.validate().unwrap_err().message(),
        "pricing.max_sell_slippage_bps must be less than or equal to 10000"
    );
    broken.strategy.gas_limit = 0;
    assert_eq!(
        broken.validate().unwrap_err().message(),
        "strategy.gas_limit must be greater than zero"
    );
    broken.rpc.max_requests_per_second = 0;
    assert_eq!(
        broken.validate().unwrap_err().message(),
        "rpc.max_requests_per_second must be greater than zero"
    );
    broken.rpc.chain_id = 0;
    assert_eq!(
        broken.validate().unwrap_err().message(),
        "rpc.chain_id must be greater than zero"
    );
    broken.rpc.ws_url = " ".to_owned();
    assert_eq!(broken.validate().unwrap_err().message(), "rpc.ws_url must not be empty");
    broken.rpc.http_url = "\t".to_owned();
    assert_eq!(broken.validate().unwrap_err().message(), "rpc.http_url must not be empty");
    broken.strategy.min_out_or_max_in = "m".to_owned();
    assert_eq!(
        broken.validate().unwrap_err().message(),
        "strategy.min_out_or_max_in is not a valid uint256: invalid digit: m"
    );
    broken.strategy.buy_amount_units = String::new();
    assert_eq!(
        broken.validate().unwrap_err().message(),
        "strategy.buy_amount_units must not be empty"
    );
    broken.strategy.outcome_token_id = "t".to_owned();
    assert_eq!(
        broken.validate().unwrap_err().message(),
        "strategy.outcome_token_id is not a valid uint256: invalid digit: t"
    );
    broken.contracts.collateral = "c".to_owned();
    assert!(broken.validate().unwrap_err().message().starts_with("contracts.collateral is not"));
    broken.contracts.router = "r".to_owned();
    assert!(broken.validate().unwrap_err().message().starts_with("contracts.router is not"));
    broken.contracts.controller = "c".to_owned();
    assert!(broken.validate().unwrap_err().message().starts_with("contracts.controller is not"));
}

#[test]
fn accepts_slippage_and_tax_up_to_the_whole() {
    let mut settings = settings();
    settings.pricing.max_sell_slippage_bps = 10_000;
    settings.pricing.extra_sell_tax_bps = 10_000;
    assert!(settings.validate().is_ok());
}

#[test]
fn shows_a_configuration_without_its_secrets() {
    let mut settings = settings();
    settings.rpc.http_url =
        "https://example.quiknode.pro/9c2d108bc3e3e72a415759f317f9e050bd04c311/".to_owned();
    let shown = settings.redacted_for_display();
    assert_eq!(shown.rpc.http_url, "https://example.quiknode.pro/9c2d...c311/");
    assert_eq!(shown.rpc.ws_url, "wss://bsc.example/***");
    assert_eq!(shown.rpc.chain_id, 56);
    assert_eq!(shown.contracts.router, settings.contracts.router);
    assert_eq!(shown.pricing.sample_offsets_ms, vec![0, 10_000, 60_000]);
    assert_eq!(settings.try_redacted_for_display().unwrap().rpc.ws_url, "wss://bsc.example/***");
    settings.rpc.ws_url = "123\u{e9}5678901234567".to_owned();
    assert!(settings.try_redacted_for_display().is_none());
}

#[test]
fn allows_the_configured_collateral_or_those_that_are_listed() {
    let mut settings = settings();
    let collateral = settings.collateral_address().unwrap();
    let router = settings.router_address().unwrap();
    assert!(settings.is_allowed_collateral(collateral));
    assert!(!settings.is_allowed_collateral(router));
    settings.filters.allowed_collateral =
        vec!["no address".to_owned(), settings.contracts.router.clone()];
    assert!(!settings.is_allowed_collateral(collateral));
    assert!(settings.is_allowed_collateral(router));
    settings.filters.allowed_collateral = Vec::new();
    settings.contracts.collateral = "no address".to_owned();
    assert!(settings.is_allowed_collateral(Address::zero()));
    assert!(!settings.is_allowed_collateral(collateral));
}

fn pair(name: &str, value: &str) -> (String, String) {
    (name.to_owned(), value.to_owned())
}

#[test]
fn lets_the_environment_override_the_configuration() {
    let mut changed = settings();
    changed.apply_env_overrides(&vec![
        pair("SNIPER_HTTP_RPC_URL", "https://b.example"),
        pair("SNIPER_WS_RPC_URL", "wss://b.example"),
        pair("SNIPER_MAX_REQUESTS_PER_SECOND", "+007"),
        pair("SNIPER_BUY_AMOUNT_UNITS", "2.5"),
        pair("SNIPER_DRY_RUN", "no"),
        pair("SNIPER_PRICE_LOG_PATH", "elsewhere.jsonl"),
        pair("SNIPER_OTHER", "x"),
    ]);
    assert_eq!(changed.rpc.http_url, "https://b.example");
    assert_eq!(changed.rpc.ws_url, "wss://b.example");
    assert_eq!(changed.rpc.max_requests_per_second, 7);
    assert_eq!(changed.strategy.buy_amount_units, "2.5");
    assert!(!changed.strategy.dry_run);
    assert_eq!(changed.pricing.log_path, "elsewhere.jsonl");
    assert_eq!(changed.rpc.chain_id, 56);
}

#[test]
fn ignores_a_request_rate_that_is_no_number() {
    for text in ["", "+", "-1", "4294967296", "1 ", "x", "1_0"] {
        let mut kept = settings();
        kept.apply_env_overrides(&vec![pair("SNIPER_MAX_REQUESTS_PER_SECOND", text)]);
        assert_eq!(kept.rpc.max_requests_per_second, 15);
    }
    let mut largest = settings();
    largest.apply_env_overrides(&vec![pair("SNIPER_MAX_REQUESTS_PER_SECOND", "4294967295")]);
    assert_eq!(largest.rpc.max_requests_per_second, 4_294_967_295);
}

#[test]
fn switches_the_dry_run_on_by_a_few_words() {
    for text in ["1", "true", "TRUE", "yes", "YES"] {
        let mut on = settings();
        on.strategy.dry_run = false;
        on.apply_env_overrides(&vec![pair("SNIPER_DRY_RUN", text)]);
        assert!(on.strategy.dry_run);
    }
    for text in ["", "True", "on", "0"] {
        let mut off = settings();
        off.apply_env_overrides(&vec![pair("SNIPER_DRY_RUN", text)]);
        assert!(!off.strategy.dry_run);
    }
    let mut untouched = settings();
    untouched.apply_env_overrides(&vec![]);
    assert!(untouched.strategy.dry_run);
}

#[test]
fn has_defaults() {
    assert_eq!(default_private_key_env(), "SNIPER_PRIVATE_KEY");
    assert_eq!(default_gas_limit(), 300_000);
    assert_eq!(default_gas_bump_bps(), 2_000);
    let pricing = PricingConfig::default();
    assert!(pricing.enabled);
    assert_eq!(pricing.log_path, "logs/prices.jsonl");
    assert_eq!(pricing.max_sell_slippage_bps, 5_000);
    assert_eq!(pricing.extra_sell_tax_bps, 0);
    let metadata = MetadataConfig::default();
    assert!(!metadata.enabled);
    assert_eq!(metadata.rest_base_url, "https://rest.ft.42.space/api/v1");
    assert_eq!(metadata.timeout_ms, 250);
    assert!(!LatencyConfig::default().enabled);
}
