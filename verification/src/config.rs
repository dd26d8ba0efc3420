//! The configuration: its parts, its defaults, its checks and what of it is shown.
use vstd::prelude::*;

use crate::address::{parsed_address, zero_address, Address};
use crate::fields::{
    address_field, address_outcome, number_outcome, parse_address, parse_token_units, parse_u256,
    token_units, uint_field, ConfigError, ConfigErrorView,
};
use crate::text::{chars_of, decimal, digit_value, is_digit, same_text, trim, trimmed};
use crate::u256::{decimal_value, law_decimal_reads_back, U256};
use crate::urls::{pair_views, redact_url, redactable, redacted_url, try_redact_url};

verus! {

/// The whole of a configuration.
#[derive(Debug)]
pub struct Settings {
    pub rpc: RpcConfig,
    pub wallet: WalletConfig,
    pub contracts: ContractConfig,
    pub strategy: StrategyConfig,
    pub pricing: PricingConfig,
    pub metadata: MetadataConfig,
    pub filters: FilterConfig,
    pub latency: LatencyConfig,
}

/// Where the chain is reached, and how often.
#[derive(Debug)]
pub struct RpcConfig {
    pub http_url: String,
    pub ws_url: String,
    pub chain_id: u64,
    pub max_requests_per_second: u32,
}

/// Where the private key is found.
#[derive(Debug)]
pub struct WalletConfig {
    pub private_key_env: String,
}

/// The contracts that are watched and called.
#[derive(Debug)]
pub struct ContractConfig {
    pub controller: String,
    pub router: String,
    pub collateral: String,
}

/// What is bought, and with which transaction.
#[derive(Debug)]
pub struct StrategyConfig {
    pub outcome_token_id: String,
    pub buy_amount_units: String,
    pub collateral_decimals: u8,
    pub min_out_or_max_in: String,
    pub gas_limit: u64,
    pub gas_price_bump_bps: u64,
    pub dry_run: bool,
    pub wait_for_receipt: bool,
}

/// How sell prices are judged and sampled.
#[derive(Debug)]
pub struct PricingConfig {
    pub enabled: bool,
    pub log_path: String,
    pub max_sell_slippage_bps: u64,
    pub extra_sell_tax_bps: u64,
    pub sample_offsets_ms: Vec<u64>,
}

/// Where the metadata of markets is found.
#[derive(Debug)]
pub struct MetadataConfig {
    pub enabled: bool,
    pub rest_base_url: String,
    pub timeout_ms: u64,
}

/// Which markets are bought.
#[derive(Debug)]
pub struct FilterConfig {
    pub allowed_collateral: Vec<String>,
}

/// Where the times of the stages are recorded.
#[derive(Debug)]
pub struct LatencyConfig {
    pub enabled: bool,
    pub log_path: String,
    pub provider_label: String,
}

/// The name of the variable that holds the private key, where none is configured.
pub fn default_private_key_env() -> (name: String)
    ensures
        name@ == "SNIPER_PRIVATE_KEY"@,
{
    "SNIPER_PRIVATE_KEY".to_owned()
}

/// The chain, where none is configured.
pub fn default_chain_id() -> (id: u64)
    ensures
        id == 56,
{
    56
}

/// The number of requests in a second, where none is configured.
pub fn default_max_requests_per_second() -> (rate: u32)
    ensures
        rate == 15,
{
    15
}

/// The outcome that is bought, where none is configured.
pub fn default_token_id() -> (id: String)
    ensures
        id@ == "1"@,
{
    "1".to_owned()
}

/// The amount that is paid, where none is configured.
pub fn default_buy_amount() -> (amount: String)
    ensures
        amount@ == "10"@,
{
    "10".to_owned()
}

/// The decimals of the collateral, where none are configured.
pub fn default_decimals() -> (decimals: u8)
    ensures
        decimals == 18,
{
    18
}

/// The gas limit of a buy, where none is configured.
pub fn default_gas_limit() -> (limit: u64)
    ensures
        limit == 300_000,
{
    300_000
}

/// The bump of the gas price, where none is configured.
pub fn default_gas_bump_bps() -> (bump: u64)
    ensures
        bump == 2_000,
{
    2_000
}

/// A switch that is on where it is not configured.
pub fn default_true() -> (on: bool)
    ensures
        on,
{
    true
}

/// The log of prices, where none is configured.
pub fn default_price_log_path() -> (path: String)
    ensures
        path@ == "logs/prices.jsonl"@,
{
    "logs/prices.jsonl".to_owned()
}

/// The slippage that is accepted, where none is configured.
pub fn default_max_sell_slippage_bps() -> (slippage: u64)
    ensures
        slippage == 5_000,
{
    5_000
}

/// The times between the samples after a buy, where none are configured.
pub fn default_sample_offsets_ms() -> (offsets: Vec<u64>)
    ensures
        offsets@ == seq![0u64, 10_000u64, 60_000u64],
{
    vec![0, 10_000, 60_000]
}

/// The service for metadata, where none is configured.
pub fn default_rest_base_url() -> (url: String)
    ensures
        url@ == "https://rest.ft.42.space/api/v1"@,
{
    "https://rest.ft.42.space/api/v1".to_owned()
}

/// The time that a request for metadata may take, where none is configured.
pub fn default_metadata_timeout_ms() -> (timeout: u64)
    ensures
        timeout == 250,
{
    250
}

impl Default for MetadataConfig {
    fn default() -> (config: MetadataConfig)
        ensures
            !config.enabled,
            config.rest_base_url@ == "https://rest.ft.42.space/api/v1"@,
            config.timeout_ms == 250,
    {
        MetadataConfig {
            enabled: false,
            rest_base_url: default_rest_base_url(),
            timeout_ms: default_metadata_timeout_ms(),
        }
    }
}

impl Default for PricingConfig {
    fn default() -> (config: PricingConfig)
        ensures
            config.enabled,
            config.log_path@ == "logs/prices.jsonl"@,
            config.max_sell_slippage_bps == 5_000,
            config.extra_sell_tax_bps == 0,
            config.sample_offsets_ms@ == seq![0u64, 10_000u64, 60_000u64],
    {
        PricingConfig {
            enabled: true,
            log_path: default_price_log_path(),
            max_sell_slippage_bps: default_max_sell_slippage_bps(),
            extra_sell_tax_bps: 0,
            sample_offsets_ms: default_sample_offsets_ms(),
        }
    }
}

impl Default for FilterConfig {
    fn default() -> (config: FilterConfig)
        ensures
            config.allowed_collateral@.len() == 0,
    {
        FilterConfig { allowed_collateral: Vec::new() }
    }
}

impl Default for LatencyConfig {
    fn default() -> (config: LatencyConfig)
        ensures
            !config.enabled,
            config.log_path@.len() == 0,
            config.provider_label@.len() == 0,
    {
        LatencyConfig { enabled: false, log_path: String::new(), provider_label: String::new() }
    }
}

impl Clone for RpcConfig {
    fn clone(&self) -> (copy: RpcConfig)
        ensures
            copy == *self,
    {
        RpcConfig {
            http_url: self.http_url.clone(),
            ws_url: self.ws_url.clone(),
            chain_id: self.chain_id,
            max_requests_per_second: self.max_requests_per_second,
        }
    }
}

impl Clone for WalletConfig {
    fn clone(&self) -> (copy: WalletConfig)
        ensures
            copy == *self,
    {
        WalletConfig { private_key_env: self.private_key_env.clone() }
    }
}

impl Clone for ContractConfig {
    fn clone(&self) -> (copy: ContractConfig)
        ensures
            copy == *self,
    {
        ContractConfig {
            controller: self.controller.clone(),
            router: self.router.clone(),
            collateral: self.collateral.clone(),
        }
    }
}

impl Clone for StrategyConfig {
    fn clone(&self) -> (copy: StrategyConfig)
        ensures
            copy == *self,
    {
        StrategyConfig {
            outcome_token_id: self.outcome_token_id.clone(),
            buy_amount_units: self.buy_amount_units.clone(),
            collateral_decimals: self.collateral_decimals,
            min_out_or_max_in: self.min_out_or_max_in.clone(),
            gas_limit: self.gas_limit,
            gas_price_bump_bps: self.gas_price_bump_bps,
            dry_run: self.dry_run,
            wait_for_receipt: self.wait_for_receipt,
        }
    }
}

/// Two configurations of the pricing hold the same.
pub open spec fn same_pricing(a: PricingConfig, b: PricingConfig) -> bool {
    &&& a.enabled == b.enabled
    &&& a.log_path == b.log_path
    &&& a.max_sell_slippage_bps == b.max_sell_slippage_bps
    &&& a.extra_sell_tax_bps == b.extra_sell_tax_bps
    &&& a.sample_offsets_ms@ == b.sample_offsets_ms@
}

impl Clone for PricingConfig {
    fn clone(&self) -> (copy: PricingConfig)
        ensures
            same_pricing(copy, *self),
    {
        PricingConfig {
            enabled: self.enabled,
            log_path: self.log_path.clone(),
            max_sell_slippage_bps: self.max_sell_slippage_bps,
            extra_sell_tax_bps: self.extra_sell_tax_bps,
            sample_offsets_ms: self.sample_offsets_ms.clone(),
        }
    }
}

impl Clone for MetadataConfig {
    fn clone(&self) -> (copy: MetadataConfig)
        ensures
            copy == *self,
    {
        MetadataConfig {
            enabled: self.enabled,
            rest_base_url: self.rest_base_url.clone(),
            timeout_ms: self.timeout_ms,
        }
    }
}

impl Clone for FilterConfig {
    fn clone(&self) -> (copy: FilterConfig)
        ensures
            copy.allowed_collateral@ == self.allowed_collateral@,
    {
        let allowed_collateral = self.allowed_collateral.clone();
        proof {
            assert(allowed_collateral@ =~= self.allowed_collateral@);
        }
        FilterConfig { allowed_collateral }
    }
}

impl Clone for LatencyConfig {
    fn clone(&self) -> (copy: LatencyConfig)
        ensures
            copy == *self,
    {
        LatencyConfig {
            enabled: self.enabled,
            log_path: self.log_path.clone(),
            provider_label: self.provider_label.clone(),
        }
    }
}

/// Two configurations hold the same in all parts but the addresses of the chain.
pub open spec fn same_but_rpc(a: Settings, b: Settings) -> bool {
    &&& a.wallet == b.wallet
    &&& a.contracts == b.contracts
    &&& a.strategy == b.strategy
    &&& same_pricing(a.pricing, b.pricing)
    &&& a.metadata == b.metadata
    &&& a.filters.allowed_collateral@ == b.filters.allowed_collateral@
    &&& a.latency == b.latency
}

/// Configurations that hold the same but for the addresses of the chain trade alike:
/// they have the same key, the same contracts, the same strategy, the same pricing, the
/// same service for metadata, the same filter and the same log of latencies.
pub proof fn law_same_settings_trade_alike(a: Settings, b: Settings)
    requires
        same_but_rpc(a, b),
    ensures
        a.wallet.private_key_env@ == b.wallet.private_key_env@,
        a.contracts.controller@ == b.contracts.controller@,
        a.contracts.router@ == b.contracts.router@,
        a.contracts.collateral@ == b.contracts.collateral@,
        a.strategy.outcome_token_id@ == b.strategy.outcome_token_id@,
        a.strategy.buy_amount_units@ == b.strategy.buy_amount_units@,
        a.strategy.collateral_decimals == b.strategy.collateral_decimals,
        a.strategy.min_out_or_max_in@ == b.strategy.min_out_or_max_in@,
        a.strategy.gas_limit == b.strategy.gas_limit,
        a.strategy.gas_price_bump_bps == b.strategy.gas_price_bump_bps,
        a.strategy.dry_run == b.strategy.dry_run,
        a.strategy.wait_for_receipt == b.strategy.wait_for_receipt,
        a.pricing.enabled == b.pricing.enabled,
        a.pricing.log_path@ == b.pricing.log_path@,
        a.pricing.max_sell_slippage_bps == b.pricing.max_sell_slippage_bps,
        a.pricing.extra_sell_tax_bps == b.pricing.extra_sell_tax_bps,
        a.pricing.sample_offsets_ms@ == b.pricing.sample_offsets_ms@,
        a.metadata == b.metadata,
        a.filters.allowed_collateral@ == b.filters.allowed_collateral@,
        a.latency == b.latency,
        forall|collateral: Seq<u8>| #[trigger] allowed(a, collateral) == allowed(b, collateral),
{
}

impl Clone for Settings {
    fn clone(&self) -> (copy: Settings)
        ensures
            copy.rpc == self.rpc,
            same_but_rpc(copy, *self),
    {
        Settings {
            rpc: self.rpc.clone(),
            wallet: self.wallet.clone(),
            contracts: self.contracts.clone(),
            strategy: self.strategy.clone(),
            pricing: self.pricing.clone(),
            metadata: self.metadata.clone(),
            filters: self.filters.clone(),
            latency: self.latency.clone(),
        }
    }
}

/// The first thing that is wrong with a configuration.
pub open spec fn settings_error(s: Settings) -> Option<ConfigErrorView> {
    if let Err(error) = address_field("contracts.controller"@, s.contracts.controller@) {
        Some(error)
    } else if let Err(error) = address_field("contracts.router"@, s.contracts.router@) {
        Some(error)
    } else if let Err(error) = address_field("contracts.collateral"@, s.contracts.collateral@) {
        Some(error)
    } else if let Err(error) = uint_field(
        "strategy.outcome_token_id"@,
        s.strategy.outcome_token_id@,
    ) {
        Some(error)
    } else if let Err(error) = token_units(
        "strategy.buy_amount_units"@,
        s.strategy.buy_amount_units@,
        s.strategy.collateral_decimals as nat,
    ) {
        Some(error)
    } else if let Err(error) = uint_field(
        "strategy.min_out_or_max_in"@,
        s.strategy.min_out_or_max_in@,
    ) {
        Some(error)
    } else if trim(s.rpc.http_url@).len() == 0 {
        Some(ConfigErrorView::EmptyHttpUrl)
    } else if trim(s.rpc.ws_url@).len() == 0 {
        Some(ConfigErrorView::EmptyWsUrl)
    } else if s.rpc.chain_id == 0 {
        Some(ConfigErrorView::ZeroChainId)
    } else if s.rpc.max_requests_per_second == 0 {
        Some(ConfigErrorView::ZeroRequestRate)
    } else if s.strategy.gas_limit == 0 {
        Some(ConfigErrorView::ZeroGasLimit)
    } else if s.pricing.max_sell_slippage_bps > 10_000 {
        Some(ConfigErrorView::SlippageAboveWhole)
    } else if s.pricing.extra_sell_tax_bps > 10_000 {
        Some(ConfigErrorView::TaxAboveWhole)
    } else {
        None
    }
}

/// A configuration passes its checks exactly where its contracts are addresses, its
/// outcome, its amount and its least yield can be read, its node can be reached in some
/// place of some chain at some pace, gas may be spent, and neither the slippage nor the
/// further tax exceeds the whole.
pub proof fn law_checked_settings_are_usable(s: Settings)
    ensures
        settings_error(s) is None <==> {
            &&& parsed_address(s.contracts.controller@) is Some
            &&& parsed_address(s.contracts.router@) is Some
            &&& parsed_address(s.contracts.collateral@) is Some
            &&& uint_field("strategy.outcome_token_id"@, s.strategy.outcome_token_id@) is Ok
            &&& token_units(
                "strategy.buy_amount_units"@,
                s.strategy.buy_amount_units@,
                s.strategy.collateral_decimals as nat,
            ) is Ok
            &&& uint_field("strategy.min_out_or_max_in"@, s.strategy.min_out_or_max_in@) is Ok
            &&& trim(s.rpc.http_url@).len() > 0
            &&& trim(s.rpc.ws_url@).len() > 0
            &&& s.rpc.chain_id > 0
            &&& s.rpc.max_requests_per_second > 0
            &&& s.strategy.gas_limit > 0
            &&& s.pricing.max_sell_slippage_bps <= 10_000
            &&& s.pricing.extra_sell_tax_bps <= 10_000
        },
        settings_error(s) == Some(ConfigErrorView::EmptyHttpUrl) ==> trim(s.rpc.http_url@).len()
            == 0,
        settings_error(s) == Some(ConfigErrorView::EmptyWsUrl) ==> trim(s.rpc.ws_url@).len() == 0,
        settings_error(s) == Some(ConfigErrorView::ZeroChainId) ==> s.rpc.chain_id == 0,
        settings_error(s) == Some(ConfigErrorView::ZeroRequestRate)
            ==> s.rpc.max_requests_per_second == 0,
        settings_error(s) == Some(ConfigErrorView::ZeroGasLimit) ==> s.strategy.gas_limit == 0,
        settings_error(s) == Some(ConfigErrorView::SlippageAboveWhole)
            ==> s.pricing.max_sell_slippage_bps > 10_000,
        settings_error(s) == Some(ConfigErrorView::TaxAboveWhole) ==> s.pricing.extra_sell_tax_bps
            > 10_000,
{
}

/// A market with this collateral is bought: the collateral is one of those that
/// are allowed, or the configured one where none are listed. A listed text that is
/// no address allows nothing; a configured one that is none stands for the zero
/// address.
pub open spec fn allowed(s: Settings, collateral: Seq<u8>) -> bool {
    let listed = s.filters.allowed_collateral@;
    if listed.len() == 0 {
        collateral == match parsed_address(s.contracts.collateral@) {
            Some(address) => address,
            None => zero_address(),
        }
    } else {
        exists|i: int|
            0 <= i < listed.len() && #[trigger] parsed_address(listed[i]@) == Some(collateral)
    }
}

/// With a list a collateral is allowed exactly where a text of the list stands for it,
/// whatever is configured beside; without one only the configured collateral is, as its
/// text reads, and nothing but the zero address where that text reads as none.
pub proof fn law_listed_collateral_is_allowed(s: Settings, collateral: Seq<u8>)
    requires
        collateral.len() == 20,
    ensures
        s.filters.allowed_collateral@.len() > 0 ==> (allowed(s, collateral) <==> exists|i: int|
            0 <= i < s.filters.allowed_collateral@.len() && #[trigger] parsed_address(
                s.filters.allowed_collateral@[i]@,
            ) == Some(collateral)),
        s.filters.allowed_collateral@.len() == 0 && parsed_address(s.contracts.collateral@) is Some
            ==> (allowed(s, collateral) <==> parsed_address(s.contracts.collateral@) == Some(
            collateral,
        )),
        s.filters.allowed_collateral@.len() == 0 && parsed_address(s.contracts.collateral@) is None
            ==> (allowed(s, collateral) <==> forall|i: int|
            0 <= i < 20 ==> #[trigger] collateral[i] == 0),
{
    if forall|i: int| 0 <= i < 20 ==> #[trigger] collateral[i] == 0 {
        assert(collateral =~= zero_address());
    }
}

/// The value of a variable of the environment, where it is set.
pub open spec fn variable(env: Seq<(Seq<char>, Seq<char>)>, name: Seq<char>) -> Option<Seq<char>>
    decreases env.len(),
{
    if env.len() == 0 {
        None
    } else if env[0].0 == name {
        Some(env[0].1)
    } else {
        variable(env.skip(1), name)
    }
}

/// The value of a variable of the environment, or `current` where it is not set.
pub open spec fn overridden(
    env: Seq<(Seq<char>, Seq<char>)>,
    name: Seq<char>,
    current: Seq<char>,
) -> Seq<char> {
    match variable(env, name) {
        Some(value) => value,
        None => current,
    }
}

/// The value of decimal digits; `None` where another character stands among them.
pub open spec fn plain_value(s: Seq<char>) -> Option<nat>
    decreases s.len(),
{
    if s.len() == 0 {
        Some(0nat)
    } else {
        match plain_value(s.drop_last()) {
            Some(value) => if is_digit(s.last()) {
                Some(10 * value + digit_value(s.last()))
            } else {
                None
            },
            None => None,
        }
    }
}

/// The 32-bit integer that a text stands for: digits, at least one, behind an
/// optional plus sign.
pub open spec fn parsed_u32(s: Seq<char>) -> Option<u32> {
    let digits = if s.len() > 0 && s[0] == '+' {
        s.skip(1)
    } else {
        s
    };
    match plain_value(digits) {
        Some(value) => if digits.len() > 0 && value <= u32::MAX {
            Some(value as u32)
        } else {
            None
        },
        None => None,
    }
}

/// The texts that switch something on.
pub open spec fn switches_on(s: Seq<char>) -> bool {
    s == "1"@ || s == "true"@ || s == "TRUE"@ || s == "yes"@ || s == "YES"@
}

/// A variable has the value of the first pair with its name, and none where no pair has
/// its name.
pub proof fn law_the_first_pair_sets_a_variable(
    env: Seq<(Seq<char>, Seq<char>)>,
    name: Seq<char>,
    i: int,
)
    requires
        0 <= i <= env.len(),
        forall|k: int| 0 <= k < i ==> (#[trigger] env[k]).0 != name,
    ensures
        i < env.len() && env[i].0 == name ==> variable(env, name) == Some(env[i].1),
        i == env.len() ==> variable(env, name) is None,
    decreases i,
{
    if i > 0 {
        let rest = env.skip(1);
        assert(env[0].0 != name);
        assert forall|k: int| 0 <= k < i - 1 implies (#[trigger] rest[k]).0 != name by {
            assert(rest[k] == env[k + 1]);
        }
        law_the_first_pair_sets_a_variable(rest, name, i - 1);
    }
}

/// A variable that is set replaces what is configured; one that is not leaves it.
pub proof fn law_set_variables_override(
    env: Seq<(Seq<char>, Seq<char>)>,
    name: Seq<char>,
    current: Seq<char>,
)
    ensures
        variable(env, name) matches Some(value) ==> overridden(env, name, current) == value,
        variable(env, name) is None ==> overridden(env, name, current) == current,
{
}

/// The number of digits is that of the same digits among which underscores may stand.
proof fn lemma_plain_digits(s: Seq<char>)
    requires
        forall|i: int| 0 <= i < s.len() ==> is_digit(#[trigger] s[i]),
    ensures
        plain_value(s) == decimal_value(s),
    decreases s.len(),
{
    if s.len() > 0 {
        let front = s.drop_last();
        assert forall|i: int| 0 <= i < front.len() implies is_digit(#[trigger] front[i]) by {
            assert(front[i] == s[i]);
        }
        lemma_plain_digits(front);
        assert(is_digit(s[s.len() - 1]));
    }
}

/// What has a value consists of digits.
proof fn lemma_only_digits_have_a_value(s: Seq<char>)
    requires
        plain_value(s) is Some,
    ensures
        forall|i: int| 0 <= i < s.len() ==> is_digit(#[trigger] s[i]),
    decreases s.len(),
{
    if s.len() > 0 {
        let front = s.drop_last();
        lemma_only_digits_have_a_value(front);
        assert forall|i: int| 0 <= i < s.len() implies is_digit(#[trigger] s[i]) by {
            if i < front.len() {
                assert(s[i] == front[i]);
            }
        }
    }
}

/// Nothing reads as a rate but digits, at least one, behind at most one plus sign.
pub proof fn law_only_digits_are_rates(s: Seq<char>)
    requires
        parsed_u32(s) is Some,
    ensures
        s.len() > 0,
        s[0] == '+' || is_digit(s[0]),
        s[0] == '+' ==> s.len() > 1,
        forall|i: int| 0 < i < s.len() ==> is_digit(#[trigger] s[i]),
{
    let digits = if s.len() > 0 && s[0] == '+' {
        s.skip(1)
    } else {
        s
    };
    lemma_only_digits_have_a_value(digits);
    assert forall|i: int| 0 < i < s.len() implies is_digit(#[trigger] s[i]) by {
        if s[0] == '+' {
            assert(s[i] == digits[i - 1]);
        }
    }
}

/// A number that is written in decimal, with or without a plus sign, reads as the
/// number, as long as 32 bits hold it, and as none where they do not.
pub proof fn law_rates_read_back(n: nat)
    ensures
        n <= u32::MAX ==> parsed_u32(decimal(n)) == Some(n as u32),
        n <= u32::MAX ==> parsed_u32(seq!['+'] + decimal(n)) == Some(n as u32),
        n > u32::MAX ==> parsed_u32(decimal(n)) is None && parsed_u32(seq!['+'] + decimal(n)) is None,
{
    let digits = decimal(n);
    law_decimal_reads_back(n);
    lemma_plain_digits(digits);
    assert(is_digit(digits[0]));
    assert((seq!['+'] + digits).skip(1) =~= digits);
}

/// A switch is turned on by a one, and by the words true and yes in small or capital
/// letters, and by nothing else.
pub proof fn law_only_these_texts_switch_on(s: Seq<char>)
    ensures
        switches_on(s) <==> s == seq!['1'] || s == seq!['t', 'r', 'u', 'e'] || s == seq![
            'T',
            'R',
            'U',
            'E',
        ] || s == seq!['y', 'e', 's'] || s == seq!['Y', 'E', 'S'],
{
    reveal_strlit("1");
    reveal_strlit("true");
    reveal_strlit("TRUE");
    reveal_strlit("yes");
    reveal_strlit("YES");
    assert("1"@ =~= seq!['1']);
    assert("true"@ =~= seq!['t', 'r', 'u', 'e']);
    assert("TRUE"@ =~= seq!['T', 'R', 'U', 'E']);
    assert("yes"@ =~= seq!['y', 'e', 's']);
    assert("YES"@ =~= seq!['Y', 'E', 'S']);
}

/// A number that is too large, or no number, does not become one by further characters.
proof fn lemma_plain_value_grows(s: Seq<char>, n: int, bound: nat)
    requires
        0 <= n <= s.len(),
        plain_value(s.take(n)) matches Some(value) ==> value > bound,
    ensures
        plain_value(s) matches Some(value) ==> value > bound,
    decreases s.len() - n,
{
    if n < s.len() {
        assert(s.take(n + 1).drop_last() =~= s.take(n));
        lemma_plain_value_grows(s, n + 1, bound);
    } else {
        assert(s.take(n) =~= s);
    }
}

/// Reads a 32-bit integer.
fn read_u32(text: &str) -> (number: Option<u32>)
    ensures
        number == parsed_u32(text@),
{
    let chars = chars_of(text);
    let start: usize = if chars.len() > 0 && chars[0] == '+' {
        1
    } else {
        0
    };
    let ghost digits = chars@.skip(start as int);
    proof {
        assert(chars@.skip(0) =~= chars@);
    }
    if start == chars.len() {
        return None;
    }
    let mut value: u64 = 0;
    let mut i: usize = start;
    while i < chars.len()
        invariant
            start <= i <= chars@.len(),
            digits == chars@.skip(start as int),
            value <= u32::MAX,
            plain_value(digits.take(i - start)) == Some(value as nat),
            digits.len() > 0,
            digits == if text@.len() > 0 && text@[0] == '+' {
                text@.skip(1)
            } else {
                text@
            },
        decreases chars.len() - i,
    {
        let c = chars[i];
        proof {
            assert(digits.take(i + 1 - start).drop_last() =~= digits.take(i - start));
            assert(digits.take(i + 1 - start).last() == c);
        }
        if !('0' <= c && c <= '9') {
            proof {
                lemma_plain_value_grows(digits, i + 1 - start, u32::MAX as nat);
            }
            return None;
        }
        value = 10 * value + (c as u64 - '0' as u64);
        if value > u32::MAX as u64 {
            proof {
                lemma_plain_value_grows(digits, i + 1 - start, u32::MAX as nat);
            }
            return None;
        }
        i = i + 1;
    }
    proof {
        assert(digits.take(i - start) =~= digits);
    }
    Some(value as u32)
}

/// The value of a variable of the environment, where it is set.
fn find_variable(env: &Vec<(String, String)>, name: &str) -> (value: Option<String>)
    ensures
        match value {
            Some(value) => variable(pair_views(env@), name@) == Some(value@),
            None => variable(pair_views(env@), name@) is None,
        },
{
    let ghost all = pair_views(env@);
    let mut i: usize = 0;
    proof {
        assert(all.skip(0) =~= all);
    }
    while i < env.len()
        invariant
            i <= env@.len(),
            all == pair_views(env@),
            variable(all, name@) == variable(all.skip(i as int), name@),
        decreases env.len() - i,
    {
        proof {
            assert(all.skip(i as int)[0] == (env@[i as int].0@, env@[i as int].1@));
            assert(all.skip(i as int).skip(1) =~= all.skip(i + 1));
        }
        if same_text(env[i].0.as_str(), name) {
            return Some(env[i].1.clone());
        }
        i = i + 1;
    }
    None
}

impl Settings {
    /// Checks the configuration and reports the first thing that is wrong with it.
    pub fn validate(&self) -> (result: Result<(), ConfigError>)
        ensures
            match result {
                Ok(_) => settings_error(*self) is None,
                Err(error) => settings_error(*self) == Some(error@),
            },
    {
        if let Err(error) = self.controller_address() {
            return Err(error);
        }
        if let Err(error) = self.router_address() {
            return Err(error);
        }
        if let Err(error) = self.collateral_address() {
            return Err(error);
        }
        if let Err(error) = self.outcome_token_id() {
            return Err(error);
        }
        if let Err(error) = self.buy_amount() {
            return Err(error);
        }
        if let Err(error) = self.min_out_or_max_in() {
            return Err(error);
        }
        if trimmed(self.rpc.http_url.as_str()).as_str().is_empty() {
            return Err(ConfigError::EmptyHttpUrl);
        }
        if trimmed(self.rpc.ws_url.as_str()).as_str().is_empty() {
            return Err(ConfigError::EmptyWsUrl);
        }
        if self.rpc.chain_id == 0 {
            return Err(ConfigError::ZeroChainId);
        }
        if self.rpc.max_requests_per_second == 0 {
            return Err(ConfigError::ZeroRequestRate);
        }
        if self.strategy.gas_limit == 0 {
            return Err(ConfigError::ZeroGasLimit);
        }
        if self.pricing.max_sell_slippage_bps > 10_000 {
            return Err(ConfigError::SlippageAboveWhole);
        }
        if self.pricing.extra_sell_tax_bps > 10_000 {
            return Err(ConfigError::TaxAboveWhole);
        }
        Ok(())
    }

    /// The configuration with the addresses of the chain as they may be shown.
    pub fn redacted_for_display(&self) -> (shown: Settings)
        requires
            redactable(self.rpc.http_url@),
            redactable(self.rpc.ws_url@),
        ensures
            shown.rpc.http_url@ == redacted_url(self.rpc.http_url@),
            shown.rpc.ws_url@ == redacted_url(self.rpc.ws_url@),
            shown.rpc.chain_id == self.rpc.chain_id,
            shown.rpc.max_requests_per_second == self.rpc.max_requests_per_second,
            same_but_rpc(shown, *self),
    {
        let mut shown = self.clone();
        shown.rpc.http_url = redact_url(self.rpc.http_url.as_str());
        shown.rpc.ws_url = redact_url(self.rpc.ws_url.as_str());
        shown
    }

    /// The configuration as it may be shown, or `None` where an address of the
    /// chain cannot be redacted.
    pub fn try_redacted_for_display(&self) -> (shown: Option<Settings>)
        ensures
            shown is Some == (redactable(self.rpc.http_url@) && redactable(self.rpc.ws_url@)),
            shown matches Some(shown) ==> {
                &&& shown.rpc.http_url@ == redacted_url(self.rpc.http_url@)
                &&& shown.rpc.ws_url@ == redacted_url(self.rpc.ws_url@)
                &&& shown.rpc.chain_id == self.rpc.chain_id
                &&& shown.rpc.max_requests_per_second == self.rpc.max_requests_per_second
                &&& same_but_rpc(shown, *self)
            },
    {
        if try_redact_url(self.rpc.http_url.as_str()).is_none() || try_redact_url(
            self.rpc.ws_url.as_str(),
        ).is_none() {
            return None;
        }
        Some(self.redacted_for_display())
    }

    /// The contract that announces new markets.
    pub fn controller_address(&self) -> (address: Result<Address, ConfigError>)
        ensures
            address_outcome(address) == address_field(
                "contracts.controller"@,
                self.contracts.controller@,
            ),
    {
        parse_address("contracts.controller", self.contracts.controller.as_str())
    }

    /// The contract through which is bought.
    pub fn router_address(&self) -> (address: Result<Address, ConfigError>)
        ensures
            address_outcome(address) == address_field("contracts.router"@, self.contracts.router@),
    {
        parse_address("contracts.router", self.contracts.router.as_str())
    }

    /// The token with which is paid.
    pub fn collateral_address(&self) -> (address: Result<Address, ConfigError>)
        ensures
            address_outcome(address) == address_field(
                "contracts.collateral"@,
                self.contracts.collateral@,
            ),
    {
        parse_address("contracts.collateral", self.contracts.collateral.as_str())
    }

    /// The outcome that is bought.
    pub fn outcome_token_id(&self) -> (id: Result<U256, ConfigError>)
        ensures
            number_outcome(id) == uint_field(
                "strategy.outcome_token_id"@,
                self.strategy.outcome_token_id@,
            ),
    {
        parse_u256("strategy.outcome_token_id", self.strategy.outcome_token_id.as_str())
    }

    /// The amount that is paid, in the smallest unit of the collateral.
    pub fn buy_amount(&self) -> (amount: Result<U256, ConfigError>)
        ensures
            number_outcome(amount) == token_units(
                "strategy.buy_amount_units"@,
                self.strategy.buy_amount_units@,
                self.strategy.collateral_decimals as nat,
            ),
    {
        parse_token_units(
            "strategy.buy_amount_units",
            self.strategy.buy_amount_units.as_str(),
            self.strategy.collateral_decimals,
        )
    }

    /// The least that a buy must yield.
    pub fn min_out_or_max_in(&self) -> (limit: Result<U256, ConfigError>)
        ensures
            number_outcome(limit) == uint_field(
                "strategy.min_out_or_max_in"@,
                self.strategy.min_out_or_max_in@,
            ),
    {
        parse_u256("strategy.min_out_or_max_in", self.strategy.min_out_or_max_in.as_str())
    }

    /// Reads the amount of a token.
    pub fn parse_units(&self, field: &str, value: &str, decimals: u8) -> (amount: Result<
        U256,
        ConfigError,
    >)
        ensures
            number_outcome(amount) == token_units(field@, value@, decimals as nat),
    {
        parse_token_units(field, value, decimals)
    }

    /// Whether a market with this collateral is bought.
    pub fn is_allowed_collateral(&self, collateral: Address) -> (result: bool)
        ensures
            result == allowed(*self, collateral@),
    {
        if self.filters.allowed_collateral.len() == 0 {
            let configured = match self.collateral_address() {
                Ok(address) => address,
                Err(_) => Address::zero(),
            };
            return collateral.same_as(&configured);
        }
        let ghost listed = self.filters.allowed_collateral@;
        let mut i: usize = 0;
        while i < self.filters.allowed_collateral.len()
            invariant
                i <= listed.len(),
                listed == self.filters.allowed_collateral@,
                listed.len() > 0,
                forall|k: int|
                    0 <= k < i ==> #[trigger] parsed_address(listed[k]@) != Some(collateral@),
            decreases listed.len() - i,
        {
            if let Ok(address) = parse_address(
                "filters.allowed_collateral",
                self.filters.allowed_collateral[i].as_str(),
            ) {
                if address.same_as(&collateral) {
                    proof {
                        assert(parsed_address(listed[i as int]@) == Some(collateral@));
                    }
                    return true;
                }
            }
            i = i + 1;
        }
        false
    }

    /// Lets the variables of the environment override the configuration.
    pub fn apply_env_overrides(&mut self, env: &Vec<(String, String)>)
        ensures
            ({
                let vars = pair_views(env@);
                let before = *old(self);
                let after = *final(self);
                &&& after.rpc.http_url@ == overridden(
                    vars,
                    "SNIPER_HTTP_RPC_URL"@,
                    before.rpc.http_url@,
                )
                &&& after.rpc.ws_url@ == overridden(
                    vars,
                    "SNIPER_WS_RPC_URL"@,
                    before.rpc.ws_url@,
                )
                &&& after.rpc.chain_id == before.rpc.chain_id
                &&& after.rpc.max_requests_per_second == match variable(
                    vars,
                    "SNIPER_MAX_REQUESTS_PER_SECOND"@,
                ) {
                    Some(value) => match parsed_u32(value) {
                        Some(rate) => rate,
                        None => before.rpc.max_requests_per_second,
                    },
                    None => before.rpc.max_requests_per_second,
                }
                &&& after.strategy.buy_amount_units@ == overridden(
                    vars,
                    "SNIPER_BUY_AMOUNT_UNITS"@,
                    before.strategy.buy_amount_units@,
                )
                &&& after.strategy.dry_run == match variable(vars, "SNIPER_DRY_RUN"@) {
                    Some(value) => switches_on(value),
                    None => before.strategy.dry_run,
                }
                &&& after.pricing.log_path@ == overridden(
                    vars,
                    "SNIPER_PRICE_LOG_PATH"@,
                    before.pricing.log_path@,
                )
                &&& after.wallet == before.wallet
                &&& after.contracts == before.contracts
                &&& after.strategy == (StrategyConfig {
                    buy_amount_units: after.strategy.buy_amount_units,
                    dry_run: after.strategy.dry_run,
                    ..before.strategy
                })
                &&& after.pricing == (PricingConfig {
                    log_path: after.pricing.log_path,
                    ..before.pricing
                })
                &&& after.metadata == before.metadata
                &&& after.filters == before.filters
                &&& after.latency == before.latency
            }),
    {
        if let Some(value) = find_variable(env, "SNIPER_HTTP_RPC_URL") {
            self.rpc.http_url = value;
        }
        if let Some(value) = find_variable(env, "SNIPER_WS_RPC_URL") {
            self.rpc.ws_url = value;
        }
        if let Some(value) = find_variable(env, "SNIPER_MAX_REQUESTS_PER_SECOND") {
            if let Some(rate) = read_u32(value.as_str()) {
                self.rpc.max_requests_per_second = rate;
            }
        }
        if let Some(value) = find_variable(env, "SNIPER_BUY_AMOUNT_UNITS") {
            self.strategy.buy_amount_units = value;
        }
        if let Some(value) = find_variable(env, "SNIPER_DRY_RUN") {
            let text = value.as_str();
            self.strategy.dry_run = same_text(text, "1") || same_text(text, "true") || same_text(
                text,
                "TRUE",
            ) || same_text(text, "yes") || same_text(text, "YES");
        }
        if let Some(value) = find_variable(env, "SNIPER_PRICE_LOG_PATH") {
            self.pricing.log_path = value;
        }
    }
}

} // verus!
