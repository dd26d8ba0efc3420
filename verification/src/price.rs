//! Sell prices: what a sale of outcome tokens would yield, how much of it slippage
//! and taxes take, and the records that are kept of it.
use vstd::prelude::*;
use vstd::arithmetic::power::pow;
use vstd::string::StringExecFns;

use crate::address::{checksummed, Address};
use crate::config::Settings;
use crate::fields::{uint_field, ConfigError, ConfigErrorView};
use crate::json::{
    all_scalars, empty_object, no_members, object_members, optional_number, put_bool, put_number,
    put_optional_number, put_text, states, text_member, unsigned_member, JsonObject, JsonValue,
    Members,
};
use crate::text::{decimal, decimal_text};
use crate::u256::{lemma_number_reads_back, saturated, smaller, u256_limit, U256};

verus! {

/// Ten to the power of `decimals`, modulo two to the power of 256.
pub open spec fn unit_scale(decimals: nat) -> nat {
    (pow(10, decimals) % (u256_limit() as int)) as nat
}

/// Ten to the power of `decimals`, modulo two to the power of 256.
pub fn pow10(decimals: u8) -> (scale: U256)
    ensures
        scale@ == unit_scale(decimals as nat),
{
    let mut scale = U256::from(1u64);
    let mut i: u8 = 0;
    proof {
        vstd::arithmetic::power::lemma_pow0(10);
    }
    while i < decimals
        invariant
            i <= decimals,
            scale@ == unit_scale(i as nat),
        decreases decimals - i,
    {
        let ghost before = pow(10, i as nat);
        scale = scale.wrapping_product(U256::from(10u64));
        proof {
            let limit = u256_limit() as int;
            vstd::arithmetic::power::lemma_pow_positive(10, i as nat);
            vstd::arithmetic::power::lemma_pow1(10);
            vstd::arithmetic::power::lemma_pow_adds(10, i as nat, 1);
            assert(pow(10, (i + 1) as nat) == before * 10);
            vstd::arithmetic::div_mod::lemma_mul_mod_noop_left(before, 10, limit);
        }
        i = i + 1;
    }
    scale
}

/// One more decimal makes the scale ten times as large, and without decimals it is
/// one: the scale is the power of ten as long as 256 bits hold it.
pub proof fn law_scales_are_powers_of_ten(decimals: nat)
    ensures
        unit_scale(0) == 1,
        decimals < 78 ==> unit_scale(decimals) == pow(10, decimals),
        decimals < 77 ==> unit_scale((decimals + 1) as nat) == 10 * unit_scale(decimals),
        unit_scale((decimals + 1) as nat) == (10 * unit_scale(decimals)) % u256_limit(),
{
    vstd::arithmetic::power::lemma_pow0(10);
    vstd::arithmetic::power::lemma_pow_positive(10, decimals);
    if decimals < 78 {
        lemma_scale_fits(decimals);
    }
    vstd::arithmetic::power::lemma_pow1(10);
    vstd::arithmetic::power::lemma_pow_adds(10, decimals, 1);
    vstd::arithmetic::div_mod::lemma_mul_mod_noop_right(
        10,
        pow(10, decimals),
        u256_limit() as int,
    );
    if decimals < 77 {
        lemma_scale_fits((decimals + 1) as nat);
    }
}

/// A power of ten with fewer than seventy-eight zeros fits in 256 bits.
proof fn lemma_scale_fits(decimals: nat)
    requires
        decimals < 78,
    ensures
        0 < pow(10, decimals) < u256_limit(),
        unit_scale(decimals) == pow(10, decimals),
{
    vstd::arithmetic::power::lemma_pow_positive(10, decimals);
    vstd::arithmetic::power::lemma_pow_increases(10, decimals, 77);
    assert(pow(10, 77) < u256_limit()) by {
        reveal_with_fuel(pow, 78);
    }
    vstd::arithmetic::div_mod::lemma_small_mod(
        pow(10, decimals) as nat,
        u256_limit(),
    );
}

/// `value` times `multiplier`, as far as 256 bits hold it, divided by `divisor`;
/// zero where the divisor is zero.
pub open spec fn mul_div(value: nat, multiplier: nat, divisor: nat) -> nat {
    if divisor == 0 {
        0
    } else {
        saturated(value * multiplier) / divisor
    }
}

/// The share of `numerator` in `denominator`, in basis points.
pub open spec fn share_bps(numerator: nat, denominator: nat) -> nat {
    if denominator == 0 {
        0
    } else {
        smaller(saturated(numerator * 10_000) / denominator, u64::MAX as nat)
    }
}

/// How far `actual` falls short of `reference`, in basis points.
pub open spec fn shortfall_bps(reference: nat, actual: nat) -> nat {
    if reference == 0 || actual >= reference {
        0
    } else {
        share_bps((reference - actual) as nat, reference)
    }
}

/// `value` times `multiplier` divided by `divisor`.
pub fn checked_mul_div(value: U256, multiplier: U256, divisor: U256) -> (result: U256)
    ensures
        result@ == mul_div(value@, multiplier@, divisor@),
{
    if divisor.is_zero() {
        return U256::zero();
    }
    value.saturating_product(multiplier).quotient(divisor)
}

/// The share of `numerator` in `denominator`, in basis points.
pub fn ratio_bps(numerator: U256, denominator: U256) -> (bps: u64)
    ensures
        bps == share_bps(numerator@, denominator@),
{
    if denominator.is_zero() {
        return 0;
    }
    numerator.saturating_product(U256::from(10_000u64)).quotient(denominator).capped()
}

/// How far `actual` falls short of `reference`, in basis points.
pub fn loss_bps(reference: U256, actual: U256) -> (bps: u64)
    ensures
        bps == shortfall_bps(reference@, actual@),
{
    if reference.is_zero() || reference.at_most(actual) {
        return 0;
    }
    ratio_bps(reference.minus(actual), reference)
}

/// A quotient is rounded down.
proof fn lemma_rounded_down(n: nat, d: nat)
    requires
        d > 0,
    ensures
        (n / d) * d <= n < (n / d + 1) * d,
{
    vstd::arithmetic::div_mod::lemma_fundamental_div_mod(n as int, d as int);
    let q = (n / d) as int;
    let e = d as int;
    assert(q * e == e * q) by (nonlinear_arith);
    assert((q + 1) * e == e * q + e) by (nonlinear_arith);
}

/// A product over a divisor is the largest number that, times the divisor, does not
/// exceed the product. Where 256 bits do not hold the product, the largest number that
/// they hold takes its place; nothing is divided by zero.
pub proof fn law_products_are_divided(value: nat, multiplier: nat, divisor: nat)
    ensures
        mul_div(value, multiplier, 0) == 0,
        divisor > 0 && value * multiplier < u256_limit() ==> mul_div(value, multiplier, divisor)
            * divisor <= value * multiplier < (mul_div(value, multiplier, divisor) + 1) * divisor,
        divisor > 0 && value * multiplier >= u256_limit() ==> mul_div(value, multiplier, divisor)
            * divisor <= u256_limit() - 1 < (mul_div(value, multiplier, divisor) + 1) * divisor,
{
    if divisor > 0 {
        lemma_rounded_down(saturated(value * multiplier), divisor);
    }
}

/// A share in basis points is the largest number of ten-thousandths of the whole that
/// the part holds, as far as 256 bits hold ten thousand times the part and 64 bits the
/// share.
pub proof fn law_shares_are_ten_thousandths(part: nat, whole: nat)
    ensures
        share_bps(part, 0) == 0,
        share_bps(part, whole) <= u64::MAX,
        ({
            let share = share_bps(part, whole);
            let parts = if part * 10_000 < u256_limit() {
                part * 10_000
            } else {
                (u256_limit() - 1) as nat
            };
            &&& whole > 0 && share < u64::MAX ==> share * whole <= parts < (share + 1) * whole
            &&& whole > 0 && share == u64::MAX ==> share * whole <= parts
        }),
{
    if whole > 0 {
        let parts = saturated(part * 10_000);
        lemma_rounded_down(parts, whole);
        let quotient = parts / whole;
        if quotient >= u64::MAX {
            assert(u64::MAX * whole <= quotient * whole) by (nonlinear_arith)
                requires
                    quotient >= u64::MAX,
            ;
        }
    }
}

/// A loss is the share of what is missing of the reference; where nothing is missing
/// nothing is lost, and where ten thousand times what is missing takes more than 256
/// bits, as much of it counts as they hold.
pub proof fn law_losses_are_what_is_missing(reference: nat, actual: nat)
    ensures
        actual >= reference ==> shortfall_bps(reference, actual) == 0,
        ({
            let loss = shortfall_bps(reference, actual);
            let missing = if (reference - actual) * 10_000 < u256_limit() {
                (reference - actual) * 10_000
            } else {
                u256_limit() - 1
            };
            actual < reference ==> loss * reference <= missing < (loss + 1) * reference
        }),
{
    if actual < reference {
        let missing = (reference - actual) as nat;
        law_shares_are_ten_thousandths(missing, reference);
        lemma_share_within(missing, reference);
    }
}

/// A loss is at most the whole, and a part of a whole is at most the whole.
pub proof fn law_losses_stay_within_the_whole(reference: nat, actual: nat)
    ensures
        shortfall_bps(reference, actual) <= 10_000,
        actual <= reference ==> share_bps(actual, reference) <= 10_000,
{
    if reference > 0 {
        if actual < reference {
            lemma_share_within((reference - actual) as nat, reference);
        }
        if actual <= reference {
            lemma_share_within(actual, reference);
        }
    }
}

/// The share of a part is at most the whole.
proof fn lemma_share_within(part: nat, whole: nat)
    requires
        part <= whole,
        whole > 0,
    ensures
        share_bps(part, whole) <= 10_000,
{
    let product = saturated(part * 10_000);
    assert(product <= whole * 10_000);
    assert(product / whole <= 10_000) by (nonlinear_arith)
        requires
            product <= whole * 10_000,
            whole > 0,
    ;
}

/// Who gets more loses no more.
pub proof fn law_losses_fall_with_the_yield(reference: nat, less: nat, more: nat)
    requires
        less <= more,
    ensures
        shortfall_bps(reference, more) <= shortfall_bps(reference, less),
{
    if reference > 0 && more < reference {
        let small = saturated(((reference - more) as nat) * 10_000);
        let large = saturated(((reference - less) as nat) * 10_000);
        assert(small <= large);
        assert(small / reference <= large / reference) by (nonlinear_arith)
            requires
                small <= large,
                reference > 0,
        ;
    }
}

/// A tax of at most the whole takes no more than there is.
pub proof fn law_taxes_stay_within_the_amount(amount: nat, tax_bps: nat)
    requires
        tax_bps <= 10_000,
    ensures
        mul_div(amount, tax_bps, 10_000) <= amount,
{
    let product = saturated(amount * tax_bps);
    assert(product <= amount * 10_000) by (nonlinear_arith)
        requires
            product <= amount * tax_bps,
            tax_bps <= 10_000,
    ;
}

/// Which amount is sold.
#[derive(Clone, Copy, Debug)]
pub enum SellAmount {
    Exact(U256),
    WalletBalance(Address),
}

/// What a sale of outcome tokens would yield.
#[derive(Debug)]
pub struct SellQuote {
    pub market: Address,
    pub token_id: U256,
    pub ot_decimals: u8,
    pub ot_amount: U256,
    pub pre_supply: U256,
    pub post_supply: U256,
    pub pre_marginal_price: U256,
    pub post_marginal_price: U256,
    pub spot_collateral_value: U256,
    pub collateral_to_user: U256,
    pub collateral_to_treasury: U256,
    pub extra_sell_tax: U256,
    pub estimated_net_to_user: U256,
    pub slippage_bps: u64,
    pub protocol_tax_bps: u64,
    pub extra_tax_bps: u64,
    pub effective_loss_bps: u64,
    pub executable: bool,
    pub reason: String,
}

impl Clone for SellQuote {
    fn clone(&self) -> (copy: SellQuote)
        ensures
            copy == *self,
    {
        SellQuote {
            market: self.market,
            token_id: self.token_id,
            ot_decimals: self.ot_decimals,
            ot_amount: self.ot_amount,
            pre_supply: self.pre_supply,
            post_supply: self.post_supply,
            pre_marginal_price: self.pre_marginal_price,
            post_marginal_price: self.post_marginal_price,
            spot_collateral_value: self.spot_collateral_value,
            collateral_to_user: self.collateral_to_user,
            collateral_to_treasury: self.collateral_to_treasury,
            extra_sell_tax: self.extra_sell_tax,
            estimated_net_to_user: self.estimated_net_to_user,
            slippage_bps: self.slippage_bps,
            protocol_tax_bps: self.protocol_tax_bps,
            extra_tax_bps: self.extra_tax_bps,
            effective_loss_bps: self.effective_loss_bps,
            executable: self.executable,
            reason: self.reason.clone(),
        }
    }
}

/// Why no quote can be produced.
#[derive(Clone, Copy, Debug, PartialEq, Eq, Structural)]
pub enum QuoteError {
    ZeroAmount,
    AboveSupply,
}

/// What is said where no quote can be produced.
pub open spec fn quote_error_message(error: QuoteError) -> Seq<char> {
    match error {
        QuoteError::ZeroAmount => "OT amount is zero; no sell quote can be produced"@,
        QuoteError::AboveSupply => "OT amount exceeds current token supply"@,
    }
}

impl QuoteError {
    /// What is said where no quote can be produced.
    pub fn message(&self) -> (text: String)
        ensures
            text@ == quote_error_message(*self),
    {
        match self {
            QuoteError::ZeroAmount =>
                "OT amount is zero; no sell quote can be produced".to_owned(),
            QuoteError::AboveSupply => "OT amount exceeds current token supply".to_owned(),
        }
    }
}

/// How far a quote has come: what is known, and with it what is asked next.
#[derive(Clone, Copy, Debug)]
pub enum QuoteStage {
    Decimals { amount: SellAmount },
    Balance { decimals: u8, wallet: Address },
    Curve { decimals: u8, ot_amount: U256 },
    Supply { decimals: u8, ot_amount: U256, curve: Address },
    Price { decimals: u8, ot_amount: U256, curve: Address, pre_supply: U256 },
    Redeem {
        decimals: u8,
        ot_amount: U256,
        curve: Address,
        pre_supply: U256,
        pre_marginal_price: U256,
    },
    PostPrice {
        decimals: u8,
        ot_amount: U256,
        curve: Address,
        pre_supply: U256,
        pre_marginal_price: U256,
        collateral_to_user: U256,
        collateral_to_treasury: U256,
    },
}

/// A quote in progress.
#[derive(Clone, Copy, Debug)]
pub struct QuoteJob {
    pub market: Address,
    pub token_id: U256,
    pub max_sell_slippage_bps: u64,
    pub extra_sell_tax_bps: u64,
    pub stage: QuoteStage,
}

/// What is asked of the market or of its curve.
#[derive(Clone, Copy, Debug)]
pub enum QuoteRequest {
    Decimals,
    BalanceOf(Address),
    DeployParams,
    TotalSupply,
    MarginalPrice { curve: Address },
    RedeemValue { curve: Address, ot_amount: U256 },
    SimMarginalPrice { curve: Address, supply: U256 },
}

/// What was answered.
#[derive(Clone, Copy, Debug)]
pub enum QuoteReply {
    Decimals(u8),
    Number(U256),
    Curve(Address),
    Redeem { collateral_to_user: U256, collateral_to_treasury: U256 },
}

/// What follows from an answer: the next thing to ask, the quote, or that there is none.
#[derive(Debug)]
pub enum QuoteStep {
    Ask(QuoteJob),
    Quote(SellQuote),
    Refused(QuoteError),
}

/// What follows from an answer, the quote itself left out.
pub enum Verdict {
    Next(QuoteStage),
    Quote,
    Refused(QuoteError),
}

/// The answer is of the kind that was asked for.
pub open spec fn answers(stage: QuoteStage, reply: QuoteReply) -> bool {
    match stage {
        QuoteStage::Decimals { .. } => reply is Decimals,
        QuoteStage::Balance { .. } => reply is Number,
        QuoteStage::Curve { .. } => reply is Curve,
        QuoteStage::Supply { .. } => reply is Number,
        QuoteStage::Price { .. } => reply is Number,
        QuoteStage::Redeem { .. } => reply is Redeem,
        QuoteStage::PostPrice { .. } => reply is Number,
    }
}

/// No more is sold than there is, once the supply is known.
pub open spec fn within_supply(stage: QuoteStage) -> bool {
    match stage {
        QuoteStage::Price { ot_amount, pre_supply, .. } => ot_amount@ <= pre_supply@,
        QuoteStage::Redeem { ot_amount, pre_supply, .. } => ot_amount@ <= pre_supply@,
        QuoteStage::PostPrice { ot_amount, pre_supply, .. } => ot_amount@ <= pre_supply@,
        _ => true,
    }
}

/// What follows once the amount is known.
pub open spec fn after_amount(decimals: u8, ot_amount: U256) -> Verdict {
    if ot_amount@ == 0 {
        Verdict::Refused(QuoteError::ZeroAmount)
    } else {
        Verdict::Next(QuoteStage::Curve { decimals, ot_amount })
    }
}

/// What follows from an answer.
pub open spec fn verdict(stage: QuoteStage, reply: QuoteReply) -> Verdict {
    match stage {
        QuoteStage::Decimals { amount: SellAmount::Exact(ot_amount) } => after_amount(
            reply->Decimals_0,
            ot_amount,
        ),
        QuoteStage::Decimals { amount: SellAmount::WalletBalance(wallet) } => Verdict::Next(
            QuoteStage::Balance { decimals: reply->Decimals_0, wallet },
        ),
        QuoteStage::Balance { decimals, .. } => after_amount(decimals, reply->Number_0),
        QuoteStage::Curve { decimals, ot_amount } => Verdict::Next(
            QuoteStage::Supply { decimals, ot_amount, curve: reply->Curve_0 },
        ),
        QuoteStage::Supply { decimals, ot_amount, curve } => if ot_amount@ > (
        reply->Number_0)@ {
            Verdict::Refused(QuoteError::AboveSupply)
        } else {
            Verdict::Next(
                QuoteStage::Price { decimals, ot_amount, curve, pre_supply: reply->Number_0 },
            )
        },
        QuoteStage::Price { decimals, ot_amount, curve, pre_supply } => Verdict::Next(
            QuoteStage::Redeem {
                decimals,
                ot_amount,
                curve,
                pre_supply,
                pre_marginal_price: reply->Number_0,
            },
        ),
        QuoteStage::Redeem { decimals, ot_amount, curve, pre_supply, pre_marginal_price } =>
            Verdict::Next(
            QuoteStage::PostPrice {
                decimals,
                ot_amount,
                curve,
                pre_supply,
                pre_marginal_price,
                collateral_to_user: reply->collateral_to_user,
                collateral_to_treasury: reply->collateral_to_treasury,
            },
        ),
        QuoteStage::PostPrice { .. } => Verdict::Quote,
    }
}

/// What is said of a quote: that it is accepted, or by how much it is not.
pub open spec fn quote_reason(slippage_bps: nat, max_bps: nat) -> Seq<char> {
    if slippage_bps <= max_bps {
        "ok"@
    } else {
        "slippage "@ + decimal(slippage_bps) + " bps exceeds max "@ + decimal(max_bps) + " bps"@
    }
}

/// The numbers of a quote follow from what the market and its curve answered: the
/// value at the price before the sale is compared with what the sale yields in all,
/// and with what is left to the seller after a further tax.
pub open spec fn follows(quote: SellQuote, max_bps: u64) -> bool {
    let user = quote.collateral_to_user@;
    let treasury = quote.collateral_to_treasury@;
    let gross = (user + treasury) % u256_limit();
    let spot = mul_div(
        quote.ot_amount@,
        quote.pre_marginal_price@,
        unit_scale(quote.ot_decimals as nat),
    );
    let tax = mul_div(user, quote.extra_tax_bps as nat, 10_000);
    let net = if tax <= user {
        (user - tax) as nat
    } else {
        0
    };
    &&& quote.post_supply@ == quote.pre_supply@ - quote.ot_amount@
    &&& quote.spot_collateral_value@ == spot
    &&& quote.extra_sell_tax@ == tax
    &&& quote.estimated_net_to_user@ == net
    &&& quote.slippage_bps == shortfall_bps(spot, gross)
    &&& quote.protocol_tax_bps == share_bps(treasury, gross)
    &&& quote.effective_loss_bps == shortfall_bps(spot, net)
    &&& quote.executable == (quote.slippage_bps <= max_bps)
    &&& quote.reason@ == quote_reason(quote.slippage_bps as nat, max_bps as nat)
}

/// `quote` is what the last answer makes of the job.
pub open spec fn is_quote_of(quote: SellQuote, job: QuoteJob, reply: QuoteReply) -> bool {
    &&& follows(quote, job.max_sell_slippage_bps)
    &&& quote.market == job.market
    &&& quote.token_id == job.token_id
    &&& quote.extra_tax_bps == job.extra_sell_tax_bps
    &&& quote.post_marginal_price == reply->Number_0
    &&& job.stage matches QuoteStage::PostPrice {
        decimals,
        ot_amount,
        pre_supply,
        pre_marginal_price,
        collateral_to_user,
        collateral_to_treasury,
        ..
    } && quote.ot_decimals == decimals && quote.ot_amount == ot_amount && quote.pre_supply
        == pre_supply && quote.pre_marginal_price == pre_marginal_price && quote.collateral_to_user
        == collateral_to_user && quote.collateral_to_treasury == collateral_to_treasury
}

/// The quote that follows from what the market and its curve answered.
pub fn sell_quote(
    market: Address,
    token_id: U256,
    decimals: u8,
    ot_amount: U256,
    pre_supply: U256,
    pre_marginal_price: U256,
    post_marginal_price: U256,
    collateral_to_user: U256,
    collateral_to_treasury: U256,
    extra_sell_tax_bps: u64,
    max_sell_slippage_bps: u64,
) -> (quote: SellQuote)
    requires
        ot_amount@ <= pre_supply@,
    ensures
        follows(quote, max_sell_slippage_bps),
        quote.market == market,
        quote.token_id == token_id,
        quote.ot_decimals == decimals,
        quote.ot_amount == ot_amount,
        quote.pre_supply == pre_supply,
        quote.pre_marginal_price == pre_marginal_price,
        quote.post_marginal_price == post_marginal_price,
        quote.collateral_to_user == collateral_to_user,
        quote.collateral_to_treasury == collateral_to_treasury,
        quote.extra_tax_bps == extra_sell_tax_bps,
{
    let scale = pow10(decimals);
    let spot_collateral_value = checked_mul_div(ot_amount, pre_marginal_price, scale);
    let gross_redeem = collateral_to_user.wrapping_sum(collateral_to_treasury);
    let slippage_bps = loss_bps(spot_collateral_value, gross_redeem);
    let protocol_tax_bps = ratio_bps(collateral_to_treasury, gross_redeem);
    let extra_sell_tax = checked_mul_div(
        collateral_to_user,
        U256::from(extra_sell_tax_bps),
        U256::from(10_000u64),
    );
    let estimated_net_to_user = collateral_to_user.saturating_minus(extra_sell_tax);
    let effective_loss_bps = loss_bps(spot_collateral_value, estimated_net_to_user);
    let executable = slippage_bps <= max_sell_slippage_bps;
    let reason = if executable {
        "ok".to_owned()
    } else {
        "slippage ".to_owned().concat(decimal_text(slippage_bps).as_str()).concat(
            " bps exceeds max ",
        ).concat(decimal_text(max_sell_slippage_bps).as_str()).concat(" bps")
    };
    SellQuote {
        market,
        token_id,
        ot_decimals: decimals,
        ot_amount,
        pre_supply,
        post_supply: pre_supply.minus(ot_amount),
        pre_marginal_price,
        post_marginal_price,
        spot_collateral_value,
        collateral_to_user,
        collateral_to_treasury,
        extra_sell_tax,
        estimated_net_to_user,
        slippage_bps,
        protocol_tax_bps,
        extra_tax_bps: extra_sell_tax_bps,
        effective_loss_bps,
        executable,
        reason,
    }
}

impl QuoteJob {
    /// A quote that has not begun.
    pub fn new(settings: &Settings, market: Address, token_id: U256, amount: SellAmount) -> (job:
        QuoteJob)
        ensures
            job.market == market,
            job.token_id == token_id,
            job.max_sell_slippage_bps == settings.pricing.max_sell_slippage_bps,
            job.extra_sell_tax_bps == settings.pricing.extra_sell_tax_bps,
            job.stage == (QuoteStage::Decimals { amount }),
            within_supply(job.stage),
    {
        QuoteJob {
            market,
            token_id,
            max_sell_slippage_bps: settings.pricing.max_sell_slippage_bps,
            extra_sell_tax_bps: settings.pricing.extra_sell_tax_bps,
            stage: QuoteStage::Decimals { amount },
        }
    }

    /// What is asked next.
    pub fn request(&self) -> (request: QuoteRequest)
        requires
            within_supply(self.stage),
        ensures
            match self.stage {
                QuoteStage::Decimals { .. } => request == QuoteRequest::Decimals,
                QuoteStage::Balance { wallet, .. } => request == QuoteRequest::BalanceOf(wallet),
                QuoteStage::Curve { .. } => request == QuoteRequest::DeployParams,
                QuoteStage::Supply { .. } => request == QuoteRequest::TotalSupply,
                QuoteStage::Price { curve, .. } => request == (QuoteRequest::MarginalPrice {
                    curve,
                }),
                QuoteStage::Redeem { curve, ot_amount, .. } => request == (
                QuoteRequest::RedeemValue { curve, ot_amount }),
                QuoteStage::PostPrice { curve, ot_amount, pre_supply, .. } => request matches
                    QuoteRequest::SimMarginalPrice { curve: asked, supply } && asked == curve
                    && supply@ == pre_supply@ - ot_amount@,
            },
    {
        match self.stage {
            QuoteStage::Decimals { .. } => QuoteRequest::Decimals,
            QuoteStage::Balance { wallet, .. } => QuoteRequest::BalanceOf(wallet),
            QuoteStage::Curve { .. } => QuoteRequest::DeployParams,
            QuoteStage::Supply { .. } => QuoteRequest::TotalSupply,
            QuoteStage::Price { curve, .. } => QuoteRequest::MarginalPrice { curve },
            QuoteStage::Redeem { curve, ot_amount, .. } => QuoteRequest::RedeemValue {
                curve,
                ot_amount,
            },
            QuoteStage::PostPrice { curve, ot_amount, pre_supply, .. } =>
                QuoteRequest::SimMarginalPrice { curve, supply: pre_supply.minus(ot_amount) },
        }
    }

    /// Whether an answer is of the kind that was asked for.
    pub fn is_answered_by(&self, reply: &QuoteReply) -> (answered: bool)
        ensures
            answered == answers(self.stage, *reply),
    {
        match (self.stage, reply) {
            (QuoteStage::Decimals { .. }, QuoteReply::Decimals(_)) => true,
            (QuoteStage::Balance { .. }, QuoteReply::Number(_)) => true,
            (QuoteStage::Curve { .. }, QuoteReply::Curve(_)) => true,
            (QuoteStage::Supply { .. }, QuoteReply::Number(_)) => true,
            (QuoteStage::Price { .. }, QuoteReply::Number(_)) => true,
            (QuoteStage::Redeem { .. }, QuoteReply::Redeem { .. }) => true,
            (QuoteStage::PostPrice { .. }, QuoteReply::Number(_)) => true,
            _ => false,
        }
    }

    /// The job at another stage.
    fn at(&self, stage: QuoteStage) -> (step: QuoteStep)
        ensures
            step == QuoteStep::Ask(QuoteJob { stage, ..*self }),
    {
        QuoteStep::Ask(
            QuoteJob {
                market: self.market,
                token_id: self.token_id,
                max_sell_slippage_bps: self.max_sell_slippage_bps,
                extra_sell_tax_bps: self.extra_sell_tax_bps,
                stage,
            },
        )
    }

    /// What follows once the amount is known.
    fn with_amount(&self, decimals: u8, ot_amount: U256) -> (step: QuoteStep)
        ensures
            match after_amount(decimals, ot_amount) {
                Verdict::Next(stage) => step == QuoteStep::Ask(QuoteJob { stage, ..*self }),
                Verdict::Quote => false,
                Verdict::Refused(error) => step == QuoteStep::Refused(error),
            },
    {
        if ot_amount.is_zero() {
            QuoteStep::Refused(QuoteError::ZeroAmount)
        } else {
            self.at(QuoteStage::Curve { decimals, ot_amount })
        }
    }

    /// What follows from an answer.
    pub fn advance(&self, reply: QuoteReply) -> (step: QuoteStep)
        requires
            within_supply(self.stage),
            answers(self.stage, reply),
        ensures
            match verdict(self.stage, reply) {
                Verdict::Next(stage) => step == QuoteStep::Ask(QuoteJob { stage, ..*self })
                    && within_supply(stage),
                Verdict::Quote => step matches QuoteStep::Quote(quote) && is_quote_of(
                    quote,
                    *self,
                    reply,
                ),
                Verdict::Refused(error) => step == QuoteStep::Refused(error),
            },
    {
        match (self.stage, reply) {
            (
                QuoteStage::Decimals { amount: SellAmount::Exact(ot_amount) },
                QuoteReply::Decimals(decimals),
            ) => self.with_amount(decimals, ot_amount),
            (
                QuoteStage::Decimals { amount: SellAmount::WalletBalance(wallet) },
                QuoteReply::Decimals(decimals),
            ) => self.at(QuoteStage::Balance { decimals, wallet }),
            (
                QuoteStage::Balance { decimals, .. },
                QuoteReply::Number(ot_amount),
            ) => self.with_amount(decimals, ot_amount),
            (QuoteStage::Curve { decimals, ot_amount }, QuoteReply::Curve(curve)) => self.at(
                QuoteStage::Supply { decimals, ot_amount, curve },
            ),
            (
                QuoteStage::Supply { decimals, ot_amount, curve },
                QuoteReply::Number(pre_supply),
            ) => {
                if ot_amount.at_most(pre_supply) {
                    self.at(QuoteStage::Price { decimals, ot_amount, curve, pre_supply })
                } else {
                    QuoteStep::Refused(QuoteError::AboveSupply)
                }
            },
            (
                QuoteStage::Price { decimals, ot_amount, curve, pre_supply },
                QuoteReply::Number(pre_marginal_price),
            ) => self.at(
                QuoteStage::Redeem { decimals, ot_amount, curve, pre_supply, pre_marginal_price },
            ),
            (
                QuoteStage::Redeem { decimals, ot_amount, curve, pre_supply, pre_marginal_price },
                QuoteReply::Redeem { collateral_to_user, collateral_to_treasury },
            ) => self.at(
                QuoteStage::PostPrice {
                    decimals,
                    ot_amount,
                    curve,
                    pre_supply,
                    pre_marginal_price,
                    collateral_to_user,
                    collateral_to_treasury,
                },
            ),
            (
                QuoteStage::PostPrice {
                    decimals,
                    ot_amount,
                    pre_supply,
                    pre_marginal_price,
                    collateral_to_user,
                    collateral_to_treasury,
                    ..
                },
                QuoteReply::Number(post_marginal_price),
            ) => QuoteStep::Quote(
                sell_quote(
                    self.market,
                    self.token_id,
                    decimals,
                    ot_amount,
                    pre_supply,
                    pre_marginal_price,
                    post_marginal_price,
                    collateral_to_user,
                    collateral_to_treasury,
                    self.extra_sell_tax_bps,
                    self.max_sell_slippage_bps,
                ),
            ),
            _ => QuoteStep::Ask(*self),
        }
    }
}

/// What follows from a list of answers, the first of them that ends the quote included.
pub open spec fn outcome(stage: QuoteStage, replies: Seq<QuoteReply>) -> Verdict
    decreases replies.len(),
{
    if replies.len() == 0 {
        Verdict::Next(stage)
    } else {
        match verdict(stage, replies[0]) {
            Verdict::Next(next) => outcome(next, replies.skip(1)),
            end => end,
        }
    }
}

/// A quote is refused exactly where the amount is zero or above the supply; else six
/// answers lead to it, and one more where the balance of a wallet is sold.
pub proof fn law_quotes_need_a_sellable_amount(
    amount: SellAmount,
    ot_amount: U256,
    decimals: u8,
    curve: Address,
    supply: U256,
    price: U256,
    user: U256,
    treasury: U256,
    post_price: U256,
)
    requires
        amount matches SellAmount::Exact(n) ==> n == ot_amount,
    ensures
        ({
            let redeem = QuoteReply::Redeem {
                collateral_to_user: user,
                collateral_to_treasury: treasury,
            };
            let rest = seq![
                QuoteReply::Curve(curve),
                QuoteReply::Number(supply),
                QuoteReply::Number(price),
                redeem,
                QuoteReply::Number(post_price),
            ];
            let replies = match amount {
                SellAmount::Exact(_) => seq![QuoteReply::Decimals(decimals)] + rest,
                SellAmount::WalletBalance(_) => seq![
                    QuoteReply::Decimals(decimals),
                    QuoteReply::Number(ot_amount),
                ] + rest,
            };
            outcome(QuoteStage::Decimals { amount }, replies) == if ot_amount@ == 0 {
                Verdict::Refused(QuoteError::ZeroAmount)
            } else if ot_amount@ > supply@ {
                Verdict::Refused(QuoteError::AboveSupply)
            } else {
                Verdict::Quote
            }
        }),
{
    let redeem = QuoteReply::Redeem { collateral_to_user: user, collateral_to_treasury: treasury };
    let rest = seq![
        QuoteReply::Curve(curve),
        QuoteReply::Number(supply),
        QuoteReply::Number(price),
        redeem,
        QuoteReply::Number(post_price),
    ];
    let exact = seq![QuoteReply::Decimals(decimals)] + rest;
    let balance = seq![QuoteReply::Decimals(decimals), QuoteReply::Number(ot_amount)] + rest;
    assert(exact.skip(1) =~= rest);
    assert(balance.skip(1).skip(1) =~= rest);
    reveal_with_fuel(outcome, 8);
}

/// In every quote the losses and the tax stay within the whole, the seller gets
/// no more than the curve pays out, and the further tax makes no loss smaller:
/// what is lost in all is at least the slippage, as long as what the curve pays in
/// all fits in 256 bits.
pub proof fn law_quotes_are_consistent(quote: SellQuote, max_bps: u64)
    requires
        follows(quote, max_bps),
        quote.extra_tax_bps <= 10_000,
    ensures
        quote.slippage_bps <= 10_000,
        quote.effective_loss_bps <= 10_000,
        quote.estimated_net_to_user@ + quote.extra_sell_tax@ == quote.collateral_to_user@,
        quote.collateral_to_user@ + quote.collateral_to_treasury@ < u256_limit() ==> {
            &&& quote.protocol_tax_bps <= 10_000
            &&& quote.slippage_bps <= quote.effective_loss_bps
        },
        max_bps >= 10_000 ==> quote.executable,
{
    let user = quote.collateral_to_user@;
    let treasury = quote.collateral_to_treasury@;
    let gross = (user + treasury) % u256_limit();
    let spot = quote.spot_collateral_value@;
    let net = quote.estimated_net_to_user@;
    law_losses_stay_within_the_whole(spot, gross);
    law_losses_stay_within_the_whole(spot, net);
    law_taxes_stay_within_the_amount(user, quote.extra_tax_bps as nat);
    if user + treasury < u256_limit() {
        assert(gross == user + treasury);
        law_losses_stay_within_the_whole(gross, treasury);
        law_losses_fall_with_the_yield(spot, net, gross);
    }
}

/// The value at the price before the sale is the amount times the price in whole
/// tokens, rounded down: a token has ten to the power of its decimals smallest units,
/// so that exactly one token is worth the price. Where 256 bits do not hold the product,
/// as much of it counts as they hold.
pub proof fn law_spot_value_counts_whole_tokens(quote: SellQuote, max_bps: u64)
    requires
        follows(quote, max_bps),
        quote.ot_decimals < 78,
    ensures
        ({
            let token = pow(10, quote.ot_decimals as nat);
            let spot = quote.spot_collateral_value@;
            let product = quote.ot_amount@ * quote.pre_marginal_price@;
            &&& product < u256_limit() ==> spot * token <= product < (spot + 1) * token
            &&& product < u256_limit() && quote.ot_amount@ == token ==> spot
                == quote.pre_marginal_price@
            &&& product >= u256_limit() ==> spot * token <= u256_limit() - 1 < (spot + 1) * token
        }),
{
    let token = pow(10, quote.ot_decimals as nat);
    let spot = quote.spot_collateral_value@ as int;
    let price = quote.pre_marginal_price@ as int;
    lemma_scale_fits(quote.ot_decimals as nat);
    law_products_are_divided(quote.ot_amount@, quote.pre_marginal_price@, token as nat);
    if quote.ot_amount@ == token && quote.ot_amount@ * quote.pre_marginal_price@ < u256_limit() {
        assert(spot == price) by (nonlinear_arith)
            requires
                spot * token <= token * price < (spot + 1) * token,
                token > 0,
        ;
    }
}

/// The numbers of a quote in terms of each other: the supply falls by what is sold; the
/// slippage is what the whole yield, modulo two to the power of 256, lacks of the value
/// before, in ten-thousandths; the tax of the protocol is the part of the treasury in
/// the whole yield; the further tax is taken from the part of the seller, and the
/// effective loss is what then lacks. The quote is accepted exactly where the slippage
/// is at most the largest that is allowed.
pub proof fn law_quotes_add_up(quote: SellQuote, max_bps: u64)
    requires
        follows(quote, max_bps),
    ensures
        quote.post_supply@ + quote.ot_amount@ == quote.pre_supply@,
        quote.executable <==> quote.slippage_bps <= max_bps,
        quote.executable ==> quote.reason@ == "ok"@,
        !quote.executable ==> quote.reason@ == "slippage "@ + decimal(quote.slippage_bps as nat)
            + " bps exceeds max "@ + decimal(max_bps as nat) + " bps"@,
        quote.collateral_to_user@ * quote.extra_tax_bps < u256_limit() ==> quote.extra_sell_tax@
            * 10_000 <= quote.collateral_to_user@ * quote.extra_tax_bps < (quote.extra_sell_tax@
            + 1) * 10_000,
        quote.collateral_to_user@ * quote.extra_tax_bps >= u256_limit() ==> quote.extra_sell_tax@
            * 10_000 <= u256_limit() - 1 < (quote.extra_sell_tax@ + 1) * 10_000,
        quote.extra_sell_tax@ <= quote.collateral_to_user@ ==> quote.estimated_net_to_user@
            + quote.extra_sell_tax@ == quote.collateral_to_user@,
        quote.extra_sell_tax@ > quote.collateral_to_user@ ==> quote.estimated_net_to_user@ == 0,
        ({
            let spot = quote.spot_collateral_value@;
            let gross = (quote.collateral_to_user@ + quote.collateral_to_treasury@) % u256_limit();
            let treasury = quote.collateral_to_treasury@;
            let net = quote.estimated_net_to_user@;
            let slippage = quote.slippage_bps as nat;
            let tax = quote.protocol_tax_bps as nat;
            let loss = quote.effective_loss_bps as nat;
            &&& gross >= spot ==> slippage == 0
            &&& gross < spot && (spot - gross) * 10_000 < u256_limit() ==> slippage * spot <= (spot
                - gross) * 10_000 < (slippage + 1) * spot
            &&& gross < spot && (spot - gross) * 10_000 >= u256_limit() ==> slippage * spot
                <= u256_limit() - 1 < (slippage + 1) * spot
            &&& gross == 0 ==> tax == 0
            &&& gross > 0 && treasury * 10_000 < u256_limit() && tax < u64::MAX ==> tax * gross
                <= treasury * 10_000 < (tax + 1) * gross
            &&& gross > 0 && treasury <= gross && treasury * 10_000 < u256_limit() ==> tax
                <= 10_000
            &&& gross > 0 && treasury * 10_000 >= u256_limit() && tax < u64::MAX ==> tax * gross
                <= u256_limit() - 1 < (tax + 1) * gross
            &&& net >= spot ==> loss == 0
            &&& net < spot && (spot - net) * 10_000 < u256_limit() ==> loss * spot <= (spot - net)
                * 10_000 < (loss + 1) * spot
            &&& net < spot && (spot - net) * 10_000 >= u256_limit() ==> loss * spot
                <= u256_limit() - 1 < (loss + 1) * spot
        }),
{
    let user = quote.collateral_to_user@;
    let treasury = quote.collateral_to_treasury@;
    let spot = quote.spot_collateral_value@;
    let gross = (user + treasury) % u256_limit();
    law_products_are_divided(user, quote.extra_tax_bps as nat, 10_000);
    law_losses_are_what_is_missing(spot, gross);
    law_losses_are_what_is_missing(spot, quote.estimated_net_to_user@);
    law_shares_are_ten_thousandths(treasury, gross);
    if 0 < gross && treasury <= gross {
        lemma_share_within(treasury, gross);
    }
}

/// The answers reach the quote as they were given: the stage before the last answer
/// holds the decimals, the amount, the curve, the supply and the price before the sale,
/// and what goes to the seller and to the treasury, and a quote that follows from it
/// holds the same, with the last answer as the price after the sale.
pub proof fn law_answers_reach_the_quote(
    job: QuoteJob,
    quote: SellQuote,
    amount: SellAmount,
    ot_amount: U256,
    decimals: u8,
    curve: Address,
    supply: U256,
    price: U256,
    user: U256,
    treasury: U256,
    post_price: U256,
)
    requires
        amount matches SellAmount::Exact(n) ==> n == ot_amount,
        0 < ot_amount@ <= supply@,
        is_quote_of(quote, job, QuoteReply::Number(post_price)),
        job.stage == (QuoteStage::PostPrice {
            decimals,
            ot_amount,
            curve,
            pre_supply: supply,
            pre_marginal_price: price,
            collateral_to_user: user,
            collateral_to_treasury: treasury,
        }),
    ensures
        ({
            let redeem = QuoteReply::Redeem {
                collateral_to_user: user,
                collateral_to_treasury: treasury,
            };
            let rest = seq![
                QuoteReply::Curve(curve),
                QuoteReply::Number(supply),
                QuoteReply::Number(price),
                redeem,
            ];
            let replies = match amount {
                SellAmount::Exact(_) => seq![QuoteReply::Decimals(decimals)] + rest,
                SellAmount::WalletBalance(_) => seq![
                    QuoteReply::Decimals(decimals),
                    QuoteReply::Number(ot_amount),
                ] + rest,
            };
            outcome(QuoteStage::Decimals { amount }, replies) == Verdict::Next(job.stage)
        }),
        verdict(job.stage, QuoteReply::Number(post_price)) == Verdict::Quote,
        quote.market == job.market,
        quote.token_id == job.token_id,
        quote.ot_decimals == decimals,
        quote.ot_amount == ot_amount,
        quote.pre_supply == supply,
        quote.pre_marginal_price == price,
        quote.post_marginal_price == post_price,
        quote.collateral_to_user == user,
        quote.collateral_to_treasury == treasury,
        quote.extra_tax_bps == job.extra_sell_tax_bps,
        quote.executable <==> quote.slippage_bps <= job.max_sell_slippage_bps,
        follows(quote, job.max_sell_slippage_bps),
{
    let redeem = QuoteReply::Redeem { collateral_to_user: user, collateral_to_treasury: treasury };
    let rest = seq![
        QuoteReply::Curve(curve),
        QuoteReply::Number(supply),
        QuoteReply::Number(price),
        redeem,
    ];
    let exact = seq![QuoteReply::Decimals(decimals)] + rest;
    let balance = seq![QuoteReply::Decimals(decimals), QuoteReply::Number(ot_amount)] + rest;
    assert(exact.skip(1) =~= rest);
    assert(balance.skip(1).skip(1) =~= rest);
    reveal_with_fuel(outcome, 7);
}

/// What a record of a quote holds.
pub open spec fn quote_members(
    ts_ms: u64,
    context: Seq<char>,
    sample_offset_ms: Option<u64>,
    quote: SellQuote,
) -> Members {
    no_members().insert(
        "ts_ms"@,
        JsonValue::Unsigned(ts_ms),
    ).insert(
        "context"@,
        JsonValue::Text(context),
    ).insert(
        "sample_offset_ms"@,
        optional_number(sample_offset_ms),
    ).insert(
        "market"@,
        JsonValue::Text(checksummed(quote.market@)),
    ).insert(
        "token_id"@,
        JsonValue::Text(decimal(quote.token_id@)),
    ).insert(
        "ot_decimals"@,
        JsonValue::Unsigned(quote.ot_decimals as u64),
    ).insert(
        "ot_amount"@,
        JsonValue::Text(decimal(quote.ot_amount@)),
    ).insert(
        "pre_supply"@,
        JsonValue::Text(decimal(quote.pre_supply@)),
    ).insert(
        "post_supply"@,
        JsonValue::Text(decimal(quote.post_supply@)),
    ).insert(
        "pre_marginal_price"@,
        JsonValue::Text(decimal(quote.pre_marginal_price@)),
    ).insert(
        "post_marginal_price"@,
        JsonValue::Text(decimal(quote.post_marginal_price@)),
    ).insert(
        "spot_collateral_value"@,
        JsonValue::Text(decimal(quote.spot_collateral_value@)),
    ).insert(
        "collateral_to_user"@,
        JsonValue::Text(decimal(quote.collateral_to_user@)),
    ).insert(
        "collateral_to_treasury"@,
        JsonValue::Text(decimal(quote.collateral_to_treasury@)),
    ).insert(
        "extra_sell_tax"@,
        JsonValue::Text(decimal(quote.extra_sell_tax@)),
    ).insert(
        "estimated_net_to_user"@,
        JsonValue::Text(decimal(quote.estimated_net_to_user@)),
    ).insert(
        "slippage_bps"@,
        JsonValue::Unsigned(quote.slippage_bps),
    ).insert(
        "protocol_tax_bps"@,
        JsonValue::Unsigned(quote.protocol_tax_bps),
    ).insert(
        "extra_tax_bps"@,
        JsonValue::Unsigned(quote.extra_tax_bps),
    ).insert(
        "effective_loss_bps"@,
        JsonValue::Unsigned(quote.effective_loss_bps),
    ).insert(
        "executable"@,
        JsonValue::Bool(quote.executable),
    ).insert(
        "reason"@,
        JsonValue::Text(quote.reason@),
    )
}

/// The record of a quote.
pub fn sell_quote_record(
    ts_ms: u64,
    context: &str,
    sample_offset_ms: Option<u64>,
    quote: &SellQuote,
) -> (record: JsonObject)
    ensures
        object_members(record) == quote_members(ts_ms, context@, sample_offset_ms, *quote),
{
    let mut record = empty_object();
    put_number(&mut record, "ts_ms", ts_ms);
    put_text(&mut record, "context", context.to_owned());
    put_optional_number(&mut record, "sample_offset_ms", sample_offset_ms);
    put_text(&mut record, "market", quote.market.to_checksummed());
    put_text(&mut record, "token_id", quote.token_id.to_decimal());
    put_number(&mut record, "ot_decimals", quote.ot_decimals as u64);
    put_text(&mut record, "ot_amount", quote.ot_amount.to_decimal());
    put_text(&mut record, "pre_supply", quote.pre_supply.to_decimal());
    put_text(&mut record, "post_supply", quote.post_supply.to_decimal());
    put_text(&mut record, "pre_marginal_price", quote.pre_marginal_price.to_decimal());
    put_text(&mut record, "post_marginal_price", quote.post_marginal_price.to_decimal());
    put_text(&mut record, "spot_collateral_value", quote.spot_collateral_value.to_decimal());
    put_text(&mut record, "collateral_to_user", quote.collateral_to_user.to_decimal());
    put_text(&mut record, "collateral_to_treasury", quote.collateral_to_treasury.to_decimal());
    put_text(&mut record, "extra_sell_tax", quote.extra_sell_tax.to_decimal());
    put_text(&mut record, "estimated_net_to_user", quote.estimated_net_to_user.to_decimal());
    put_number(&mut record, "slippage_bps", quote.slippage_bps);
    put_number(&mut record, "protocol_tax_bps", quote.protocol_tax_bps);
    put_number(&mut record, "extra_tax_bps", quote.extra_tax_bps);
    put_number(&mut record, "effective_loss_bps", quote.effective_loss_bps);
    put_bool(&mut record, "executable", quote.executable);
    put_text(&mut record, "reason", quote.reason.clone());
    record
}

/// The record of a quote that was asked for by the command.
pub fn quote_sell_record(ts_ms: u64, quote: &SellQuote) -> (record: JsonObject)
    ensures
        object_members(record) == quote_members(ts_ms, "quote_sell"@, None, *quote),
{
    sell_quote_record(ts_ms, "quote_sell", None, quote)
}

/// What a record of a quote that was not produced holds.
pub open spec fn skip_members(
    ts_ms: u64,
    context: Seq<char>,
    market: Seq<u8>,
    token_id: nat,
    sample_offset_ms: Option<u64>,
    reason: Seq<char>,
) -> Members {
    no_members().insert(
        "ts_ms"@,
        JsonValue::Unsigned(ts_ms),
    ).insert(
        "context"@,
        JsonValue::Text(context),
    ).insert(
        "sample_offset_ms"@,
        optional_number(sample_offset_ms),
    ).insert(
        "market"@,
        JsonValue::Text(checksummed(market)),
    ).insert(
        "token_id"@,
        JsonValue::Text(decimal(token_id)),
    ).insert(
        "skipped"@,
        JsonValue::Bool(true),
    ).insert(
        "reason"@,
        JsonValue::Text(reason),
    )
}

/// The record of a quote that was not produced.
pub fn skip_record(
    ts_ms: u64,
    context: &str,
    market: &Address,
    token_id: U256,
    sample_offset_ms: Option<u64>,
    reason: &str,
) -> (record: JsonObject)
    ensures
        object_members(record) == skip_members(
            ts_ms,
            context@,
            market@,
            token_id@,
            sample_offset_ms,
            reason@,
        ),
{
    let mut record = empty_object();
    put_number(&mut record, "ts_ms", ts_ms);
    put_text(&mut record, "context", context.to_owned());
    put_optional_number(&mut record, "sample_offset_ms", sample_offset_ms);
    put_text(&mut record, "market", market.to_checksummed());
    put_text(&mut record, "token_id", token_id.to_decimal());
    put_bool(&mut record, "skipped", true);
    put_text(&mut record, "reason", reason.to_owned());
    record
}

/// What is printed of a quote.
pub open spec fn display_members(quote: SellQuote) -> Members {
    no_members().insert(
        "market"@,
        JsonValue::Text(checksummed(quote.market@)),
    ).insert(
        "token_id"@,
        JsonValue::Text(decimal(quote.token_id@)),
    ).insert(
        "ot_decimals"@,
        JsonValue::Unsigned(quote.ot_decimals as u64),
    ).insert(
        "ot_amount"@,
        JsonValue::Text(decimal(quote.ot_amount@)),
    ).insert(
        "spot_collateral_value"@,
        JsonValue::Text(decimal(quote.spot_collateral_value@)),
    ).insert(
        "collateral_to_user"@,
        JsonValue::Text(decimal(quote.collateral_to_user@)),
    ).insert(
        "collateral_to_treasury"@,
        JsonValue::Text(decimal(quote.collateral_to_treasury@)),
    ).insert(
        "extra_sell_tax"@,
        JsonValue::Text(decimal(quote.extra_sell_tax@)),
    ).insert(
        "estimated_net_to_user"@,
        JsonValue::Text(decimal(quote.estimated_net_to_user@)),
    ).insert(
        "slippage_bps"@,
        JsonValue::Unsigned(quote.slippage_bps),
    ).insert(
        "protocol_tax_bps"@,
        JsonValue::Unsigned(quote.protocol_tax_bps),
    ).insert(
        "extra_tax_bps"@,
        JsonValue::Unsigned(quote.extra_tax_bps),
    ).insert(
        "effective_loss_bps"@,
        JsonValue::Unsigned(quote.effective_loss_bps),
    ).insert(
        "executable"@,
        JsonValue::Bool(quote.executable),
    ).insert(
        "reason"@,
        JsonValue::Text(quote.reason@),
    )
}

/// What is printed of a quote.
pub fn quote_for_display(quote: &SellQuote) -> (record: JsonObject)
    ensures
        object_members(record) == display_members(*quote),
{
    let mut record = empty_object();
    put_text(&mut record, "market", quote.market.to_checksummed());
    put_text(&mut record, "token_id", quote.token_id.to_decimal());
    put_number(&mut record, "ot_decimals", quote.ot_decimals as u64);
    put_text(&mut record, "ot_amount", quote.ot_amount.to_decimal());
    put_text(&mut record, "spot_collateral_value", quote.spot_collateral_value.to_decimal());
    put_text(&mut record, "collateral_to_user", quote.collateral_to_user.to_decimal());
    put_text(&mut record, "collateral_to_treasury", quote.collateral_to_treasury.to_decimal());
    put_text(&mut record, "extra_sell_tax", quote.extra_sell_tax.to_decimal());
    put_text(&mut record, "estimated_net_to_user", quote.estimated_net_to_user.to_decimal());
    put_number(&mut record, "slippage_bps", quote.slippage_bps);
    put_number(&mut record, "protocol_tax_bps", quote.protocol_tax_bps);
    put_number(&mut record, "extra_tax_bps", quote.extra_tax_bps);
    put_number(&mut record, "effective_loss_bps", quote.effective_loss_bps);
    put_bool(&mut record, "executable", quote.executable);
    put_text(&mut record, "reason", quote.reason.clone());
    record
}

/// The names of the members of the records of quotes differ.
proof fn lemma_price_names()
    ensures
        "ts_ms"@.len() == 5,
        "context"@.len() == 7,
        "sample_offset_ms"@.len() == 16,
        "market"@.len() == 6,
        "token_id"@.len() == 8,
        "ot_decimals"@.len() == 11,
        "ot_amount"@.len() == 9,
        "pre_supply"@.len() == 10,
        "post_supply"@.len() == 11,
        "pre_marginal_price"@.len() == 18,
        "post_marginal_price"@.len() == 19,
        "spot_collateral_value"@.len() == 21,
        "collateral_to_user"@.len() == 18,
        "collateral_to_treasury"@.len() == 22,
        "extra_sell_tax"@.len() == 14,
        "estimated_net_to_user"@.len() == 21,
        "slippage_bps"@.len() == 12,
        "protocol_tax_bps"@.len() == 16,
        "extra_tax_bps"@.len() == 13,
        "effective_loss_bps"@.len() == 18,
        "executable"@.len() == 10,
        "reason"@.len() == 6,
        "skipped"@.len() == 7,
        "context"@ != "skipped"@,
        "sample_offset_ms"@ != "protocol_tax_bps"@,
        "market"@ != "reason"@,
        "ot_decimals"@ != "post_supply"@,
        "pre_supply"@ != "executable"@,
        "pre_marginal_price"@ != "collateral_to_user"@,
        "pre_marginal_price"@ != "effective_loss_bps"@,
        "spot_collateral_value"@ != "estimated_net_to_user"@,
        "collateral_to_user"@ != "effective_loss_bps"@,
{
    reveal_strlit("ts_ms");
    reveal_strlit("context");
    reveal_strlit("sample_offset_ms");
    reveal_strlit("market");
    reveal_strlit("token_id");
    reveal_strlit("ot_decimals");
    reveal_strlit("ot_amount");
    reveal_strlit("pre_supply");
    reveal_strlit("post_supply");
    reveal_strlit("pre_marginal_price");
    reveal_strlit("post_marginal_price");
    reveal_strlit("spot_collateral_value");
    reveal_strlit("collateral_to_user");
    reveal_strlit("collateral_to_treasury");
    reveal_strlit("extra_sell_tax");
    reveal_strlit("estimated_net_to_user");
    reveal_strlit("slippage_bps");
    reveal_strlit("protocol_tax_bps");
    reveal_strlit("extra_tax_bps");
    reveal_strlit("effective_loss_bps");
    reveal_strlit("executable");
    reveal_strlit("reason");
    reveal_strlit("skipped");
    assert("context"@[0] != "skipped"@[0]);
    assert("sample_offset_ms"@[0] != "protocol_tax_bps"@[0]);
    assert("market"@[0] != "reason"@[0]);
    assert("ot_decimals"@[0] != "post_supply"@[0]);
    assert("pre_supply"@[0] != "executable"@[0]);
    assert("pre_marginal_price"@[0] != "collateral_to_user"@[0]);
    assert("pre_marginal_price"@[0] != "effective_loss_bps"@[0]);
    assert("spot_collateral_value"@[0] != "estimated_net_to_user"@[0]);
    assert("collateral_to_user"@[0] != "effective_loss_bps"@[0]);
}

/// The record of a quote states each number of the quote under its own name, so that it
/// reads back as the number, with the time, the context and the wait that it was made in.
#[verifier::spinoff_prover]
#[verifier::rlimit(60)]
pub proof fn law_quote_records_state_the_quote(
    ts_ms: u64,
    context: Seq<char>,
    sample_offset_ms: Option<u64>,
    quote: SellQuote,
)
    ensures
        ({
            let record = quote_members(ts_ms, context, sample_offset_ms, quote);
            &&& unsigned_member(record, "ts_ms"@) == Some(ts_ms)
            &&& text_member(record, "context"@) == Some(context)
            &&& record.contains_key("sample_offset_ms"@)
            &&& unsigned_member(record, "sample_offset_ms"@) == sample_offset_ms
            &&& text_member(record, "market"@) == Some(checksummed(quote.market@))
            &&& unsigned_member(record, "ot_decimals"@) == Some(quote.ot_decimals as u64)
            &&& states(record, "token_id"@, quote.token_id@)
            &&& states(record, "ot_amount"@, quote.ot_amount@)
            &&& states(record, "pre_supply"@, quote.pre_supply@)
            &&& states(record, "post_supply"@, quote.post_supply@)
            &&& states(record, "pre_marginal_price"@, quote.pre_marginal_price@)
            &&& states(record, "post_marginal_price"@, quote.post_marginal_price@)
            &&& states(record, "spot_collateral_value"@, quote.spot_collateral_value@)
            &&& states(record, "collateral_to_user"@, quote.collateral_to_user@)
            &&& states(record, "collateral_to_treasury"@, quote.collateral_to_treasury@)
            &&& states(record, "extra_sell_tax"@, quote.extra_sell_tax@)
            &&& states(record, "estimated_net_to_user"@, quote.estimated_net_to_user@)
            &&& unsigned_member(record, "slippage_bps"@) == Some(quote.slippage_bps)
            &&& unsigned_member(record, "protocol_tax_bps"@) == Some(quote.protocol_tax_bps)
            &&& unsigned_member(record, "extra_tax_bps"@) == Some(quote.extra_tax_bps)
            &&& unsigned_member(record, "effective_loss_bps"@) == Some(quote.effective_loss_bps)
            &&& record.contains_key("executable"@)
            &&& record["executable"@] == JsonValue::Bool(quote.executable)
            &&& text_member(record, "reason"@) == Some(quote.reason@)
            &&& !record.contains_key("skipped"@)
        }),
{
    lemma_price_names();
    lemma_number_reads_back(quote.token_id);
    lemma_number_reads_back(quote.ot_amount);
    lemma_number_reads_back(quote.pre_supply);
    lemma_number_reads_back(quote.post_supply);
    lemma_number_reads_back(quote.pre_marginal_price);
    lemma_number_reads_back(quote.post_marginal_price);
    lemma_number_reads_back(quote.spot_collateral_value);
    lemma_number_reads_back(quote.collateral_to_user);
    lemma_number_reads_back(quote.collateral_to_treasury);
    lemma_number_reads_back(quote.extra_sell_tax);
    lemma_number_reads_back(quote.estimated_net_to_user);
}

/// What is printed of a quote agrees with its record, and holds all of it but the
/// supplies, the prices and where and when the record was made.
#[verifier::spinoff_prover]
#[verifier::rlimit(60)]
pub proof fn law_printed_quotes_agree_with_their_records(
    ts_ms: u64,
    context: Seq<char>,
    sample_offset_ms: Option<u64>,
    quote: SellQuote,
    name: Seq<char>,
)
    ensures
        ({
            let record = quote_members(ts_ms, context, sample_offset_ms, quote);
            let printed = display_members(quote);
            &&& printed.contains_key(name) ==> record.contains_key(name) && record[name]
                == printed[name]
            &&& record.contains_key(name) && !printed.contains_key(name) ==> name == "ts_ms"@
                || name == "context"@ || name == "sample_offset_ms"@ || name == "pre_supply"@
                || name == "post_supply"@ || name == "pre_marginal_price"@ || name
                == "post_marginal_price"@
        }),
        text_member(display_members(quote), "market"@) == Some(checksummed(quote.market@)),
        states(display_members(quote), "token_id"@, quote.token_id@),
        states(display_members(quote), "ot_amount"@, quote.ot_amount@),
        states(display_members(quote), "spot_collateral_value"@, quote.spot_collateral_value@),
        states(display_members(quote), "collateral_to_user"@, quote.collateral_to_user@),
        states(display_members(quote), "collateral_to_treasury"@, quote.collateral_to_treasury@),
        states(display_members(quote), "extra_sell_tax"@, quote.extra_sell_tax@),
        states(display_members(quote), "estimated_net_to_user"@, quote.estimated_net_to_user@),
        unsigned_member(display_members(quote), "slippage_bps"@) == Some(quote.slippage_bps),
        unsigned_member(display_members(quote), "protocol_tax_bps"@) == Some(quote.protocol_tax_bps),
        unsigned_member(display_members(quote), "extra_tax_bps"@) == Some(quote.extra_tax_bps),
        unsigned_member(display_members(quote), "effective_loss_bps"@) == Some(quote.effective_loss_bps),
        text_member(display_members(quote), "reason"@) == Some(quote.reason@),
{
    lemma_price_names();
    lemma_number_reads_back(quote.token_id);
    lemma_number_reads_back(quote.ot_amount);
    lemma_number_reads_back(quote.spot_collateral_value);
    lemma_number_reads_back(quote.collateral_to_user);
    lemma_number_reads_back(quote.collateral_to_treasury);
    lemma_number_reads_back(quote.extra_sell_tax);
    lemma_number_reads_back(quote.estimated_net_to_user);
}

/// The record of a quote that was not produced says that it was skipped, why, and what
/// it would have been of.
pub proof fn law_skip_records_state_the_reason(
    ts_ms: u64,
    context: Seq<char>,
    market: Seq<u8>,
    token_id: U256,
    sample_offset_ms: Option<u64>,
    reason: Seq<char>,
)
    ensures
        ({
            let record = skip_members(
                ts_ms,
                context,
                market,
                token_id@,
                sample_offset_ms,
                reason,
            );
            &&& unsigned_member(record, "ts_ms"@) == Some(ts_ms)
            &&& text_member(record, "context"@) == Some(context)
            &&& record.contains_key("sample_offset_ms"@)
            &&& unsigned_member(record, "sample_offset_ms"@) == sample_offset_ms
            &&& text_member(record, "market"@) == Some(checksummed(market))
            &&& states(record, "token_id"@, token_id@)
            &&& record.contains_key("skipped"@)
            &&& record["skipped"@] == JsonValue::Bool(true)
            &&& text_member(record, "reason"@) == Some(reason)
        }),
{
    lemma_price_names();
    lemma_number_reads_back(token_id);
}

/// The records of quotes hold nothing but scalars, so they are read back from
/// their lines.
pub proof fn law_price_records_are_scalars(
    ts_ms: u64,
    context: Seq<char>,
    sample_offset_ms: Option<u64>,
    quote: SellQuote,
    market: Seq<u8>,
    token_id: nat,
    reason: Seq<char>,
)
    ensures
        all_scalars(quote_members(ts_ms, context, sample_offset_ms, quote)),
        all_scalars(skip_members(ts_ms, context, market, token_id, sample_offset_ms, reason)),
        all_scalars(display_members(quote)),
{
}

/// The samples of a price that are taken after a buy: how long to wait before each,
/// in milliseconds, and how many of them were begun.
#[derive(Debug)]
pub struct PriceSampler {
    pub token_id: U256,
    pub offsets: Vec<u64>,
    pub next: usize,
}

impl PriceSampler {
    /// The waits before the samples that are still to come.
    pub open spec fn remaining(self) -> Seq<u64> {
        if self.next < self.offsets@.len() {
            self.offsets@.skip(self.next as int)
        } else {
            Seq::empty()
        }
    }

    /// The wait before the next sample. What was given and what remains is always the
    /// whole list: each wait is given once, in the order of the list, whatever came of
    /// the samples before.
    pub fn next_sample(&mut self) -> (offset: Option<u64>)
        ensures
            final(self).token_id == old(self).token_id,
            final(self).offsets@ == old(self).offsets@,
            match offset {
                Some(offset) => {
                    &&& old(self).next < old(self).offsets@.len()
                    &&& offset == old(self).offsets@[old(self).next as int]
                    &&& final(self).next == old(self).next + 1
                    &&& old(self).remaining() == seq![offset] + final(self).remaining()
                },
                None => {
                    &&& old(self).next >= old(self).offsets@.len()
                    &&& final(self).next == old(self).next
                    &&& old(self).remaining().len() == 0
                },
            },
    {
        if self.next >= self.offsets.len() {
            return None;
        }
        let offset: u64 = self.offsets[self.next];
        self.next += 1;
        assert(old(self).remaining() =~= seq![offset] + self.remaining());
        Some(offset)
    }
}

/// What is done about prices after a buy.
#[derive(Debug)]
pub enum SamplerPlan {
    Off,
    Invalid(ConfigError),
    Sample(PriceSampler),
}

/// What is done about prices after a buy: nothing where the pricing is off or
/// nothing was bought, and else a sample after each of the configured times.
pub fn sampler_plan(settings: &Settings) -> (plan: SamplerPlan)
    ensures
        ({
            let token_id = uint_field(
                "strategy.outcome_token_id"@,
                settings.strategy.outcome_token_id@,
            );
            if !settings.pricing.enabled || settings.strategy.dry_run {
                plan is Off
            } else {
                match plan {
                    SamplerPlan::Off => false,
                    SamplerPlan::Invalid(error) => token_id == Err::<nat, ConfigErrorView>(error@),
                    SamplerPlan::Sample(sampler) => {
                        &&& token_id == Ok::<nat, ConfigErrorView>(sampler.token_id@)
                        &&& sampler.offsets@ == settings.pricing.sample_offsets_ms@
                        &&& sampler.next == 0
                    },
                }
            }
        }),
{
    if !settings.pricing.enabled || settings.strategy.dry_run {
        return SamplerPlan::Off;
    }
    match settings.outcome_token_id() {
        Ok(token_id) => SamplerPlan::Sample(
            PriceSampler {
                token_id,
                offsets: settings.pricing.sample_offsets_ms.clone(),
                next: 0,
            },
        ),
        Err(error) => SamplerPlan::Invalid(error),
    }
}

/// The record of a sample after a buy: that of the quote, or that of the reason why
/// there is none.
pub fn sample_record(
    ts_ms: u64,
    market: &Address,
    token_id: U256,
    offset_ms: u64,
    sample: &Result<SellQuote, String>,
) -> (record: JsonObject)
    ensures
        object_members(record) == match sample {
            Ok(quote) => quote_members(
                ts_ms,
                "post_buy_price_sample"@,
                Some(offset_ms),
                *quote,
            ),
            Err(reason) => skip_members(
                ts_ms,
                "post_buy_price_sample"@,
                market@,
                token_id@,
                Some(offset_ms),
                reason@,
            ),
        },
{
    match sample {
        Ok(quote) => sell_quote_record(ts_ms, "post_buy_price_sample", Some(offset_ms), quote),
        Err(reason) => skip_record(
            ts_ms,
            "post_buy_price_sample",
            market,
            token_id,
            Some(offset_ms),
            reason.as_str(),
        ),
    }
}

} // verus!
