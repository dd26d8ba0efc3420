//! The transactions: which one buys, which one approves, at which gas price, and
//! whether it is sent.
use vstd::prelude::*;

use crate::abi::{
    approve_call, approve_calldata, keccak, law_mint_calls_read_back, mint_call, mint_calldata,
    word_value,
};
use crate::address::Address;
use crate::config::{settings_error, Settings};
use crate::fields::{address_field, token_units, uint_field, ConfigError, ConfigErrorView};
use crate::u256::{lemma_u256_view, u256_limit, U256};

verus! {

/// A transaction that is sent.
#[derive(Debug)]
pub struct TxRequest {
    pub to: Address,
    pub chain_id: u64,
    pub input: Vec<u8>,
    pub gas_limit: u64,
    pub gas_price: u128,
}

/// The gas price with the bump, in as far as 128 bits hold it before the division.
pub open spec fn bumped(gas_price: nat, bump_bps: nat) -> nat {
    let product = gas_price * (10_000 + bump_bps);
    (if product <= u128::MAX {
        product
    } else {
        u128::MAX as nat
    }) / 10_000
}

/// The gas price with the bump.
pub fn bumped_gas_price(gas_price: u128, bump_bps: u64) -> (price: u128)
    ensures
        price == bumped(gas_price as nat, bump_bps as nat),
{
    match gas_price.checked_mul(10_000 + bump_bps as u128) {
        Some(product) => product / 10_000,
        None => u128::MAX / 10_000,
    }
}

/// Where the bumped price is not cut off, the bump adds its share to the price and
/// takes nothing from it.
pub proof fn law_bump_adds_to_the_price(gas_price: nat, bump_bps: nat)
    requires
        gas_price * (10_000 + bump_bps) <= u128::MAX,
    ensures
        bumped(gas_price, bump_bps) == gas_price + gas_price * bump_bps / 10_000,
        bumped(gas_price, bump_bps) >= gas_price,
        bump_bps == 0 ==> bumped(gas_price, bump_bps) == gas_price,
{
    let extra = gas_price * bump_bps;
    assert(gas_price * (10_000 + bump_bps) == gas_price * 10_000 + extra) by (nonlinear_arith)
        requires
            extra == gas_price * bump_bps,
    ;
    assert((gas_price * 10_000 + extra) / 10_000 == gas_price + extra / 10_000);
    assert(bump_bps == 0 ==> extra == 0) by (nonlinear_arith)
        requires
            extra == gas_price * bump_bps,
    ;
}

/// Where the bumped price is cut off, it is the same for every price and every bump,
/// and no more than the bump would make it.
pub proof fn law_bump_is_cut_off(gas_price: nat, bump_bps: nat)
    requires
        gas_price * (10_000 + bump_bps) > u128::MAX,
    ensures
        bumped(gas_price, bump_bps) == u128::MAX as nat / 10_000,
        bumped(gas_price, bump_bps) <= gas_price * (10_000 + bump_bps) / 10_000,
{
}

/// A higher price of gas is never bumped to a lower one, and a higher bump never makes
/// the price lower.
pub proof fn law_bumps_keep_the_order(less: nat, more: nat, small: nat, large: nat)
    requires
        less <= more,
        small <= large,
    ensures
        bumped(less, small) <= bumped(more, large),
{
    assert(less * (10_000 + small) <= more * (10_000 + large)) by (nonlinear_arith)
        requires
            less <= more,
            small <= large,
    ;
}

/// A buy that only lacks its gas price.
#[derive(Debug)]
pub struct BuyOrder {
    pub router: Address,
    pub amount: U256,
    pub token_id: U256,
    pub calldata: Vec<u8>,
}

/// The first field of the configuration that keeps a buy from being ordered.
pub open spec fn buy_error(s: Settings) -> Option<ConfigErrorView> {
    if let Err(error) = address_field("contracts.router"@, s.contracts.router@) {
        Some(error)
    } else if let Err(error) = token_units(
        "strategy.buy_amount_units"@,
        s.strategy.buy_amount_units@,
        s.strategy.collateral_decimals as nat,
    ) {
        Some(error)
    } else if let Err(error) = uint_field(
        "strategy.outcome_token_id"@,
        s.strategy.outcome_token_id@,
    ) {
        Some(error)
    } else if let Err(error) = uint_field(
        "strategy.min_out_or_max_in"@,
        s.strategy.min_out_or_max_in@,
    ) {
        Some(error)
    } else {
        None
    }
}

/// `order` buys what is configured in this market, for this wallet.
pub open spec fn is_buy(order: BuyOrder, s: Settings, wallet: Seq<u8>, market: Seq<u8>) -> bool {
    &&& address_field("contracts.router"@, s.contracts.router@) == Ok::<_, ConfigErrorView>(
        order.router@,
    )
    &&& token_units(
        "strategy.buy_amount_units"@,
        s.strategy.buy_amount_units@,
        s.strategy.collateral_decimals as nat,
    ) == Ok::<_, ConfigErrorView>(order.amount@)
    &&& uint_field("strategy.outcome_token_id"@, s.strategy.outcome_token_id@) == Ok::<
        _,
        ConfigErrorView,
    >(order.token_id@)
    &&& uint_field("strategy.min_out_or_max_in"@, s.strategy.min_out_or_max_in@) matches Ok(min_out)
        && order.calldata@ == mint_call(market, wallet, order.token_id@, order.amount@, min_out)
}

/// The bytes of an ordered buy say what is configured: at the places where the router
/// reads them stand the market, the wallet, the configured outcome, the configured
/// amount and the configured least yield, and that the amount is spent exactly to mint.
pub proof fn law_buys_say_what_is_configured(
    order: BuyOrder,
    s: Settings,
    wallet: Seq<u8>,
    market: Seq<u8>,
)
    requires
        is_buy(order, s, wallet, market),
        wallet.len() == 20,
        market.len() == 20,
        keccak(
            "swapSimple(address,address,uint256,(bool,uint256,bool,uint256),bytes,bytes)"@,
        ).len() == 32,
    ensures
        address_field("contracts.router"@, s.contracts.router@) == Ok::<_, ConfigErrorView>(
            order.router@,
        ),
        order.calldata@.len() == 356,
        order.calldata@.subrange(16, 36) == market,
        order.calldata@.subrange(48, 68) == wallet,
        uint_field("strategy.outcome_token_id"@, s.strategy.outcome_token_id@) == Ok::<
            nat,
            ConfigErrorView,
        >(word_value(order.calldata@.subrange(68, 100))),
        word_value(order.calldata@.subrange(68, 100)) == order.token_id@,
        word_value(order.calldata@.subrange(100, 132)) == 1,
        token_units(
            "strategy.buy_amount_units"@,
            s.strategy.buy_amount_units@,
            s.strategy.collateral_decimals as nat,
        ) == Ok::<nat, ConfigErrorView>(word_value(order.calldata@.subrange(132, 164))),
        word_value(order.calldata@.subrange(132, 164)) == order.amount@,
        word_value(order.calldata@.subrange(164, 196)) == 1,
        uint_field("strategy.min_out_or_max_in"@, s.strategy.min_out_or_max_in@) == Ok::<
            nat,
            ConfigErrorView,
        >(word_value(order.calldata@.subrange(196, 228))),
{
    let min_out = uint_field("strategy.min_out_or_max_in"@, s.strategy.min_out_or_max_in@)->Ok_0;
    lemma_u256_view(order.token_id, order.amount);
    lemma_u256_view(order.amount, order.token_id);
    law_mint_calls_read_back(market, wallet, order.token_id@, order.amount@, min_out);
}

/// A buy is ordered exactly where the router, the amount, the outcome and the least
/// yield can all be read.
pub proof fn law_readable_buys_are_ordered(s: Settings)
    ensures
        buy_error(s) is None <==> {
            &&& address_field("contracts.router"@, s.contracts.router@) is Ok
            &&& token_units(
                "strategy.buy_amount_units"@,
                s.strategy.buy_amount_units@,
                s.strategy.collateral_decimals as nat,
            ) is Ok
            &&& uint_field("strategy.outcome_token_id"@, s.strategy.outcome_token_id@) is Ok
            &&& uint_field("strategy.min_out_or_max_in"@, s.strategy.min_out_or_max_in@) is Ok
        },
{
}

/// Orders a buy of what is configured in a market, for a wallet.
pub fn order_buy(settings: &Settings, wallet: &Address, market: &Address) -> (result: Result<
    BuyOrder,
    ConfigError,
>)
    ensures
        match result {
            Ok(order) => buy_error(*settings) is None && is_buy(order, *settings, wallet@, market@),
            Err(error) => buy_error(*settings) == Some(error@),
        },
        result matches Ok(order) ==> {
            &&& order.calldata@.len() == 356
            &&& order.calldata@.subrange(16, 36) == market@
            &&& order.calldata@.subrange(48, 68) == wallet@
            &&& uint_field(
                "strategy.outcome_token_id"@,
                settings.strategy.outcome_token_id@,
            ) == Ok::<nat, ConfigErrorView>(word_value(order.calldata@.subrange(68, 100)))
            &&& word_value(order.calldata@.subrange(68, 100)) == order.token_id@
            &&& word_value(order.calldata@.subrange(100, 132)) == 1
            &&& word_value(order.calldata@.subrange(132, 164)) == order.amount@
            &&& word_value(order.calldata@.subrange(164, 196)) == 1
            &&& uint_field(
                "strategy.min_out_or_max_in"@,
                settings.strategy.min_out_or_max_in@,
            ) == Ok::<nat, ConfigErrorView>(word_value(order.calldata@.subrange(196, 228)))
        },
{
    let router = match settings.router_address() {
        Ok(router) => router,
        Err(error) => return Err(error),
    };
    let amount = match settings.buy_amount() {
        Ok(amount) => amount,
        Err(error) => return Err(error),
    };
    let token_id = match settings.outcome_token_id() {
        Ok(token_id) => token_id,
        Err(error) => return Err(error),
    };
    let min_out = match settings.min_out_or_max_in() {
        Ok(min_out) => min_out,
        Err(error) => return Err(error),
    };
    let calldata = mint_calldata(market, wallet, token_id, amount, min_out);
    Ok(BuyOrder { router, amount, token_id, calldata })
}

/// What becomes of a transaction: it is held back, or sent, and then waited for or not.
#[derive(Debug)]
pub enum Dispatch {
    DryRun { gas_price: u128 },
    Send { tx: TxRequest, wait_for_receipt: bool },
}

/// Decides on a buy once the gas price is known. In a dry run nothing is sent.
pub fn dispatch_buy(settings: &Settings, order: BuyOrder, gas_price: u128) -> (dispatch: Dispatch)
    ensures
        ({
            let price = bumped(gas_price as nat, settings.strategy.gas_price_bump_bps as nat);
            if settings.strategy.dry_run {
                dispatch matches Dispatch::DryRun { gas_price } && gas_price == price
            } else {
                dispatch matches Dispatch::Send { tx, wait_for_receipt } && {
                    &&& tx.to == order.router
                    &&& tx.chain_id == settings.rpc.chain_id
                    &&& tx.input == order.calldata
                    &&& tx.gas_limit == settings.strategy.gas_limit
                    &&& tx.gas_price == price
                    &&& wait_for_receipt == settings.strategy.wait_for_receipt
                }
            }
        }),
{
    let gas_price = bumped_gas_price(gas_price, settings.strategy.gas_price_bump_bps);
    if settings.strategy.dry_run {
        return Dispatch::DryRun { gas_price };
    }
    Dispatch::Send {
        tx: TxRequest {
            to: order.router,
            chain_id: settings.rpc.chain_id,
            input: order.calldata,
            gas_limit: settings.strategy.gas_limit,
            gas_price,
        },
        wait_for_receipt: settings.strategy.wait_for_receipt,
    }
}

/// The token and the router of an approval.
pub fn approval_parties(settings: &Settings) -> (result: Result<(Address, Address), ConfigError>)
    ensures
        ({
            let token = address_field("contracts.collateral"@, settings.contracts.collateral@);
            let router = address_field("contracts.router"@, settings.contracts.router@);
            match result {
                Ok(parties) => token == Ok::<_, ConfigErrorView>(parties.0@) && router == Ok::<
                    _,
                    ConfigErrorView,
                >(parties.1@),
                Err(error) => if token is Err {
                    token == Err::<Seq<u8>, _>(error@)
                } else {
                    router == Err::<Seq<u8>, _>(error@)
                },
            }
        }),
{
    let token = match settings.collateral_address() {
        Ok(token) => token,
        Err(error) => return Err(error),
    };
    match settings.router_address() {
        Ok(router) => Ok((token, router)),
        Err(error) => Err(error),
    }
}

/// An approval that only lacks its gas price.
#[derive(Debug)]
pub struct ApproveOrder {
    pub token: Address,
    pub amount: U256,
    pub calldata: Vec<u8>,
}

/// The amount that the router must be allowed to spend: the largest there is, or
/// that of one buy.
pub open spec fn wanted_allowance(s: Settings, infinite: bool) -> Result<nat, ConfigErrorView> {
    if infinite {
        Ok((u256_limit() - 1) as nat)
    } else {
        token_units(
            "strategy.buy_amount_units"@,
            s.strategy.buy_amount_units@,
            s.strategy.collateral_decimals as nat,
        )
    }
}

/// An approval that is not infinite lets the router spend what one buy spends, and
/// no more; an infinite one lets it spend whatever there is.
pub proof fn law_approvals_cover_one_buy(
    order: BuyOrder,
    s: Settings,
    wallet: Seq<u8>,
    market: Seq<u8>,
)
    requires
        is_buy(order, s, wallet, market),
    ensures
        wanted_allowance(s, false) == Ok::<nat, ConfigErrorView>(order.amount@),
        wanted_allowance(s, true) matches Ok(most) && forall|n: U256| #[trigger] n@ <= most,
        wanted_allowance(s, true) matches Ok(most) && most < u256_limit(),
{
    assert forall|n: U256| #[trigger] n@ <= u256_limit() - 1 by {
        lemma_u256_view(n, n);
    }
}

/// Orders an approval once the allowance of the router is known; none is ordered
/// where the allowance is sufficient.
pub fn order_approval(
    settings: &Settings,
    token: Address,
    router: Address,
    allowance: U256,
    infinite: bool,
) -> (result: Result<Option<ApproveOrder>, ConfigError>)
    ensures
        match result {
            Ok(order) => wanted_allowance(*settings, infinite) matches Ok(wanted) && match order {
                None => allowance@ >= wanted,
                Some(order) => allowance@ < wanted && order.token == token && order.amount@
                    == wanted && order.calldata@ == approve_call(router@, wanted),
            },
            Err(error) => wanted_allowance(*settings, infinite) == Err::<nat, _>(error@),
        },
        result matches Ok(Some(order)) ==> {
            &&& order.calldata@.len() == 68
            &&& order.calldata@.subrange(16, 36) == router@
            &&& word_value(order.calldata@.subrange(36, 68)) == order.amount@
            &&& allowance@ < order.amount@
            &&& infinite ==> order.amount@ == u256_limit() - 1
            &&& !infinite ==> token_units(
                "strategy.buy_amount_units"@,
                settings.strategy.buy_amount_units@,
                settings.strategy.collateral_decimals as nat,
            ) == Ok::<nat, ConfigErrorView>(order.amount@)
        },
{
    let amount = if infinite {
        U256::max_value()
    } else {
        match settings.buy_amount() {
            Ok(amount) => amount,
            Err(error) => return Err(error),
        }
    };
    if amount.at_most(allowance) {
        return Ok(None);
    }
    let calldata = approve_calldata(&router, amount);
    Ok(Some(ApproveOrder { token, amount, calldata }))
}

/// Decides on an approval once the gas price is known. In a dry run nothing is
/// sent; what is sent is always waited for.
pub fn dispatch_approval(settings: &Settings, order: ApproveOrder, gas_price: u128) -> (dispatch:
    Dispatch)
    ensures
        ({
            let price = bumped(gas_price as nat, settings.strategy.gas_price_bump_bps as nat);
            if settings.strategy.dry_run {
                dispatch matches Dispatch::DryRun { gas_price } && gas_price == price
            } else {
                dispatch matches Dispatch::Send { tx, wait_for_receipt } && {
                    &&& tx.to == order.token
                    &&& tx.chain_id == settings.rpc.chain_id
                    &&& tx.input == order.calldata
                    &&& tx.gas_limit == 80_000
                    &&& tx.gas_price == price
                    &&& wait_for_receipt
                }
            }
        }),
{
    let gas_price = bumped_gas_price(gas_price, settings.strategy.gas_price_bump_bps);
    if settings.strategy.dry_run {
        return Dispatch::DryRun { gas_price };
    }
    Dispatch::Send {
        tx: TxRequest {
            to: order.token,
            chain_id: settings.rpc.chain_id,
            input: order.calldata,
            gas_limit: 80_000,
            gas_price,
        },
        wait_for_receipt: true,
    }
}

/// With a configuration that passed its checks no buy, no approval and no sample after
/// a buy is kept back by the configuration.
pub proof fn law_checked_settings_suffice(s: Settings, infinite: bool)
    requires
        settings_error(s) is None,
    ensures
        buy_error(s) is None,
        address_field("contracts.collateral"@, s.contracts.collateral@) is Ok,
        address_field("contracts.router"@, s.contracts.router@) is Ok,
        wanted_allowance(s, infinite) is Ok,
        uint_field("strategy.outcome_token_id"@, s.strategy.outcome_token_id@) is Ok,
{
}

} // verus!
