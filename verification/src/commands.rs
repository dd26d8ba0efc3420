//! The commands: what they need to start, what they listen for, and what the one that
//! quotes a sale is asked for.
use vstd::prelude::*;

use crate::abi::{announcement_signature, announcement_topic, keccak};
use crate::address::{address_error_text, parse_hex_address, parsed_address, Address};
use crate::config::{settings_error, Settings};
use crate::fields::{address_field, token_units, uint_field, ConfigError, ConfigErrorView};
use crate::price::SellAmount;
use crate::u256::U256;
use crate::urls::optional_view;

verus! {

/// Why a command is refused. An argument that is no address comes with the reason.
#[derive(Debug)]
pub enum CommandError {
    Config(ConfigError),
    Market(String),
    Wallet(String),
}

/// Why a command is refused, with the texts as sequences of characters.
pub enum CommandErrorView {
    Config(ConfigErrorView),
    Market(Seq<char>),
    Wallet(Seq<char>),
}

impl View for CommandError {
    type V = CommandErrorView;

    open spec fn view(&self) -> CommandErrorView {
        match self {
            CommandError::Config(error) => CommandErrorView::Config(error@),
            CommandError::Market(error) => CommandErrorView::Market(error@),
            CommandError::Wallet(error) => CommandErrorView::Wallet(error@),
        }
    }
}

/// What is said of a command that is refused.
pub open spec fn command_error_message(error: CommandErrorView) -> Seq<char> {
    match error {
        CommandErrorView::Config(error) => crate::fields::config_error_message(error),
        CommandErrorView::Market(_) => "failed to parse market"@,
        CommandErrorView::Wallet(_) => "failed to parse wallet"@,
    }
}

impl CommandError {
    /// What is said of the command.
    pub fn message(&self) -> (text: String)
        ensures
            text@ == command_error_message(self@),
    {
        match self {
            CommandError::Config(error) => error.message(),
            CommandError::Market(_) => "failed to parse market".to_owned(),
            CommandError::Wallet(_) => "failed to parse wallet".to_owned(),
        }
    }
}

/// What a command needs before it can send transactions: the variable that holds the
/// key, the address of the node, and how many requests may be sent in a second.
#[derive(Debug)]
pub struct StartPlan {
    pub key_variable: String,
    pub http_url: String,
    pub max_requests_per_second: u32,
}

/// What a command needs before it can send transactions. Only a configuration that
/// passes every check says which variable holds the key, so that none that fails one
/// has the key read.
pub fn start_plan(settings: &Settings) -> (plan: Result<StartPlan, ConfigError>)
    ensures
        match plan {
            Ok(plan) => {
                &&& settings_error(*settings) is None
                &&& plan.key_variable@ == settings.wallet.private_key_env@
                &&& plan.http_url@ == settings.rpc.http_url@
                &&& plan.max_requests_per_second == settings.rpc.max_requests_per_second
                &&& plan.max_requests_per_second > 0
            },
            Err(error) => settings_error(*settings) == Some(error@),
        },
{
    if let Err(error) = settings.validate() {
        return Err(error);
    }
    Ok(
        StartPlan {
            key_variable: settings.wallet.private_key_env.clone(),
            http_url: settings.rpc.http_url.clone(),
            max_requests_per_second: settings.rpc.max_requests_per_second,
        },
    )
}

/// The logs that are listened for: those of the controller, from the latest block on,
/// whose first topic is that of the announcement of a market.
#[derive(Debug)]
pub struct Subscription {
    pub ws_url: String,
    pub controller: Address,
    pub topic: [u8; 32],
}

/// The logs that are listened for, or what is wrong with the address of the
/// controller. A configuration that passes every check has them.
pub fn subscription(settings: &Settings) -> (subscription: Result<Subscription, ConfigError>)
    ensures
        match subscription {
            Ok(subscription) => {
                &&& subscription.ws_url@ == settings.rpc.ws_url@
                &&& address_field("contracts.controller"@, settings.contracts.controller@) == Ok::<
                    _,
                    ConfigErrorView,
                >(subscription.controller@)
                &&& subscription.topic@ == keccak(announcement_signature())
            },
            Err(error) => address_field("contracts.controller"@, settings.contracts.controller@)
                == Err::<Seq<u8>, _>(error@),
        },
        settings_error(*settings) is None ==> subscription is Ok,
{
    match settings.controller_address() {
        Ok(controller) => Ok(
            Subscription {
                ws_url: settings.rpc.ws_url.clone(),
                controller,
                topic: announcement_topic(),
            },
        ),
        Err(error) => Err(error),
    }
}

/// The market and the outcome that a quote is for, or why there is none: the
/// configuration is checked before the market is read.
pub open spec fn target_of(settings: Settings, market: Seq<char>) -> Result<
    (Seq<u8>, nat),
    CommandErrorView,
> {
    match settings_error(settings) {
        Some(error) => Err(CommandErrorView::Config(error)),
        None => match parsed_address(market) {
            None => Err(CommandErrorView::Market(address_error_text(market))),
            Some(address) => match uint_field(
                "strategy.outcome_token_id"@,
                settings.strategy.outcome_token_id@,
            ) {
                Ok(token_id) => Ok((address, token_id)),
                Err(error) => Err(CommandErrorView::Config(error)),
            },
        },
    }
}

/// A quote has a target exactly where the configuration passes its checks and the market
/// is an address: the market that the text stands for, and the configured outcome. A
/// configuration that fails is reported before the market is looked at.
pub proof fn law_targets_are_checked(settings: Settings, market: Seq<char>)
    ensures
        target_of(settings, market) is Ok <==> settings_error(settings) is None && parsed_address(
            market,
        ) is Some,
        target_of(settings, market) matches Ok((address, token_id)) ==> parsed_address(market)
            == Some(address) && uint_field(
            "strategy.outcome_token_id"@,
            settings.strategy.outcome_token_id@,
        ) == Ok::<nat, ConfigErrorView>(token_id),
        settings_error(settings) matches Some(error) ==> target_of(settings, market) == Err::<
            (Seq<u8>, nat),
            _,
        >(CommandErrorView::Config(error)),
        target_of(settings, market) matches Err(CommandErrorView::Market(_)) ==> parsed_address(
            market,
        ) is None,
        !(target_of(settings, market) matches Err(CommandErrorView::Wallet(_))),
{
}

/// The market and the outcome that a quote is for.
pub fn quote_target(settings: &Settings, market: &str) -> (target: Result<
    (Address, U256),
    CommandError,
>)
    ensures
        match target {
            Ok(target) => target_of(*settings, market@) == Ok::<_, CommandErrorView>(
                (target.0@, target.1@),
            ),
            Err(error) => target_of(*settings, market@) == Err::<(Seq<u8>, nat), _>(error@),
        },
{
    if let Err(error) = settings.validate() {
        return Err(CommandError::Config(error));
    }
    let address = match parse_hex_address(market) {
        Ok(address) => address,
        Err(error) => return Err(CommandError::Market(error)),
    };
    match settings.outcome_token_id() {
        Ok(token_id) => Ok((address, token_id)),
        Err(error) => Err(CommandError::Config(error)),
    }
}

/// Where the amount of a quote comes from: a text, once the decimals are known, the
/// balance of a wallet, or that of the own wallet.
#[derive(Debug)]
pub enum AmountSource {
    Units(String),
    Wallet(Address),
    OwnWallet,
}

/// Where the amount of a quote comes from: from the amount that is given, else from
/// the wallet that is given, else from the own wallet.
pub fn amount_source(amount_units: Option<String>, wallet: Option<String>) -> (source: Result<
    AmountSource,
    CommandError,
>)
    ensures
        match optional_view(amount_units) {
            Some(units) => source matches Ok(AmountSource::Units(text)) && text@ == units,
            None => match optional_view(wallet) {
                Some(text) => match parsed_address(text) {
                    Some(address) => source matches Ok(AmountSource::Wallet(wallet)) && wallet@
                        == address,
                    None => source matches Err(CommandError::Wallet(error)) && error@
                        == address_error_text(text),
                },
                None => source == Ok::<_, CommandError>(AmountSource::OwnWallet),
            },
        },
{
    if let Some(units) = amount_units {
        return Ok(AmountSource::Units(units));
    }
    match wallet {
        Some(text) => match parse_hex_address(text.as_str()) {
            Ok(address) => Ok(AmountSource::Wallet(address)),
            Err(error) => Err(CommandError::Wallet(error)),
        },
        None => Ok(AmountSource::OwnWallet),
    }
}

/// The exact amount of a quote that was given as a text.
pub fn exact_amount(settings: &Settings, amount_units: &str, decimals: u8) -> (amount: Result<
    SellAmount,
    ConfigError,
>)
    ensures
        match amount {
            Ok(amount) => amount matches SellAmount::Exact(n) && token_units(
                "amount_units"@,
                amount_units@,
                decimals as nat,
            ) == Ok::<_, ConfigErrorView>(n@),
            Err(error) => token_units("amount_units"@, amount_units@, decimals as nat) == Err::<
                nat,
                _,
            >(error@),
        },
{
    match settings.parse_units("amount_units", amount_units, decimals) {
        Ok(amount) => Ok(SellAmount::Exact(amount)),
        Err(error) => Err(error),
    }
}

} // verus!
