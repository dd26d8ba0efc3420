//! Fields of a configuration that stand for addresses, integers and token
//! amounts, and what is said of a field that stands for none.
use vstd::prelude::*;
use vstd::arithmetic::power::pow;
use vstd::string::StringExecFns;

use crate::address::{address_error_text, parse_hex_address, parsed_address, Address};
use crate::text::{
    byte_len, byte_length, chars_of, decimal, is_blank, is_digit, is_white_space,
    law_trimming_drops_only_white_space, law_white_space_around_is_dropped, lemma_split_whole,
    parts_of, repeated, split, trim, trim_start, trimmed,
};
use crate::u256::{
    decimal_value, law_decimal_reads_back, parse_decimal, parsed_u256, u256_error_text, u256_limit,
    U256,
};

verus! {

/// Why a configuration is refused.
#[derive(Debug, PartialEq, Eq)]
pub enum ConfigError {
    InvalidAddress { field: String, error: String },
    InvalidUint { field: String, error: String },
    EmptyAmount { field: String },
    NegativeAmount { field: String },
    TooManyPoints { field: String },
    ExcessPrecision { field: String },
    EmptyHttpUrl,
    EmptyWsUrl,
    ZeroChainId,
    ZeroRequestRate,
    ZeroGasLimit,
    SlippageAboveWhole,
    TaxAboveWhole,
}

/// Why a configuration is refused, with the texts as sequences of characters.
pub enum ConfigErrorView {
    InvalidAddress { field: Seq<char>, error: Seq<char> },
    InvalidUint { field: Seq<char>, error: Seq<char> },
    EmptyAmount { field: Seq<char> },
    NegativeAmount { field: Seq<char> },
    TooManyPoints { field: Seq<char> },
    ExcessPrecision { field: Seq<char> },
    EmptyHttpUrl,
    EmptyWsUrl,
    ZeroChainId,
    ZeroRequestRate,
    ZeroGasLimit,
    SlippageAboveWhole,
    TaxAboveWhole,
}

impl View for ConfigError {
    type V = ConfigErrorView;

    open spec fn view(&self) -> ConfigErrorView {
        match self {
            ConfigError::InvalidAddress { field, error } => ConfigErrorView::InvalidAddress {
                field: field@,
                error: error@,
            },
            ConfigError::InvalidUint { field, error } => ConfigErrorView::InvalidUint {
                field: field@,
                error: error@,
            },
            ConfigError::EmptyAmount { field } => ConfigErrorView::EmptyAmount { field: field@ },
            ConfigError::NegativeAmount { field } => ConfigErrorView::NegativeAmount {
                field: field@,
            },
            ConfigError::TooManyPoints { field } => ConfigErrorView::TooManyPoints {
                field: field@,
            },
            ConfigError::ExcessPrecision { field } => ConfigErrorView::ExcessPrecision {
                field: field@,
            },
            ConfigError::EmptyHttpUrl => ConfigErrorView::EmptyHttpUrl,
            ConfigError::EmptyWsUrl => ConfigErrorView::EmptyWsUrl,
            ConfigError::ZeroChainId => ConfigErrorView::ZeroChainId,
            ConfigError::ZeroRequestRate => ConfigErrorView::ZeroRequestRate,
            ConfigError::ZeroGasLimit => ConfigErrorView::ZeroGasLimit,
            ConfigError::SlippageAboveWhole => ConfigErrorView::SlippageAboveWhole,
            ConfigError::TaxAboveWhole => ConfigErrorView::TaxAboveWhole,
        }
    }
}

/// What is said of a refused configuration.
pub open spec fn config_error_message(error: ConfigErrorView) -> Seq<char> {
    match error {
        ConfigErrorView::InvalidAddress { field, error } => field + " is not a valid address: "@
            + error,
        ConfigErrorView::InvalidUint { field, error } => field + " is not a valid uint256: "@
            + error,
        ConfigErrorView::EmptyAmount { field } => field + " must not be empty"@,
        ConfigErrorView::NegativeAmount { field } => field + " must not be negative"@,
        ConfigErrorView::TooManyPoints { field } => field + " has too many decimal points"@,
        ConfigErrorView::ExcessPrecision { field } => field
            + " has more precision than collateral_decimals"@,
        ConfigErrorView::EmptyHttpUrl => "rpc.http_url must not be empty"@,
        ConfigErrorView::EmptyWsUrl => "rpc.ws_url must not be empty"@,
        ConfigErrorView::ZeroChainId => "rpc.chain_id must be greater than zero"@,
        ConfigErrorView::ZeroRequestRate =>
            "rpc.max_requests_per_second must be greater than zero"@,
        ConfigErrorView::ZeroGasLimit => "strategy.gas_limit must be greater than zero"@,
        ConfigErrorView::SlippageAboveWhole =>
            "pricing.max_sell_slippage_bps must be less than or equal to 10000"@,
        ConfigErrorView::TaxAboveWhole =>
            "pricing.extra_sell_tax_bps must be less than or equal to 10000"@,
    }
}

impl ConfigError {
    /// What is said of the refused configuration.
    pub fn message(&self) -> (text: String)
        ensures
            text@ == config_error_message(self@),
    {
        match self {
            ConfigError::InvalidAddress { field, error } => field.clone().concat(
                " is not a valid address: ",
            ).concat(error.as_str()),
            ConfigError::InvalidUint { field, error } => field.clone().concat(
                " is not a valid uint256: ",
            ).concat(error.as_str()),
            ConfigError::EmptyAmount { field } => field.clone().concat(" must not be empty"),
            ConfigError::NegativeAmount { field } => field.clone().concat(" must not be negative"),
            ConfigError::TooManyPoints { field } => field.clone().concat(
                " has too many decimal points",
            ),
            ConfigError::ExcessPrecision { field } => field.clone().concat(
                " has more precision than collateral_decimals",
            ),
            ConfigError::EmptyHttpUrl => "rpc.http_url must not be empty".to_owned(),
            ConfigError::EmptyWsUrl => "rpc.ws_url must not be empty".to_owned(),
            ConfigError::ZeroChainId => "rpc.chain_id must be greater than zero".to_owned(),
            ConfigError::ZeroRequestRate =>
                "rpc.max_requests_per_second must be greater than zero".to_owned(),
            ConfigError::ZeroGasLimit => "strategy.gas_limit must be greater than zero".to_owned(),
            ConfigError::SlippageAboveWhole =>
                "pricing.max_sell_slippage_bps must be less than or equal to 10000".to_owned(),
            ConfigError::TaxAboveWhole =>
                "pricing.extra_sell_tax_bps must be less than or equal to 10000".to_owned(),
        }
    }
}

/// The view of a result of reading an integer.
pub open spec fn number_outcome(result: Result<U256, ConfigError>) -> Result<nat, ConfigErrorView> {
    match result {
        Ok(value) => Ok(value@),
        Err(error) => Err(error@),
    }
}

/// The view of a result of reading an address.
pub open spec fn address_outcome(result: Result<Address, ConfigError>) -> Result<
    Seq<u8>,
    ConfigErrorView,
> {
    match result {
        Ok(value) => Ok(value@),
        Err(error) => Err(error@),
    }
}

/// The address that a field stands for.
pub open spec fn address_field(field: Seq<char>, value: Seq<char>) -> Result<
    Seq<u8>,
    ConfigErrorView,
> {
    match parsed_address(value) {
        Some(address) => Ok(address),
        None => Err(ConfigErrorView::InvalidAddress { field, error: address_error_text(value) }),
    }
}

/// The integer that a field stands for; a blank field stands for zero.
pub open spec fn uint_field(field: Seq<char>, value: Seq<char>) -> Result<nat, ConfigErrorView> {
    let text = trim(value);
    if text.len() == 0 {
        Ok(0)
    } else {
        match parsed_u256(text) {
            Some(number) => Ok(number),
            None => Err(ConfigErrorView::InvalidUint { field, error: u256_error_text(text) }),
        }
    }
}

/// The digits of an amount in its smallest unit: the whole part, the fraction, and
/// as many zeros as the fraction is short of `decimals` digits.
pub open spec fn shifted_digits(whole: Seq<char>, fraction: Seq<char>, decimals: nat) -> Seq<char> {
    (if whole.len() == 0 {
        "0"@
    } else {
        whole
    }) + fraction + repeated('0', (decimals - byte_len(fraction)) as nat)
}

/// The amount of a token in its smallest unit, of which `decimals` digits stand
/// behind the point.
pub open spec fn token_units(field: Seq<char>, value: Seq<char>, decimals: nat) -> Result<
    nat,
    ConfigErrorView,
> {
    let text = trim(value);
    let parts = split(text, '.');
    let fraction = if parts.len() > 1 {
        parts[1]
    } else {
        Seq::<char>::empty()
    };
    if text.len() == 0 {
        Err(ConfigErrorView::EmptyAmount { field })
    } else if text[0] == '-' {
        Err(ConfigErrorView::NegativeAmount { field })
    } else if parts.len() > 2 {
        Err(ConfigErrorView::TooManyPoints { field })
    } else if byte_len(fraction) > decimals {
        Err(ConfigErrorView::ExcessPrecision { field })
    } else {
        uint_field(field, shifted_digits(parts[0], fraction, decimals))
    }
}

/// Reads an address.
pub fn parse_address(field: &str, value: &str) -> (address: Result<Address, ConfigError>)
    ensures
        address_outcome(address) == address_field(field@, value@),
{
    match parse_hex_address(value) {
        Ok(address) => Ok(address),
        Err(error) => Err(ConfigError::InvalidAddress { field: field.to_owned(), error }),
    }
}

/// Reads an integer.
pub fn parse_u256(field: &str, value: &str) -> (number: Result<U256, ConfigError>)
    ensures
        number_outcome(number) == uint_field(field@, value@),
{
    let text = trimmed(value);
    if text.as_str().is_empty() {
        return Ok(U256::zero());
    }
    match parse_decimal(text.as_str()) {
        Ok(number) => Ok(number),
        Err(error) => Err(ConfigError::InvalidUint { field: field.to_owned(), error }),
    }
}

/// Reads the amount of a token.
pub fn parse_token_units(field: &str, value: &str, decimals: u8) -> (amount: Result<
    U256,
    ConfigError,
>)
    ensures
        number_outcome(amount) == token_units(field@, value@, decimals as nat),
{
    let text = trimmed(value);
    if text.as_str().is_empty() {
        return Err(ConfigError::EmptyAmount { field: field.to_owned() });
    }
    let chars = chars_of(text.as_str());
    if chars[0] == '-' {
        return Err(ConfigError::NegativeAmount { field: field.to_owned() });
    }
    let parts = parts_of(text.as_str(), '.');
    let ghost views = split(text@, '.');
    proof {
        assert(views[0] == parts@[0]@);
        assert(parts@.len() > 1 ==> views[1] == parts@[1]@);
    }
    if parts.len() > 2 {
        return Err(ConfigError::TooManyPoints { field: field.to_owned() });
    }
    let fraction = if parts.len() > 1 {
        parts[1].clone()
    } else {
        String::new()
    };
    let length = byte_length(fraction.as_str());
    if length > decimals as usize {
        return Err(ConfigError::ExcessPrecision { field: field.to_owned() });
    }
    let mut digits = if parts[0].as_str().is_empty() {
        "0".to_owned()
    } else {
        parts[0].clone()
    };
    digits.append(fraction.as_str());
    let ghost front = digits@;
    let mut zeros: usize = length;
    proof {
        assert(front + repeated('0', 0) =~= front);
    }
    while zeros < decimals as usize
        invariant
            length <= zeros <= decimals,
            digits@ == front + repeated('0', (zeros - length) as nat),
        decreases decimals - zeros,
    {
        digits.push('0');
        proof {
            assert(repeated('0', (zeros + 1 - length) as nat) =~= repeated(
                '0',
                (zeros - length) as nat,
            ).push('0'));
            assert(digits@ =~= front + repeated('0', (zeros + 1 - length) as nat));
        }
        zeros = zeros + 1;
    }
    proof {
        assert(digits@ == shifted_digits(views[0], fraction@, decimals as nat));
    }
    parse_u256(field, digits.as_str())
}

/// Every character is a decimal digit.
pub open spec fn all_digits(s: Seq<char>) -> bool {
    forall|i: int| 0 <= i < s.len() ==> is_digit(#[trigger] s[i])
}

/// The number that decimal digits stand for.
pub open spec fn digits_value(s: Seq<char>) -> nat {
    decimal_value(s)->0
}

/// Digits behind a number shift it by as many places.
pub proof fn lemma_digits_behind(front: Seq<char>, back: Seq<char>)
    requires
        decimal_value(front) is Some,
        all_digits(back),
    ensures
        decimal_value(back) is Some,
        decimal_value(front + back) == Some(
            (digits_value(front) * pow(10, back.len()) + digits_value(back)) as nat,
        ),
    decreases back.len(),
{
    let value = digits_value(front) as int;
    if back.len() == 0 {
        assert(front + back =~= front);
        vstd::arithmetic::power::lemma_pow0(10);
        assert(value * 1 == value);
    } else {
        let shorter = back.drop_last();
        assert forall|i: int| 0 <= i < shorter.len() implies is_digit(#[trigger] shorter[i]) by {
            assert(shorter[i] == back[i]);
        }
        lemma_digits_behind(front, shorter);
        assert((front + back).drop_last() =~= front + shorter);
        assert(is_digit(back[back.len() - 1]));
        assert((front + back).last() == back.last());
        let shift = pow(10, shorter.len());
        assert(pow(10, back.len()) == 10 * shift) by {
            vstd::arithmetic::power::lemma_pow_adds(10, 1, shorter.len());
            vstd::arithmetic::power::lemma_pow1(10);
        }
        vstd::arithmetic::power::lemma_pow_positive(10, shorter.len());
        assert(value * (10 * shift) == 10 * (value * shift)) by (nonlinear_arith);
        assert(value * shift >= 0) by (nonlinear_arith)
            requires
                value >= 0,
                shift > 0,
        ;
    }
}

/// Zeros stand for zero.
pub proof fn lemma_zeros_value(n: nat)
    ensures
        all_digits(repeated('0', n)),
        decimal_value(repeated('0', n)) == Some(0nat),
    decreases n,
{
    if n > 0 {
        lemma_zeros_value((n - 1) as nat);
        assert(repeated('0', n).drop_last() =~= repeated('0', (n - 1) as nat));
    }
}

/// A text that begins and ends with other characters than white space is not trimmed.
proof fn lemma_not_trimmed(s: Seq<char>)
    requires
        s.len() > 0,
        !is_white_space(s[0]),
        !is_white_space(s.last()),
    ensures
        trim(s) == s,
{
    assert(trim_start(s) == s);
}

/// Two texts without the separator are the parts of the text that has it between them.
proof fn lemma_split_pair(a: Seq<char>, b: Seq<char>, separator: char)
    requires
        forall|i: int| 0 <= i < a.len() ==> #[trigger] a[i] != separator,
        forall|i: int| 0 <= i < b.len() ==> #[trigger] b[i] != separator,
    ensures
        split(a.push(separator) + b, separator) == seq![a, b],
    decreases b.len(),
{
    let s = a.push(separator) + b;
    if b.len() == 0 {
        lemma_split_whole(a, separator);
        assert(s.drop_last() =~= a);
        assert(b =~= Seq::<char>::empty());
        assert(split(s, separator) =~= seq![a, b]);
    } else {
        let shorter = b.drop_last();
        assert forall|i: int| 0 <= i < shorter.len() implies #[trigger] shorter[i]
            != separator by {
            assert(shorter[i] == b[i]);
        }
        lemma_split_pair(a, shorter, separator);
        assert(s.drop_last() =~= a.push(separator) + shorter);
        assert(b[b.len() - 1] != separator);
        assert(s.last() == b.last());
        assert(shorter.push(b.last()) =~= b);
        assert(split(s, separator) =~= seq![a, b]);
    }
}

/// The number of a whole part and a fraction in the smallest unit.
pub open spec fn scaled_amount(whole: Seq<char>, fraction: Seq<char>, decimals: nat) -> nat {
    (digits_value(whole) * pow(10, decimals) + digits_value(fraction) * pow(
        10,
        (decimals - fraction.len()) as nat,
    )) as nat
}

/// Digits that were put together stand for the scaled amount.
proof fn lemma_shifted_digits(field: Seq<char>, whole: Seq<char>, fraction: Seq<char>, decimals: nat)
    requires
        all_digits(whole),
        all_digits(fraction),
        fraction.len() <= decimals,
    ensures
        byte_len(fraction) == fraction.len(),
        ({
            let digits = shifted_digits(whole, fraction, decimals);
            let amount = scaled_amount(whole, fraction, decimals);
            uint_field(field, digits) == if amount < u256_limit() {
                Ok::<nat, ConfigErrorView>(amount)
            } else {
                Err(ConfigErrorView::InvalidUint { field, error: u256_error_text(digits) })
            }
        }),
{
    assert(byte_len(fraction) == fraction.len()) by {
        assert forall|i: int| 0 <= i < fraction.len() implies '\0' <= #[trigger] fraction[i]
            <= '\u{7f}' by {
            assert(is_digit(fraction[i]));
        }
        vstd::utf8::is_ascii_chars_encode_utf8(fraction);
    }
    reveal_strlit("0");
    let empty = Seq::<char>::empty();
    let zeros = (decimals - fraction.len()) as nat;
    let front = if whole.len() == 0 {
        "0"@
    } else {
        whole
    };
    assert(decimal_value(empty) == Some(0nat));
    if whole.len() == 0 {
        assert(whole =~= empty);
        assert(front.drop_last() =~= empty);
        assert(decimal_value(front) == Some(0nat));
    } else {
        assert(empty + whole =~= whole);
        lemma_digits_behind(empty, whole);
    }
    let digits = front + fraction + repeated('0', zeros);
    lemma_digits_behind(front, fraction);
    lemma_zeros_value(zeros);
    lemma_digits_behind(front + fraction, repeated('0', zeros));
    let w = digits_value(whole) as int;
    let f = digits_value(fraction) as int;
    let low = pow(10, fraction.len());
    let high = pow(10, zeros);
    assert(pow(10, decimals) == low * high) by {
        vstd::arithmetic::power::lemma_pow_adds(10, fraction.len(), zeros);
    }
    vstd::arithmetic::power::lemma_pow_positive(10, fraction.len());
    vstd::arithmetic::power::lemma_pow_positive(10, zeros);
    assert((w * low + f) * high == w * (low * high) + f * high && w * low + f >= 0 && (w * low + f)
        * high >= 0) by (nonlinear_arith)
        requires
            w >= 0,
            f >= 0,
            low > 0,
            high > 0,
    ;
    assert forall|i: int| 0 <= i < digits.len() implies is_digit(#[trigger] digits[i]) by {
        if i < front.len() {
            assert(digits[i] == front[i]);
            if whole.len() > 0 {
                assert(is_digit(whole[i]));
            }
        } else if i < front.len() + fraction.len() {
            assert(digits[i] == fraction[i - front.len()]);
        } else {
            assert(digits[i] == '0');
        }
    }
    assert(is_digit(digits[0]) && is_digit(digits[digits.len() - 1]));
    lemma_not_trimmed(digits);
}

/// An integer that is written in decimal reads as the integer, with or without white
/// space around it; a blank field reads as zero, and every integer that is read fits in
/// 256 bits. A field that is refused is named.
pub proof fn law_integers_read_back(
    field: Seq<char>,
    n: nat,
    value: Seq<char>,
    front: Seq<char>,
    back: Seq<char>,
)
    requires
        is_blank(front),
        is_blank(back),
    ensures
        n < u256_limit() ==> uint_field(field, front + decimal(n) + back) == Ok::<
            nat,
            ConfigErrorView,
        >(n),
        n >= u256_limit() ==> uint_field(field, front + decimal(n) + back) is Err,
        uint_field(field, front + back) == Ok::<nat, ConfigErrorView>(0),
        uint_field(field, value) matches Ok(read) ==> read < u256_limit(),
        uint_field(field, value) matches Err(error) ==> error matches ConfigErrorView::InvalidUint {
            field: named,
            ..
        } && named == field,
{
    let digits = decimal(n);
    let empty = Seq::<char>::empty();
    law_decimal_reads_back(n);
    assert(is_digit(digits[0]) && is_digit(digits[digits.len() - 1]));
    lemma_not_trimmed(digits);
    law_white_space_around_is_dropped(front, digits, back);
    law_white_space_around_is_dropped(front, empty, back);
    assert(front + empty + back =~= front + back);
}

/// An amount with more digits behind the point than the token has decimals is refused.
pub proof fn law_excess_digits_are_refused(
    field: Seq<char>,
    whole: Seq<char>,
    fraction: Seq<char>,
    decimals: nat,
)
    requires
        all_digits(whole),
        all_digits(fraction),
        fraction.len() > decimals,
    ensures
        token_units(field, whole.push('.') + fraction, decimals) == Err::<nat, _>(
            ConfigErrorView::ExcessPrecision { field },
        ),
{
    lemma_shifted_digits(field, whole, fraction, fraction.len());
    let text = whole.push('.') + fraction;
    if whole.len() > 0 {
        assert(is_digit(whole[0]));
        assert(text[0] == whole[0]);
    }
    assert(is_digit(fraction[fraction.len() - 1]));
    lemma_not_trimmed(text);
    assert forall|i: int| 0 <= i < whole.len() implies #[trigger] whole[i] != '.' by {
        assert(is_digit(whole[i]));
    }
    assert forall|i: int| 0 <= i < fraction.len() implies #[trigger] fraction[i] != '.' by {
        assert(is_digit(fraction[i]));
    }
    lemma_split_pair(whole, fraction, '.');
}

/// White space around an amount makes no difference. An amount is refused, with the
/// field named, where nothing or a minus sign stands first, where more than one point
/// stands in it, and where more digits follow the point than the token has decimals.
pub proof fn law_amounts_are_refused(
    field: Seq<char>,
    value: Seq<char>,
    decimals: nat,
    front: Seq<char>,
    back: Seq<char>,
)
    requires
        is_blank(front),
        is_blank(back),
    ensures
        token_units(field, front + value + back, decimals) == token_units(field, value, decimals),
        token_units(field, front + back, decimals) == Err::<nat, _>(
            ConfigErrorView::EmptyAmount { field },
        ),
        token_units(field, seq!['-'] + value, decimals) == Err::<nat, _>(
            ConfigErrorView::NegativeAmount { field },
        ),
        token_units(field, value, decimals) matches Ok(amount) ==> amount < u256_limit(),
        token_units(field, value, decimals) matches Ok(_) ==> trim(value).len() > 0 && trim(
            value,
        )[0] != '-' && split(trim(value), '.').len() <= 2,
        token_units(field, value, decimals) matches Ok(_) ==> (split(trim(value), '.').len() == 2
            ==> byte_len(split(trim(value), '.')[1]) <= decimals),
{
    let empty = Seq::<char>::empty();
    law_white_space_around_is_dropped(front, value, back);
    law_white_space_around_is_dropped(front, empty, back);
    assert(front + empty + back =~= front + back);
    let negative = seq!['-'] + value;
    assert(negative[0] == '-');
    law_trimming_drops_only_white_space(negative);
    let (before, behind) = choose|before: Seq<char>, behind: Seq<char>|
        is_blank(before) && is_blank(behind) && negative == #[trigger] (before + trim(negative)
            + behind);
    if before.len() > 0 {
        assert(is_white_space(before[0]));
        assert(before[0] == '-');
    } else if trim(negative).len() == 0 {
        assert(is_white_space(behind[0]));
        assert(behind[0] == '-');
    } else {
        assert(trim(negative)[0] == '-');
    }
}

/// An amount of `whole.fraction` tokens is read as `whole` times ten to the power
/// of `decimals`, plus the fraction shifted to the same unit; the point may be left
/// out where there is no fraction. It is refused only where 256 bits do not hold it.
pub proof fn law_amounts_are_scaled(
    field: Seq<char>,
    whole: Seq<char>,
    fraction: Seq<char>,
    decimals: nat,
)
    requires
        all_digits(whole),
        all_digits(fraction),
        fraction.len() <= decimals,
    ensures
        ({
            let amount = scaled_amount(whole, fraction, decimals);
            let read = if amount < u256_limit() {
                Ok::<nat, ConfigErrorView>(amount)
            } else {
                Err(
                    ConfigErrorView::InvalidUint {
                        field,
                        error: u256_error_text(shifted_digits(whole, fraction, decimals)),
                    },
                )
            };
            &&& token_units(field, whole.push('.') + fraction, decimals) == read
            &&& fraction.len() == 0 && whole.len() > 0 ==> token_units(field, whole, decimals)
                == read
        }),
{
    lemma_shifted_digits(field, whole, fraction, decimals);
    let text = whole.push('.') + fraction;
    assert(!is_white_space(text[0]) && text[0] != '-') by {
        if whole.len() > 0 {
            assert(is_digit(whole[0]));
        }
    }
    assert(!is_white_space(text.last())) by {
        if fraction.len() > 0 {
            assert(is_digit(fraction[fraction.len() - 1]));
        }
    }
    lemma_not_trimmed(text);
    assert forall|i: int| 0 <= i < whole.len() implies #[trigger] whole[i] != '.' by {
        assert(is_digit(whole[i]));
    }
    assert forall|i: int| 0 <= i < fraction.len() implies #[trigger] fraction[i] != '.' by {
        assert(is_digit(fraction[i]));
    }
    lemma_split_pair(whole, fraction, '.');
    if fraction.len() == 0 && whole.len() > 0 {
        assert(is_digit(whole[0]) && is_digit(whole[whole.len() - 1]));
        lemma_not_trimmed(whole);
        lemma_split_whole(whole, '.');
        assert(fraction =~= Seq::<char>::empty());
    }
}

} // verus!
