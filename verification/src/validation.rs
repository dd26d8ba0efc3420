//! Validation of sell quotes against sales that took place: which sales are
//! compared, what a comparison finds, and the records that are kept of it.
use vstd::prelude::*;
use vstd::string::StringExecFns;

use crate::address::{checksummed, prefixed_hex, reads_back, Address, TxHash};
use crate::json::{
    all_scalars, empty_object, no_members, object_members, optional_number, put_number,
    put_optional_number, put_text, states, text_member, unsigned_member, JsonObject, JsonValue,
    Members,
};
use crate::text::{decimal, decimal_text};
use crate::u256::{distance, larger, law_decimal_reads_back, lemma_number_reads_back, U256};

verus! {

/// What a validation is asked to do.
#[derive(Debug)]
pub struct ValidationOptions {
    pub samples: usize,
    pub lookback_blocks: u64,
    pub chunk_size: u64,
    pub tolerance_wei: U256,
    pub output_path: String,
    pub market_limit: usize,
    pub market_offset: usize,
    pub market_batch_size: usize,
    pub market_order: String,
    pub market_status: Option<String>,
}

impl Clone for ValidationOptions {
    fn clone(&self) -> (copy: ValidationOptions)
        ensures
            copy == *self,
    {
        ValidationOptions {
            samples: self.samples,
            lookback_blocks: self.lookback_blocks,
            chunk_size: self.chunk_size,
            tolerance_wei: self.tolerance_wei,
            output_path: self.output_path.clone(),
            market_limit: self.market_limit,
            market_offset: self.market_offset,
            market_batch_size: self.market_batch_size,
            market_order: self.market_order.clone(),
            market_status: self.market_status.clone(),
        }
    }
}

/// Why a validation does not begin.
#[derive(Clone, Copy, Debug, PartialEq, Eq, Structural)]
pub enum ValidationError {
    ZeroSamples,
    ZeroChunkSize,
    ZeroMarketLimit,
    ZeroBatchSize,
    NoMarkets,
}

/// What is said of a validation that does not begin.
pub open spec fn validation_error_message(error: ValidationError) -> Seq<char> {
    match error {
        ValidationError::ZeroSamples => "samples must be greater than zero"@,
        ValidationError::ZeroChunkSize => "chunk_size must be greater than zero"@,
        ValidationError::ZeroMarketLimit => "market_limit must be greater than zero"@,
        ValidationError::ZeroBatchSize => "market_batch_size must be greater than zero"@,
        ValidationError::NoMarkets => "no 42Space markets returned by REST API"@,
    }
}

impl ValidationError {
    /// What is said of the validation that does not begin.
    pub fn message(&self) -> (text: String)
        ensures
            text@ == validation_error_message(*self),
    {
        match self {
            ValidationError::ZeroSamples => "samples must be greater than zero".to_owned(),
            ValidationError::ZeroChunkSize => "chunk_size must be greater than zero".to_owned(),
            ValidationError::ZeroMarketLimit => "market_limit must be greater than zero".to_owned(),
            ValidationError::ZeroBatchSize =>
                "market_batch_size must be greater than zero".to_owned(),
            ValidationError::NoMarkets => "no 42Space markets returned by REST API".to_owned(),
        }
    }
}

/// The first of the options that is wrong.
pub open spec fn options_error(options: ValidationOptions) -> Option<ValidationError> {
    if options.samples == 0 {
        Some(ValidationError::ZeroSamples)
    } else if options.chunk_size == 0 {
        Some(ValidationError::ZeroChunkSize)
    } else if options.market_limit == 0 {
        Some(ValidationError::ZeroMarketLimit)
    } else if options.market_batch_size == 0 {
        Some(ValidationError::ZeroBatchSize)
    } else {
        None
    }
}

/// The options are in order exactly where samples, blocks, markets and a batch are asked
/// for, and an option that is named is zero.
pub proof fn law_options_ask_for_something(options: ValidationOptions)
    ensures
        options_error(options) is None <==> options.samples > 0 && options.chunk_size > 0
            && options.market_limit > 0 && options.market_batch_size > 0,
        options_error(options) == Some(ValidationError::ZeroSamples) <==> options.samples == 0,
        options_error(options) == Some(ValidationError::ZeroChunkSize) ==> options.chunk_size == 0,
        options_error(options) == Some(ValidationError::ZeroMarketLimit) ==> options.market_limit
            == 0,
        options_error(options) == Some(ValidationError::ZeroBatchSize)
            ==> options.market_batch_size == 0,
        options_error(options) != Some(ValidationError::NoMarkets),
{
}

impl ValidationOptions {
    /// Checks the options and reports the first that is wrong.
    pub fn check(&self) -> (result: Result<(), ValidationError>)
        ensures
            match result {
                Ok(_) => options_error(*self) is None,
                Err(error) => options_error(*self) == Some(error),
            },
    {
        if self.samples == 0 {
            return Err(ValidationError::ZeroSamples);
        }
        if self.chunk_size == 0 {
            return Err(ValidationError::ZeroChunkSize);
        }
        if self.market_limit == 0 {
            return Err(ValidationError::ZeroMarketLimit);
        }
        if self.market_batch_size == 0 {
            return Err(ValidationError::ZeroBatchSize);
        }
        Ok(())
    }
}

/// Checks that there is a market to validate with.
pub fn check_markets(markets: &Vec<Address>) -> (result: Result<(), ValidationError>)
    ensures
        result == if markets@.len() == 0 {
            Err::<(), _>(ValidationError::NoMarkets)
        } else {
            Ok(())
        },
{
    if markets.len() == 0 {
        return Err(ValidationError::NoMarkets);
    }
    Ok(())
}

/// A sale that took place.
#[derive(Clone, Copy, Debug)]
pub struct RedeemCase {
    pub market: Address,
    pub block_number: u64,
    pub tx_hash: TxHash,
    pub log_index: Option<u64>,
    pub token_id: U256,
    pub collateral_to_user: U256,
    pub ot_to_pool: U256,
    pub collateral_to_treasury: U256,
}

/// What a comparison found.
#[derive(Debug)]
pub enum ValidationStatus {
    Passed { computed_user: U256, computed_treasury: U256, user_diff: U256, treasury_diff: U256 },
    Failed { computed_user: U256, computed_treasury: U256, user_diff: U256, treasury_diff: U256 },
    Skipped { reason: String },
}

/// A sale and what its comparison found.
#[derive(Debug)]
pub struct ValidationResult {
    pub case: RedeemCase,
    pub status: ValidationStatus,
}

/// What is to be done about a sale.
#[derive(Debug)]
pub enum CaseStep {
    Skip(ValidationResult),
    CountSwaps { market: Address, block_number: u64 },
    Quote { market: Address, token_id: U256, ot_amount: U256, block_number: u64 },
}

/// What is said of a sale in the first block.
pub open spec fn genesis_reason() -> Seq<char> {
    "block 0 has no previous state"@
}

/// What is said of a sale that shares its block with other swaps of the market.
pub open spec fn ambiguous_reason(swaps: nat) -> Seq<char> {
    "market has "@ + decimal(swaps)
        + " MintSwap/RedeemSwap logs in block; block-1 replay is ambiguous"@
}

/// What is said of a sale that shares its block tells how many swaps there were: where
/// the same is said of two sales, their blocks hold as many.
pub proof fn law_ambiguous_sales_say_how_many(a: nat, b: nat)
    requires
        ambiguous_reason(a) == ambiguous_reason(b),
    ensures
        a == b,
{
    reveal_strlit("market has ");
    reveal_strlit(" MintSwap/RedeemSwap logs in block; block-1 replay is ambiguous");
    let front = "market has "@.len() as int;
    let back = " MintSwap/RedeemSwap logs in block; block-1 replay is ambiguous"@.len() as int;
    let x = decimal(a);
    let y = decimal(b);
    assert(ambiguous_reason(a).len() == front + x.len() + back);
    assert(ambiguous_reason(b).len() == front + y.len() + back);
    assert(x.len() == y.len());
    assert(ambiguous_reason(a).subrange(front, front + x.len()) =~= x);
    assert(ambiguous_reason(b).subrange(front, front + y.len()) =~= y);
    law_decimal_reads_back(a);
    law_decimal_reads_back(b);
}

/// The result of a sale that is not compared.
pub open spec fn is_skipped(result: ValidationResult, case: RedeemCase, reason: Seq<char>) -> bool {
    result.case == case && (result.status matches ValidationStatus::Skipped { reason: said }
        && said@ == reason)
}

/// Begins with a sale: one in the first block is skipped, and of any other the
/// swaps of its market in its block are counted.
pub fn begin_case(case: RedeemCase) -> (step: CaseStep)
    ensures
        if case.block_number == 0 {
            step matches CaseStep::Skip(result) && is_skipped(result, case, genesis_reason())
        } else {
            step == (CaseStep::CountSwaps { market: case.market, block_number: case.block_number })
        },
{
    if case.block_number == 0 {
        return CaseStep::Skip(
            ValidationResult {
                case,
                status: ValidationStatus::Skipped {
                    reason: "block 0 has no previous state".to_owned(),
                },
            },
        );
    }
    CaseStep::CountSwaps { market: case.market, block_number: case.block_number }
}

/// Goes on with a sale once the swaps of its market in its block are counted: a sale
/// that is not the only swap is skipped, and the only one is quoted as of the block
/// before.
pub fn with_swap_counts(case: RedeemCase, mints: usize, redeems: usize) -> (step: CaseStep)
    requires
        mints + redeems <= usize::MAX,
        case.block_number > 0,
    ensures
        if mints + redeems != 1 {
            step matches CaseStep::Skip(result) && is_skipped(
                result,
                case,
                ambiguous_reason((mints + redeems) as nat),
            )
        } else {
            step == (CaseStep::Quote {
                market: case.market,
                token_id: case.token_id,
                ot_amount: case.ot_to_pool,
                block_number: (case.block_number - 1) as u64,
            })
        },
{
    let swaps: usize = mints + redeems;
    if swaps != 1 {
        let reason = "market has ".to_owned().concat(decimal_text(swaps as u64).as_str()).concat(
            " MintSwap/RedeemSwap logs in block; block-1 replay is ambiguous",
        );
        return CaseStep::Skip(
            ValidationResult { case, status: ValidationStatus::Skipped { reason } },
        );
    }
    CaseStep::Quote {
        market: case.market,
        token_id: case.token_id,
        ot_amount: case.ot_to_pool,
        block_number: case.block_number - 1,
    }
}

/// The distance between two amounts.
pub fn abs_diff(a: U256, b: U256) -> (difference: U256)
    ensures
        difference@ == distance(a@, b@),
{
    if b.at_most(a) {
        a.minus(b)
    } else {
        b.minus(a)
    }
}

/// The result of comparing a sale with a quote: it passes where neither the part
/// of the seller nor that of the treasury is off by more than the tolerance.
pub open spec fn is_comparison(
    result: ValidationResult,
    case: RedeemCase,
    user: U256,
    treasury: U256,
    tolerance: nat,
) -> bool {
    let user_off = distance(user@, case.collateral_to_user@);
    let treasury_off = distance(treasury@, case.collateral_to_treasury@);
    &&& result.case == case
    &&& match result.status {
        ValidationStatus::Passed { computed_user, computed_treasury, user_diff, treasury_diff } =>
            user_off <= tolerance && treasury_off <= tolerance && computed_user == user
            && computed_treasury == treasury && user_diff@ == user_off && treasury_diff@
            == treasury_off,
        ValidationStatus::Failed { computed_user, computed_treasury, user_diff, treasury_diff } =>
            !(user_off <= tolerance && treasury_off <= tolerance) && computed_user == user
            && computed_treasury == treasury && user_diff@ == user_off && treasury_diff@
            == treasury_off,
        ValidationStatus::Skipped { .. } => false,
    }
}

/// A comparison passes exactly where the quote comes as close as the tolerance to the
/// sale, in what the seller got as in what the treasury got. It keeps the sale and the
/// quote, and each difference is what the larger of the two numbers has more.
pub proof fn law_comparisons_hold_both_parts(
    result: ValidationResult,
    case: RedeemCase,
    user: U256,
    treasury: U256,
    tolerance: nat,
)
    requires
        is_comparison(result, case, user, treasury, tolerance),
    ensures
        result.case == case,
        !(result.status is Skipped),
        result.status is Passed <==> {
            &&& user@ <= case.collateral_to_user@ + tolerance
            &&& case.collateral_to_user@ <= user@ + tolerance
            &&& treasury@ <= case.collateral_to_treasury@ + tolerance
            &&& case.collateral_to_treasury@ <= treasury@ + tolerance
        },
        match result.status {
            ValidationStatus::Passed {
                computed_user,
                computed_treasury,
                user_diff,
                treasury_diff,
            } => {
                &&& computed_user == user && computed_treasury == treasury
                &&& lies_apart(user@, case.collateral_to_user@, user_diff@)
                &&& lies_apart(treasury@, case.collateral_to_treasury@, treasury_diff@)
            },
            ValidationStatus::Failed {
                computed_user,
                computed_treasury,
                user_diff,
                treasury_diff,
            } => {
                &&& computed_user == user && computed_treasury == treasury
                &&& lies_apart(user@, case.collateral_to_user@, user_diff@)
                &&& lies_apart(treasury@, case.collateral_to_treasury@, treasury_diff@)
            },
            ValidationStatus::Skipped { .. } => true,
        },
{
}

/// One of the numbers is larger than the other by `gap`.
pub open spec fn lies_apart(a: nat, b: nat, gap: nat) -> bool {
    a == b + gap || b == a + gap
}

/// Compares a sale with what a quote makes of it.
pub fn compare_case(
    case: RedeemCase,
    computed_user: U256,
    computed_treasury: U256,
    tolerance_wei: U256,
) -> (result: ValidationResult)
    ensures
        is_comparison(result, case, computed_user, computed_treasury, tolerance_wei@),
        result.status is Passed <==> {
            &&& computed_user@ <= case.collateral_to_user@ + tolerance_wei@
            &&& case.collateral_to_user@ <= computed_user@ + tolerance_wei@
            &&& computed_treasury@ <= case.collateral_to_treasury@ + tolerance_wei@
            &&& case.collateral_to_treasury@ <= computed_treasury@ + tolerance_wei@
        },
{
    let user_diff = abs_diff(computed_user, case.collateral_to_user);
    let treasury_diff = abs_diff(computed_treasury, case.collateral_to_treasury);
    let status = if user_diff.at_most(tolerance_wei) && treasury_diff.at_most(tolerance_wei) {
        ValidationStatus::Passed { computed_user, computed_treasury, user_diff, treasury_diff }
    } else {
        ValidationStatus::Failed { computed_user, computed_treasury, user_diff, treasury_diff }
    };
    ValidationResult { case, status }
}

/// The block before a block; the first block stays.
pub open spec fn before(block: u64) -> u64 {
    if block == 0 {
        0
    } else {
        (block - 1) as u64
    }
}

/// The block before a block; the first block stays.
fn replay_block(block: u64) -> (previous: u64)
    ensures
        previous == before(block),
{
    if block == 0 {
        0
    } else {
        block - 1
    }
}

/// What every record of a sale holds.
pub open spec fn case_members(case: RedeemCase) -> Members {
    no_members().insert(
        "type"@,
        JsonValue::Text("sample"@),
    ).insert(
        "market"@,
        JsonValue::Text(checksummed(case.market@)),
    ).insert(
        "block_number"@,
        JsonValue::Unsigned(case.block_number),
    ).insert(
        "replay_block"@,
        JsonValue::Unsigned(before(case.block_number)),
    ).insert(
        "tx_hash"@,
        JsonValue::Text(prefixed_hex(case.tx_hash@)),
    ).insert(
        "log_index"@,
        optional_number(case.log_index),
    ).insert(
        "token_id"@,
        JsonValue::Text(decimal(case.token_id@)),
    ).insert(
        "event_collateral_to_user"@,
        JsonValue::Text(decimal(case.collateral_to_user@)),
    ).insert(
        "event_ot_to_pool"@,
        JsonValue::Text(decimal(case.ot_to_pool@)),
    ).insert(
        "event_collateral_to_treasury"@,
        JsonValue::Text(decimal(case.collateral_to_treasury@)),
    )
}

/// What the record of a comparison holds beside.
pub open spec fn with_comparison(
    members: Members,
    computed_user: nat,
    computed_treasury: nat,
    user_diff: nat,
    treasury_diff: nat,
) -> Members {
    members.insert(
        "computed_collateral_to_user"@,
        JsonValue::Text(decimal(computed_user)),
    ).insert(
        "computed_collateral_to_treasury"@,
        JsonValue::Text(decimal(computed_treasury)),
    ).insert(
        "user_diff"@,
        JsonValue::Text(decimal(user_diff)),
    ).insert(
        "treasury_diff"@,
        JsonValue::Text(decimal(treasury_diff)),
    )
}

/// What the record of a result holds.
pub open spec fn result_members(result: ValidationResult) -> Members {
    let members = case_members(result.case);
    match result.status {
        ValidationStatus::Passed { computed_user, computed_treasury, user_diff, treasury_diff } =>
            with_comparison(
            members.insert("status"@, JsonValue::Text("passed"@)),
            computed_user@,
            computed_treasury@,
            user_diff@,
            treasury_diff@,
        ),
        ValidationStatus::Failed { computed_user, computed_treasury, user_diff, treasury_diff } =>
            with_comparison(
            members.insert("status"@, JsonValue::Text("failed"@)),
            computed_user@,
            computed_treasury@,
            user_diff@,
            treasury_diff@,
        ),
        ValidationStatus::Skipped { reason } => members.insert(
            "status"@,
            JsonValue::Text("skipped"@),
        ).insert("reason"@, JsonValue::Text(reason@)),
    }
}

/// Adds to a record what a comparison found.
fn insert_comparison_fields(
    record: &mut JsonObject,
    computed_user: U256,
    computed_treasury: U256,
    user_diff: U256,
    treasury_diff: U256,
)
    ensures
        object_members(*final(record)) == with_comparison(
            object_members(*old(record)),
            computed_user@,
            computed_treasury@,
            user_diff@,
            treasury_diff@,
        ),
{
    put_text(record, "computed_collateral_to_user", computed_user.to_decimal());
    put_text(record, "computed_collateral_to_treasury", computed_treasury.to_decimal());
    put_text(record, "user_diff", user_diff.to_decimal());
    put_text(record, "treasury_diff", treasury_diff.to_decimal());
}

/// The names of the members of the record of a result differ.
proof fn lemma_result_names()
    ensures
        "type"@.len() == 4,
        "market"@.len() == 6,
        "block_number"@.len() == 12,
        "replay_block"@.len() == 12,
        "tx_hash"@.len() == 7,
        "log_index"@.len() == 9,
        "token_id"@.len() == 8,
        "event_collateral_to_user"@.len() == 24,
        "event_ot_to_pool"@.len() == 16,
        "event_collateral_to_treasury"@.len() == 28,
        "status"@.len() == 6,
        "computed_collateral_to_user"@.len() == 27,
        "computed_collateral_to_treasury"@.len() == 31,
        "user_diff"@.len() == 9,
        "treasury_diff"@.len() == 13,
        "reason"@.len() == 6,
        "market"@ != "status"@,
        "market"@ != "reason"@,
        "block_number"@ != "replay_block"@,
        "log_index"@ != "user_diff"@,
        "status"@ != "reason"@,
{
    reveal_strlit("type");
    reveal_strlit("market");
    reveal_strlit("block_number");
    reveal_strlit("replay_block");
    reveal_strlit("tx_hash");
    reveal_strlit("log_index");
    reveal_strlit("token_id");
    reveal_strlit("event_collateral_to_user");
    reveal_strlit("event_ot_to_pool");
    reveal_strlit("event_collateral_to_treasury");
    reveal_strlit("status");
    reveal_strlit("computed_collateral_to_user");
    reveal_strlit("computed_collateral_to_treasury");
    reveal_strlit("user_diff");
    reveal_strlit("treasury_diff");
    reveal_strlit("reason");
    assert("market"@[0] != "status"@[0]);
    assert("market"@[0] != "reason"@[0]);
    assert("block_number"@[0] != "replay_block"@[0]);
    assert("log_index"@[0] != "user_diff"@[0]);
    assert("status"@[0] != "reason"@[0]);
}

/// The record of a result states each field of the sale under its own name, the block
/// before it as the one that is replayed, what became of it, and, where it was compared,
/// what the quote made of it and by how much it was off.
pub proof fn law_result_records_state_the_result(result: ValidationResult)
    ensures
        ({
            let record = result_members(result);
            let case = result.case;
            &&& text_member(record, "type"@) == Some("sample"@)
            &&& text_member(record, "market"@) == Some(checksummed(case.market@))
            &&& unsigned_member(record, "block_number"@) == Some(case.block_number)
            &&& case.block_number > 0 ==> unsigned_member(record, "replay_block"@) == Some(
                (case.block_number - 1) as u64,
            )
            &&& case.block_number == 0 ==> unsigned_member(record, "replay_block"@) == Some(0u64)
            &&& text_member(record, "tx_hash"@) == Some(prefixed_hex(case.tx_hash@))
            &&& record.contains_key("log_index"@)
            &&& unsigned_member(record, "log_index"@) == case.log_index
            &&& states(record, "token_id"@, case.token_id@)
            &&& states(record, "event_collateral_to_user"@, case.collateral_to_user@)
            &&& states(record, "event_ot_to_pool"@, case.ot_to_pool@)
            &&& states(record, "event_collateral_to_treasury"@, case.collateral_to_treasury@)
            &&& match result.status {
                ValidationStatus::Passed {
                    computed_user,
                    computed_treasury,
                    user_diff,
                    treasury_diff,
                } => {
                    &&& text_member(record, "status"@) == Some("passed"@)
                    &&& states(record, "computed_collateral_to_user"@, computed_user@)
                    &&& states(record, "computed_collateral_to_treasury"@, computed_treasury@)
                    &&& states(record, "user_diff"@, user_diff@)
                    &&& states(record, "treasury_diff"@, treasury_diff@)
                },
                ValidationStatus::Failed {
                    computed_user,
                    computed_treasury,
                    user_diff,
                    treasury_diff,
                } => {
                    &&& text_member(record, "status"@) == Some("failed"@)
                    &&& states(record, "computed_collateral_to_user"@, computed_user@)
                    &&& states(record, "computed_collateral_to_treasury"@, computed_treasury@)
                    &&& states(record, "user_diff"@, user_diff@)
                    &&& states(record, "treasury_diff"@, treasury_diff@)
                },
                ValidationStatus::Skipped { reason } => {
                    &&& text_member(record, "status"@) == Some("skipped"@)
                    &&& text_member(record, "reason"@) == Some(reason@)
                    &&& !record.contains_key("user_diff"@)
                    &&& !record.contains_key("treasury_diff"@)
                },
            }
        }),
{
    lemma_result_names();
    lemma_number_reads_back(result.case.token_id);
    lemma_number_reads_back(result.case.collateral_to_user);
    lemma_number_reads_back(result.case.ot_to_pool);
    lemma_number_reads_back(result.case.collateral_to_treasury);
    match result.status {
        ValidationStatus::Passed { computed_user, computed_treasury, user_diff, treasury_diff } => {
            lemma_number_reads_back(computed_user);
            lemma_number_reads_back(computed_treasury);
            lemma_number_reads_back(user_diff);
            lemma_number_reads_back(treasury_diff);
        },
        ValidationStatus::Failed { computed_user, computed_treasury, user_diff, treasury_diff } => {
            lemma_number_reads_back(computed_user);
            lemma_number_reads_back(computed_treasury);
            lemma_number_reads_back(user_diff);
            lemma_number_reads_back(treasury_diff);
        },
        ValidationStatus::Skipped { .. } => {},
    }
}

/// The record of a result holds nothing but scalars, so it is read back from its line.
pub proof fn law_result_records_are_scalars(result: ValidationResult)
    ensures
        all_scalars(result_members(result)),
{
}

/// The record of a result.
pub fn result_record(result: &ValidationResult) -> (record: JsonObject)
    ensures
        object_members(record) == result_members(*result),
        reads_back(result.case.market@),
{
    let case = result.case;
    let mut record = empty_object();
    put_text(&mut record, "type", "sample".to_owned());
    put_text(&mut record, "market", case.market.to_checksummed());
    put_number(&mut record, "block_number", case.block_number);
    put_number(&mut record, "replay_block", replay_block(case.block_number));
    put_text(&mut record, "tx_hash", case.tx_hash.to_hex());
    put_optional_number(&mut record, "log_index", case.log_index);
    put_text(&mut record, "token_id", case.token_id.to_decimal());
    put_text(&mut record, "event_collateral_to_user", case.collateral_to_user.to_decimal());
    put_text(&mut record, "event_ot_to_pool", case.ot_to_pool.to_decimal());
    put_text(&mut record, "event_collateral_to_treasury", case.collateral_to_treasury.to_decimal());
    match &result.status {
        ValidationStatus::Passed { computed_user, computed_treasury, user_diff, treasury_diff } => {
            put_text(&mut record, "status", "passed".to_owned());
            insert_comparison_fields(
                &mut record,
                *computed_user,
                *computed_treasury,
                *user_diff,
                *treasury_diff,
            );
        },
        ValidationStatus::Failed { computed_user, computed_treasury, user_diff, treasury_diff } => {
            put_text(&mut record, "status", "failed".to_owned());
            insert_comparison_fields(
                &mut record,
                *computed_user,
                *computed_treasury,
                *user_diff,
                *treasury_diff,
            );
        },
        ValidationStatus::Skipped { reason } => {
            put_text(&mut record, "status", "skipped".to_owned());
            put_text(&mut record, "reason", reason.clone());
        },
    }
    record
}

/// How many results passed, failed and were skipped, and how far off the
/// compared ones were at most.
pub struct Tally {
    pub passed: nat,
    pub failed: nat,
    pub skipped: nat,
    pub max_user_diff: nat,
    pub max_treasury_diff: nat,
}

/// The tally with one more result.
pub open spec fn counted(tally: Tally, status: ValidationStatus) -> Tally {
    match status {
        ValidationStatus::Passed { user_diff, treasury_diff, .. } => Tally {
            passed: tally.passed + 1,
            max_user_diff: larger(tally.max_user_diff, user_diff@),
            max_treasury_diff: larger(tally.max_treasury_diff, treasury_diff@),
            ..tally
        },
        ValidationStatus::Failed { user_diff, treasury_diff, .. } => Tally {
            failed: tally.failed + 1,
            max_user_diff: larger(tally.max_user_diff, user_diff@),
            max_treasury_diff: larger(tally.max_treasury_diff, treasury_diff@),
            ..tally
        },
        ValidationStatus::Skipped { .. } => Tally { skipped: tally.skipped + 1, ..tally },
    }
}

/// The tally of a list of results.
pub open spec fn tally(results: Seq<ValidationResult>) -> Tally
    decreases results.len(),
{
    if results.len() == 0 {
        Tally { passed: 0, failed: 0, skipped: 0, max_user_diff: 0, max_treasury_diff: 0 }
    } else {
        counted(tally(results.drop_last()), results.last().status)
    }
}

/// How many of the results are comparisons.
pub open spec fn compared(results: Seq<ValidationResult>) -> nat {
    tally(results).passed + tally(results).failed
}

/// Every result passed, failed or was skipped, and only one of these; no comparison
/// is off by more than the tally says.
pub proof fn law_tally_is_complete(results: Seq<ValidationResult>)
    ensures
        tally(results).passed + tally(results).failed + tally(results).skipped == results.len(),
        forall|i: int|
            0 <= i < results.len() ==> match #[trigger] results[i].status {
                ValidationStatus::Passed { user_diff, treasury_diff, .. } => user_diff@ <= tally(
                    results,
                ).max_user_diff && treasury_diff@ <= tally(results).max_treasury_diff,
                ValidationStatus::Failed { user_diff, treasury_diff, .. } => user_diff@ <= tally(
                    results,
                ).max_user_diff && treasury_diff@ <= tally(results).max_treasury_diff,
                ValidationStatus::Skipped { .. } => true,
            },
    decreases results.len(),
{
    if results.len() > 0 {
        let shorter = results.drop_last();
        law_tally_is_complete(shorter);
        assert forall|i: int| 0 <= i < results.len() implies match #[trigger] results[i].status {
            ValidationStatus::Passed { user_diff, treasury_diff, .. } => user_diff@ <= tally(
                results,
            ).max_user_diff && treasury_diff@ <= tally(results).max_treasury_diff,
            ValidationStatus::Failed { user_diff, treasury_diff, .. } => user_diff@ <= tally(
                results,
            ).max_user_diff && treasury_diff@ <= tally(results).max_treasury_diff,
            ValidationStatus::Skipped { .. } => true,
        } by {
            if i < shorter.len() {
                assert(shorter[i].status == results[i].status);
            }
        }
    }
}

/// How many of the results satisfy a condition.
pub open spec fn how_many(
    results: Seq<ValidationResult>,
    holds: spec_fn(ValidationResult) -> bool,
) -> nat
    decreases results.len(),
{
    if results.len() == 0 {
        0
    } else if holds(results.last()) {
        how_many(results.drop_last(), holds) + 1
    } else {
        how_many(results.drop_last(), holds)
    }
}

/// By how much the quote of a result was off in the part of the seller, and in that of
/// the treasury; nothing of a result that was skipped.
pub open spec fn gaps(result: ValidationResult) -> Option<(nat, nat)> {
    match result.status {
        ValidationStatus::Passed { user_diff, treasury_diff, .. } => Some(
            (user_diff@, treasury_diff@),
        ),
        ValidationStatus::Failed { user_diff, treasury_diff, .. } => Some(
            (user_diff@, treasury_diff@),
        ),
        ValidationStatus::Skipped { .. } => None,
    }
}

/// The tally counts each kind of result, and its largest differences are those of one of
/// the comparisons and no smaller than those of any; without one they are zero.
pub proof fn law_tally_counts_each_kind(results: Seq<ValidationResult>)
    ensures
        tally(results).passed == how_many(results, |r: ValidationResult| r.status is Passed),
        tally(results).failed == how_many(results, |r: ValidationResult| r.status is Failed),
        tally(results).skipped == how_many(results, |r: ValidationResult| r.status is Skipped),
        compared(results) == how_many(results, |r: ValidationResult| !(r.status is Skipped)),
        forall|i: int|
            0 <= i < results.len() ==> (gaps(#[trigger] results[i]) matches Some((user, treasury))
                ==> user <= tally(results).max_user_diff && treasury <= tally(
                results,
            ).max_treasury_diff),
        tally(results).max_user_diff == 0 || exists|i: int|
            0 <= i < results.len() && (gaps(#[trigger] results[i]) matches Some((user, treasury))
                && user == tally(results).max_user_diff),
        tally(results).max_treasury_diff == 0 || exists|i: int|
            0 <= i < results.len() && (gaps(#[trigger] results[i]) matches Some((user, treasury))
                && treasury == tally(results).max_treasury_diff),
    decreases results.len(),
{
    if results.len() > 0 {
        let fewer = results.drop_last();
        let last = results.len() - 1;
        let before = tally(fewer);
        let after = tally(results);
        law_tally_counts_each_kind(fewer);
        assert forall|i: int| 0 <= i < results.len() implies (gaps(
            #[trigger] results[i],
        ) matches Some((user, treasury)) ==> user <= after.max_user_diff && treasury
            <= after.max_treasury_diff) by {
            if i < last {
                assert(gaps(fewer[i]) == gaps(results[i]));
            }
        }
        if after.max_user_diff != 0 {
            if after.max_user_diff == before.max_user_diff {
                let i = choose|i: int|
                    0 <= i < fewer.len() && (gaps(#[trigger] fewer[i]) matches Some(
                        (user, treasury),
                    ) && user == before.max_user_diff);
                assert(gaps(results[i]) == gaps(fewer[i]));
            } else {
                assert(gaps(results[last]) matches Some((user, treasury)) && user
                    == after.max_user_diff);
            }
        }
        if after.max_treasury_diff != 0 {
            if after.max_treasury_diff == before.max_treasury_diff {
                let i = choose|i: int|
                    0 <= i < fewer.len() && (gaps(#[trigger] fewer[i]) matches Some(
                        (user, treasury),
                    ) && treasury == before.max_treasury_diff);
                assert(gaps(results[i]) == gaps(fewer[i]));
            } else {
                assert(gaps(results[last]) matches Some((user, treasury)) && treasury
                    == after.max_treasury_diff);
            }
        }
    }
}

/// The sales that are compared, how far the comparison has come, and what it found.
#[derive(Debug)]
pub struct ValidationRun {
    pub cases: Vec<RedeemCase>,
    pub next: usize,
    pub samples: usize,
    pub results: Vec<ValidationResult>,
}

/// Whether a result is a comparison.
fn is_compared(result: &ValidationResult) -> (yes: bool)
    ensures
        yes == !(result.status is Skipped),
{
    match result.status {
        ValidationStatus::Passed { .. } => true,
        ValidationStatus::Failed { .. } => true,
        ValidationStatus::Skipped { .. } => false,
    }
}

impl ValidationRun {
    /// Every result belongs to a sale that was taken up, and there are no more
    /// comparisons than were asked for.
    pub open spec fn wf(&self) -> bool {
        &&& self.next <= self.cases@.len()
        &&& self.results@.len() <= self.next
        &&& compared(self.results@) <= self.samples
    }

    /// A comparison that has not begun.
    pub fn new(cases: Vec<RedeemCase>, samples: usize) -> (run: ValidationRun)
        ensures
            run.wf(),
            run.cases == cases,
            run.next == 0,
            run.samples == samples,
            run.results@.len() == 0,
    {
        ValidationRun { cases, next: 0, samples, results: Vec::new() }
    }

    /// The next sale, unless all were taken up or enough are compared.
    pub fn next_case(&self) -> (case: Option<RedeemCase>)
        requires
            self.wf(),
        ensures
            case == if self.next < self.cases@.len() && compared(self.results@) < self.samples {
                Some(self.cases@[self.next as int])
            } else {
                None
            },
    {
        if self.next >= self.cases.len() {
            return None;
        }
        let mut count: usize = 0;
        let mut i: usize = 0;
        while i < self.results.len()
            invariant
                i <= self.results@.len(),
                count == compared(self.results@.take(i as int)),
                count <= i,
            decreases self.results@.len() - i,
        {
            proof {
                assert(self.results@.take(i + 1).drop_last() =~= self.results@.take(i as int));
            }
            if is_compared(&self.results[i]) {
                count = count + 1;
            }
            i = i + 1;
        }
        proof {
            assert(self.results@.take(i as int) =~= self.results@);
        }
        if count >= self.samples {
            return None;
        }
        Some(self.cases[self.next])
    }

    /// Takes up the next sale with its result, or without one where the comparison
    /// could not be made.
    pub fn record(&mut self, result: Option<ValidationResult>)
        requires
            old(self).wf(),
            old(self).next < old(self).cases@.len(),
            compared(old(self).results@) < old(self).samples,
        ensures
            final(self).wf(),
            final(self).cases == old(self).cases,
            final(self).samples == old(self).samples,
            final(self).next == old(self).next + 1,
            final(self).results@ == match result {
                Some(result) => old(self).results@.push(result),
                None => old(self).results@,
            },
    {
        proof {
            assert(self.next < self.cases.len());
        }
        if let Some(result) = result {
            proof {
                assert(self.results@.push(result).drop_last() =~= self.results@);
            }
            self.results.push(result);
        }
        self.next = self.next + 1;
    }
}

/// What a validation found in all.
#[derive(Debug)]
pub struct ValidationSummary {
    pub requested_samples: usize,
    pub collected_candidates: usize,
    pub validated: usize,
    pub passed: usize,
    pub failed: usize,
    pub skipped: usize,
    pub max_abs_user_diff: U256,
    pub max_abs_treasury_diff: U256,
    pub elapsed_ms: u128,
    pub output_path: String,
}

impl Clone for ValidationSummary {
    fn clone(&self) -> (copy: ValidationSummary)
        ensures
            copy == *self,
    {
        ValidationSummary {
            requested_samples: self.requested_samples,
            collected_candidates: self.collected_candidates,
            validated: self.validated,
            passed: self.passed,
            failed: self.failed,
            skipped: self.skipped,
            max_abs_user_diff: self.max_abs_user_diff,
            max_abs_treasury_diff: self.max_abs_treasury_diff,
            elapsed_ms: self.elapsed_ms,
            output_path: self.output_path.clone(),
        }
    }
}

/// The summary of a comparison.
pub fn summarize(
    run: &ValidationRun,
    elapsed_ms: u128,
    output_path: &str,
) -> (summary: ValidationSummary)
    ensures
        summary.requested_samples == run.samples,
        summary.collected_candidates == run.cases@.len(),
        summary.passed == tally(run.results@).passed,
        summary.failed == tally(run.results@).failed,
        summary.skipped == tally(run.results@).skipped,
        summary.validated == summary.passed + summary.failed,
        summary.validated + summary.skipped == run.results@.len(),
        run.wf() ==> summary.validated <= summary.requested_samples,
        summary.max_abs_user_diff@ == tally(run.results@).max_user_diff,
        summary.max_abs_treasury_diff@ == tally(run.results@).max_treasury_diff,
        summary.elapsed_ms == elapsed_ms,
        summary.output_path@ == output_path@,
{
    let mut passed: usize = 0;
    let mut failed: usize = 0;
    let mut skipped: usize = 0;
    let mut max_user = U256::zero();
    let mut max_treasury = U256::zero();
    let mut i: usize = 0;
    while i < run.results.len()
        invariant
            i <= run.results@.len(),
            ({
                let so_far = tally(run.results@.take(i as int));
                &&& passed == so_far.passed
                &&& failed == so_far.failed
                &&& skipped == so_far.skipped
                &&& max_user@ == so_far.max_user_diff
                &&& max_treasury@ == so_far.max_treasury_diff
            }),
            passed + failed + skipped == i,
        decreases run.results@.len() - i,
    {
        proof {
            assert(run.results@.take(i + 1).drop_last() =~= run.results@.take(i as int));
        }
        match &run.results[i].status {
            ValidationStatus::Passed { user_diff, treasury_diff, .. } => {
                passed = passed + 1;
                max_user = max_user.larger(*user_diff);
                max_treasury = max_treasury.larger(*treasury_diff);
            },
            ValidationStatus::Failed { user_diff, treasury_diff, .. } => {
                failed = failed + 1;
                max_user = max_user.larger(*user_diff);
                max_treasury = max_treasury.larger(*treasury_diff);
            },
            ValidationStatus::Skipped { .. } => {
                skipped = skipped + 1;
            },
        }
        i = i + 1;
    }
    proof {
        assert(run.results@.take(i as int) =~= run.results@);
    }
    ValidationSummary {
        requested_samples: run.samples,
        collected_candidates: run.cases.len(),
        validated: passed + failed,
        passed,
        failed,
        skipped,
        max_abs_user_diff: max_user,
        max_abs_treasury_diff: max_treasury,
        elapsed_ms,
        output_path: output_path.to_owned(),
    }
}

/// What the record of a summary holds.
pub open spec fn summary_members(summary: ValidationSummary) -> Members {
    no_members().insert(
        "type"@,
        JsonValue::Text("summary"@),
    ).insert(
        "requested_samples"@,
        JsonValue::Unsigned(summary.requested_samples as u64),
    ).insert(
        "collected_candidates"@,
        JsonValue::Unsigned(summary.collected_candidates as u64),
    ).insert(
        "validated"@,
        JsonValue::Unsigned(summary.validated as u64),
    ).insert(
        "passed"@,
        JsonValue::Unsigned(summary.passed as u64),
    ).insert(
        "failed"@,
        JsonValue::Unsigned(summary.failed as u64),
    ).insert(
        "skipped"@,
        JsonValue::Unsigned(summary.skipped as u64),
    ).insert(
        "max_abs_user_diff"@,
        JsonValue::Text(decimal(summary.max_abs_user_diff@)),
    ).insert(
        "max_abs_treasury_diff"@,
        JsonValue::Text(decimal(summary.max_abs_treasury_diff@)),
    ).insert(
        "elapsed_ms"@,
        JsonValue::Unsigned(summary.elapsed_ms as u64),
    )
}

/// The names of the members of the record of a summary differ.
proof fn lemma_summary_names()
    ensures
        "type"@.len() == 4,
        "requested_samples"@.len() == 17,
        "collected_candidates"@.len() == 20,
        "validated"@.len() == 9,
        "passed"@.len() == 6,
        "failed"@.len() == 6,
        "skipped"@.len() == 7,
        "max_abs_user_diff"@.len() == 17,
        "max_abs_treasury_diff"@.len() == 21,
        "elapsed_ms"@.len() == 10,
        "requested_samples"@ != "max_abs_user_diff"@,
        "passed"@ != "failed"@,
{
    reveal_strlit("type");
    reveal_strlit("requested_samples");
    reveal_strlit("collected_candidates");
    reveal_strlit("validated");
    reveal_strlit("passed");
    reveal_strlit("failed");
    reveal_strlit("skipped");
    reveal_strlit("max_abs_user_diff");
    reveal_strlit("max_abs_treasury_diff");
    reveal_strlit("elapsed_ms");
    assert("requested_samples"@[0] != "max_abs_user_diff"@[0]);
    assert("passed"@[0] != "failed"@[0]);
}

/// The record of a summary states each number of the summary under its own name.
pub proof fn law_summary_records_state_the_summary(summary: ValidationSummary)
    requires
        summary.elapsed_ms <= u64::MAX,
    ensures
        ({
            let record = summary_members(summary);
            &&& text_member(record, "type"@) == Some("summary"@)
            &&& unsigned_member(record, "requested_samples"@) == Some(summary.requested_samples as u64)
            &&& unsigned_member(record, "collected_candidates"@) == Some(summary.collected_candidates as u64)
            &&& unsigned_member(record, "validated"@) == Some(summary.validated as u64)
            &&& unsigned_member(record, "passed"@) == Some(summary.passed as u64)
            &&& unsigned_member(record, "failed"@) == Some(summary.failed as u64)
            &&& unsigned_member(record, "skipped"@) == Some(summary.skipped as u64)
            &&& states(record, "max_abs_user_diff"@, summary.max_abs_user_diff@)
            &&& states(record, "max_abs_treasury_diff"@, summary.max_abs_treasury_diff@)
            &&& unsigned_member(record, "elapsed_ms"@) matches Some(ms) && ms
                == summary.elapsed_ms
        }),
{
    lemma_summary_names();
    lemma_number_reads_back(summary.max_abs_user_diff);
    lemma_number_reads_back(summary.max_abs_treasury_diff);
}

/// The record of a summary holds nothing but scalars, so it is read back from its line.
pub proof fn law_summary_records_are_scalars(summary: ValidationSummary)
    ensures
        all_scalars(summary_members(summary)),
{
}

/// The record of a summary.
pub fn summary_record(summary: &ValidationSummary) -> (record: JsonObject)
    requires
        summary.elapsed_ms <= u64::MAX,
    ensures
        object_members(record) == summary_members(*summary),
{
    let mut record = empty_object();
    put_text(&mut record, "type", "summary".to_owned());
    put_number(&mut record, "requested_samples", summary.requested_samples as u64);
    put_number(&mut record, "collected_candidates", summary.collected_candidates as u64);
    put_number(&mut record, "validated", summary.validated as u64);
    put_number(&mut record, "passed", summary.passed as u64);
    put_number(&mut record, "failed", summary.failed as u64);
    put_number(&mut record, "skipped", summary.skipped as u64);
    put_text(&mut record, "max_abs_user_diff", summary.max_abs_user_diff.to_decimal());
    put_text(&mut record, "max_abs_treasury_diff", summary.max_abs_treasury_diff.to_decimal());
    put_number(&mut record, "elapsed_ms", summary.elapsed_ms as u64);
    record
}

} // verus!
