//! The audit of the logs that validations leave: which samples they hold, and
//! whether the samples bear out what was logged of them.
use vstd::prelude::*;
use vstd::hash_set::StringHashSet;
use vstd::string::StringExecFns;

use crate::address::{checksummed, hex_char, prefixed_hex, reads_back};
use crate::fields::{
    all_digits, digits_value, law_amounts_are_scaled, lemma_digits_behind, lemma_zeros_value,
    scaled_amount, token_units, ConfigErrorView,
};
use crate::json::{
    get_text, get_unsigned, member, member_text, object_members, optional_number, parse_object,
    parsed_members, read, states, text_member, unsigned_member, value_text, JsonObject, Members,
};
use crate::text::{
    chars_of, decimal, decimal_text, is_digit, law_appended_text_adds_its_lines, lines, lines_of,
    repeated, same_text, trim, trimmed, views,
};
use crate::u256::{
    distance, larger, law_decimal_reads_back, lemma_u256_view, parse_decimal,
    parsed_u256, smaller, u256_error_text, u256_limit, U256,
};
use crate::validation::{
    abs_diff, compared, lies_apart, result_members, tally, ValidationResult, ValidationStatus,
};

verus! {

/// What is wrong with a line of a log.
#[derive(Debug, PartialEq, Eq)]
pub enum LogFault {
    InvalidJson { error: String },
    Missing { field: String },
    Invalid { field: String, error: String },
}

/// What is wrong with a line of a log, with the texts as sequences of characters.
pub enum LogFaultView {
    InvalidJson { error: Seq<char> },
    Missing { field: Seq<char> },
    Invalid { field: Seq<char>, error: Seq<char> },
}

impl View for LogFault {
    type V = LogFaultView;

    open spec fn view(&self) -> LogFaultView {
        match self {
            LogFault::InvalidJson { error } => LogFaultView::InvalidJson { error: error@ },
            LogFault::Missing { field } => LogFaultView::Missing { field: field@ },
            LogFault::Invalid { field, error } => LogFaultView::Invalid {
                field: field@,
                error: error@,
            },
        }
    }
}

/// A line of a log with which something is wrong. Lines are numbered from one.
#[derive(Debug, PartialEq, Eq)]
pub struct LogError {
    pub path: String,
    pub line: u64,
    pub fault: LogFault,
}

/// What is said of a line of a log.
pub open spec fn log_error_message(path: Seq<char>, line: nat, fault: LogFaultView) -> Seq<char> {
    let place = path + ":"@ + decimal(line);
    match fault {
        LogFaultView::InvalidJson { error } => place + " invalid JSONL: "@ + error,
        LogFaultView::Missing { field } => place + " missing "@ + field,
        LogFaultView::Invalid { field, error } => place + " invalid "@ + field + ": "@ + error,
    }
}

/// What is said of a line begins with its log and its number, and ends with the field
/// that is missing or with what is wrong.
pub proof fn law_errors_name_the_line(path: Seq<char>, line: nat, fault: LogFaultView)
    ensures
        ({
            let said = log_error_message(path, line, fault);
            let place = path + seq![':'] + decimal(line);
            let cause = match fault {
                LogFaultView::InvalidJson { error } => error,
                LogFaultView::Missing { field } => field,
                LogFaultView::Invalid { error, .. } => error,
            };
            &&& said.len() >= place.len() + cause.len()
            &&& said.take(place.len() as int) == place
            &&& said.skip(said.len() - cause.len()) == cause
        }),
{
    let said = log_error_message(path, line, fault);
    let place = path + seq![':'] + decimal(line);
    reveal_strlit(":");
    assert(":"@ =~= seq![':']);
    assert(said.take(place.len() as int) =~= place);
    match fault {
        LogFaultView::InvalidJson { error } => {
            assert(said.skip(said.len() - error.len()) =~= error);
        },
        LogFaultView::Missing { field } => {
            assert(said.skip(said.len() - field.len()) =~= field);
        },
        LogFaultView::Invalid { error, .. } => {
            assert(said.skip(said.len() - error.len()) =~= error);
        },
    }
}

impl LogError {
    /// What is said of the line.
    pub fn message(&self) -> (text: String)
        ensures
            text@ == log_error_message(self.path@, self.line as nat, self.fault@),
    {
        let place = self.path.clone().concat(":").concat(decimal_text(self.line).as_str());
        match &self.fault {
            LogFault::InvalidJson { error } => place.concat(" invalid JSONL: ").concat(
                error.as_str(),
            ),
            LogFault::Missing { field } => place.concat(" missing ").concat(field.as_str()),
            LogFault::Invalid { field, error } => place.concat(" invalid ").concat(
                field.as_str(),
            ).concat(": ").concat(error.as_str()),
        }
    }
}

/// What an audit has found so far.
#[verifier::ext_equal]
pub struct AuditView {
    pub seen: Set<Seq<char>>,
    pub markets: Set<Seq<char>>,
    pub token_ids: Set<Seq<char>>,
    pub passed: nat,
    pub failed: nat,
    pub skipped: nat,
    pub zero_diffs: nat,
    pub auditable: nat,
    pub block_min: Option<u64>,
    pub block_max: Option<u64>,
    pub max_user_diff: nat,
    pub max_treasury_diff: nat,
    pub tax_min: Option<nat>,
    pub tax_max: Option<nat>,
}

/// The number that the text of a field stands for.
pub open spec fn number_of(field: Seq<char>, raw: Seq<char>) -> Result<nat, LogFaultView> {
    match parsed_u256(raw) {
        Some(number) => Ok(number),
        None => Err(LogFaultView::Invalid { field, error: u256_error_text(raw) }),
    }
}

/// The number that a field of a sample stands for.
pub open spec fn number_field(sample: Members, field: Seq<char>) -> Result<nat, LogFaultView> {
    match text_member(sample, field) {
        Some(raw) => number_of(field, raw),
        None => Err(LogFaultView::Missing { field }),
    }
}

/// The difference that a sample states, or else the one between its numbers.
pub open spec fn diff_field(sample: Members, field: Seq<char>, a: nat, b: nat) -> Result<
    nat,
    LogFaultView,
> {
    match text_member(sample, field) {
        Some(raw) => number_of(field, raw),
        None => Ok(distance(a, b)),
    }
}

/// What a sample says of a sale and of its quote.
pub struct Comparison {
    pub event_user: nat,
    pub event_treasury: nat,
    pub user_diff: nat,
    pub treasury_diff: nat,
}

/// What a sample says of a sale and of its quote, or the first thing that is wrong with it.
pub open spec fn comparison(sample: Members) -> Result<Comparison, LogFaultView> {
    match number_field(sample, "event_collateral_to_user"@) {
        Err(fault) => Err(fault),
        Ok(event_user) => match number_field(sample, "event_collateral_to_treasury"@) {
            Err(fault) => Err(fault),
            Ok(event_treasury) => match number_field(sample, "computed_collateral_to_user"@) {
                Err(fault) => Err(fault),
                Ok(user) => match number_field(sample, "computed_collateral_to_treasury"@) {
                    Err(fault) => Err(fault),
                    Ok(treasury) => match diff_field(sample, "user_diff"@, user, event_user) {
                        Err(fault) => Err(fault),
                        Ok(user_diff) => match diff_field(
                            sample,
                            "treasury_diff"@,
                            treasury,
                            event_treasury,
                        ) {
                            Err(fault) => Err(fault),
                            Ok(treasury_diff) => Ok(
                                Comparison {
                                    event_user,
                                    event_treasury,
                                    user_diff,
                                    treasury_diff,
                                },
                            ),
                        },
                    },
                },
            },
        },
    }
}

/// A share in millionths of a basis point; ten to the power of ten times the
/// numerator is taken modulo two to the power of 256.
pub open spec fn scaled_share(numerator: nat, denominator: nat) -> nat {
    if denominator == 0 {
        0
    } else {
        ((numerator * 10_000_000_000) % u256_limit()) / denominator
    }
}

/// What tells a sample from others: its transaction and the place of its log there.
pub open spec fn sample_key(sample: Members, tx_hash: Seq<char>) -> Seq<char> {
    tx_hash + ":"@ + if sample.contains_key("log_index"@) {
        value_text(sample["log_index"@])
    } else {
        "null"@
    }
}

/// `texts` with the text of a field, where the sample has it.
pub open spec fn with_text(texts: Set<Seq<char>>, sample: Members, field: Seq<char>) -> Set<
    Seq<char>,
> {
    match text_member(sample, field) {
        Some(text) => texts.insert(text),
        None => texts,
    }
}

/// The smaller of a number and one that may be missing.
pub open spec fn least(current: Option<nat>, n: nat) -> Option<nat> {
    match current {
        Some(least) => Some(smaller(least, n)),
        None => Some(n),
    }
}

/// The larger of a number and one that may be missing.
pub open spec fn greatest(current: Option<nat>, n: nat) -> Option<nat> {
    match current {
        Some(greatest) => Some(larger(greatest, n)),
        None => Some(n),
    }
}

/// The first of the blocks.
pub open spec fn first_block(current: Option<u64>, block: Option<u64>) -> Option<u64> {
    match (current, block) {
        (Some(first), Some(block)) => Some(if block < first { block } else { first }),
        (None, block) => block,
        (first, None) => first,
    }
}

/// The last of the blocks.
pub open spec fn last_block(current: Option<u64>, block: Option<u64>) -> Option<u64> {
    match (current, block) {
        (Some(last), Some(block)) => Some(if block > last { block } else { last }),
        (None, block) => block,
        (last, None) => last,
    }
}

/// What is noted of every sample.
pub open spec fn noted(audit: AuditView, sample: Members, key: Seq<char>) -> AuditView {
    let block = unsigned_member(sample, "block_number"@);
    AuditView {
        seen: audit.seen.insert(key),
        markets: with_text(audit.markets, sample, "market"@),
        token_ids: with_text(audit.token_ids, sample, "token_id"@),
        block_min: first_block(audit.block_min, block),
        block_max: last_block(audit.block_max, block),
        ..audit
    }
}

/// The status of a sample is this one.
pub open spec fn has_status(sample: Members, status: Seq<char>) -> bool {
    text_member(sample, "status"@) == Some(status)
}

/// What is noted of a sample that was compared. It passes where it was logged to
/// have passed and neither difference is beyond the tolerance.
pub open spec fn judged(audit: AuditView, sample: Members, found: Comparison, tolerance: nat) -> AuditView {
    let gross = (found.event_user + found.event_treasury) % u256_limit();
    let tax = scaled_share(found.event_treasury, gross);
    let passes = found.user_diff <= tolerance && found.treasury_diff <= tolerance && has_status(
        sample,
        "passed"@,
    );
    AuditView {
        passed: audit.passed + if passes {
            1nat
        } else {
            0nat
        },
        failed: audit.failed + if passes {
            0nat
        } else {
            1nat
        },
        zero_diffs: audit.zero_diffs + if found.user_diff == 0 && found.treasury_diff == 0 {
            1nat
        } else {
            0nat
        },
        auditable: audit.auditable + if sample.contains_key("spot_collateral_value"@)
            && sample.contains_key("slippage_bps"@) {
            1nat
        } else {
            0nat
        },
        max_user_diff: larger(audit.max_user_diff, found.user_diff),
        max_treasury_diff: larger(audit.max_treasury_diff, found.treasury_diff),
        tax_min: if gross == 0 {
            audit.tax_min
        } else {
            least(audit.tax_min, tax)
        },
        tax_max: if gross == 0 {
            audit.tax_max
        } else {
            greatest(audit.tax_max, tax)
        },
        ..audit
    }
}

/// What an audit finds with one more sample. A sample that was seen before adds nothing.
pub open spec fn audited_sample(audit: AuditView, sample: Members, tolerance: nat) -> Result<
    AuditView,
    LogFaultView,
> {
    match text_member(sample, "tx_hash"@) {
        None => Err(LogFaultView::Missing { field: "tx_hash"@ }),
        Some(tx_hash) => {
            let key = sample_key(sample, tx_hash);
            let next = noted(audit, sample, key);
            if audit.seen.contains(key) {
                Ok(audit)
            } else if has_status(sample, "skipped"@) {
                Ok(AuditView { skipped: next.skipped + 1, ..next })
            } else {
                match comparison(sample) {
                    Ok(found) => Ok(judged(next, sample, found, tolerance)),
                    Err(fault) => Err(fault),
                }
            }
        },
    }
}

/// What an audit finds with one more line. Blank lines, and records that are no
/// samples, add nothing.
pub open spec fn audited_line(audit: AuditView, line: Seq<char>, tolerance: nat) -> Result<
    AuditView,
    LogFaultView,
> {
    if trim(line).len() == 0 {
        Ok(audit)
    } else {
        match parsed_members(line) {
            Err(error) => Err(LogFaultView::InvalidJson { error }),
            Ok(None) => Ok(audit),
            Ok(Some(record)) => if text_member(record, "type"@) == Some("sample"@) {
                audited_sample(audit, record, tolerance)
            } else {
                Ok(audit)
            },
        }
    }
}

/// What an audit finds with the first `n` lines of a log, or the number of the first
/// line with which something is wrong, and what that is.
pub open spec fn audited_lines(
    audit: AuditView,
    log: Seq<Seq<char>>,
    n: nat,
    tolerance: nat,
) -> Result<AuditView, (nat, LogFaultView)>
    decreases n,
{
    if n == 0 {
        Ok(audit)
    } else {
        match audited_lines(audit, log, (n - 1) as nat, tolerance) {
            Err(error) => Err(error),
            Ok(so_far) => match audited_line(so_far, log[n - 1], tolerance) {
                Ok(next) => Ok(next),
                Err(fault) => Err((n, fault)),
            },
        }
    }
}

/// What an audit finds with a further log.
pub open spec fn audited_log(audit: AuditView, raw: Seq<char>, tolerance: nat) -> Result<
    AuditView,
    (nat, LogFaultView),
> {
    audited_lines(audit, lines(raw), lines(raw).len(), tolerance)
}

/// An audit that has found nothing yet.
pub open spec fn empty_audit() -> AuditView {
    AuditView {
        seen: Set::empty(),
        markets: Set::empty(),
        token_ids: Set::empty(),
        passed: 0,
        failed: 0,
        skipped: 0,
        zero_diffs: 0,
        auditable: 0,
        block_min: None,
        block_max: None,
        max_user_diff: 0,
        max_treasury_diff: 0,
        tax_min: None,
        tax_max: None,
    }
}

/// Every sample that was seen passed, failed or was skipped.
pub open spec fn balanced(audit: AuditView) -> bool {
    &&& audit.seen.finite()
    &&& audit.passed + audit.failed + audit.skipped == audit.seen.len()
    &&& audit.zero_diffs <= audit.passed + audit.failed
    &&& audit.auditable <= audit.passed + audit.failed
}

/// The view of an optional number.
pub open spec fn optional_value(n: Option<U256>) -> Option<nat> {
    match n {
        Some(n) => Some(n@),
        None => None,
    }
}

/// An audit of logs.
pub struct LogAudit {
    pub seen: StringHashSet,
    pub markets: StringHashSet,
    pub token_ids: StringHashSet,
    pub passed: usize,
    pub failed: usize,
    pub skipped: usize,
    pub zero_diff_samples: usize,
    pub slippage_auditable_samples: usize,
    pub block_min: Option<u64>,
    pub block_max: Option<u64>,
    pub max_abs_user_diff: U256,
    pub max_abs_treasury_diff: U256,
    pub tax_min: Option<U256>,
    pub tax_max: Option<U256>,
}

impl View for LogAudit {
    type V = AuditView;

    open spec fn view(&self) -> AuditView {
        AuditView {
            seen: self.seen@,
            markets: self.markets@,
            token_ids: self.token_ids@,
            passed: self.passed as nat,
            failed: self.failed as nat,
            skipped: self.skipped as nat,
            zero_diffs: self.zero_diff_samples as nat,
            auditable: self.slippage_auditable_samples as nat,
            block_min: self.block_min,
            block_max: self.block_max,
            max_user_diff: self.max_abs_user_diff@,
            max_treasury_diff: self.max_abs_treasury_diff@,
            tax_min: optional_value(self.tax_min),
            tax_max: optional_value(self.tax_max),
        }
    }
}

/// Reads the number of a field.
fn parse_u256_field(field: &str, raw: &str) -> (number: Result<U256, LogFault>)
    ensures
        match number {
            Ok(number) => number_of(field@, raw@) == Ok::<nat, LogFaultView>(number@),
            Err(fault) => number_of(field@, raw@) == Err::<nat, LogFaultView>(fault@),
        },
{
    match parse_decimal(raw) {
        Ok(number) => Ok(number),
        Err(error) => Err(LogFault::Invalid { field: field.to_owned(), error }),
    }
}

/// The number of a field of a sample.
fn u256_field(sample: &JsonObject, field: &str) -> (number: Result<U256, LogFault>)
    ensures
        match number {
            Ok(number) => number_field(object_members(*sample), field@) == Ok::<nat, LogFaultView>(
                number@,
            ),
            Err(fault) => number_field(object_members(*sample), field@) == Err::<
                nat,
                LogFaultView,
            >(fault@),
        },
{
    match get_text(sample, field) {
        Some(raw) => parse_u256_field(field, raw.as_str()),
        None => Err(LogFault::Missing { field: field.to_owned() }),
    }
}

/// The difference that a sample states, or else the one between its numbers.
fn stated_diff(sample: &JsonObject, field: &str, a: U256, b: U256) -> (number: Result<
    U256,
    LogFault,
>)
    ensures
        match number {
            Ok(number) => diff_field(object_members(*sample), field@, a@, b@) == Ok::<
                nat,
                LogFaultView,
            >(number@),
            Err(fault) => diff_field(object_members(*sample), field@, a@, b@) == Err::<
                nat,
                LogFaultView,
            >(fault@),
        },
{
    match get_text(sample, field) {
        Some(raw) => parse_u256_field(field, raw.as_str()),
        None => Ok(abs_diff(a, b)),
    }
}

/// What a sample says of a sale and of its quote: the part of the seller and that of
/// the treasury, and how far the quote was off in each.
fn read_comparison(sample: &JsonObject) -> (found: Result<(U256, U256, U256, U256), LogFault>)
    ensures
        match found {
            Ok((event_user, event_treasury, user_diff, treasury_diff)) => comparison(
                object_members(*sample),
            ) == Ok::<Comparison, LogFaultView>(
                Comparison {
                    event_user: event_user@,
                    event_treasury: event_treasury@,
                    user_diff: user_diff@,
                    treasury_diff: treasury_diff@,
                },
            ),
            Err(fault) => comparison(object_members(*sample)) == Err::<Comparison, LogFaultView>(
                fault@,
            ),
        },
{
    let event_user = match u256_field(sample, "event_collateral_to_user") {
        Ok(number) => number,
        Err(fault) => return Err(fault),
    };
    let event_treasury = match u256_field(sample, "event_collateral_to_treasury") {
        Ok(number) => number,
        Err(fault) => return Err(fault),
    };
    let computed_user = match u256_field(sample, "computed_collateral_to_user") {
        Ok(number) => number,
        Err(fault) => return Err(fault),
    };
    let computed_treasury = match u256_field(sample, "computed_collateral_to_treasury") {
        Ok(number) => number,
        Err(fault) => return Err(fault),
    };
    let user_diff = match stated_diff(sample, "user_diff", computed_user, event_user) {
        Ok(number) => number,
        Err(fault) => return Err(fault),
    };
    let treasury_diff = match stated_diff(
        sample,
        "treasury_diff",
        computed_treasury,
        event_treasury,
    ) {
        Ok(number) => number,
        Err(fault) => return Err(fault),
    };
    Ok((event_user, event_treasury, user_diff, treasury_diff))
}

/// A share in millionths of a basis point.
pub fn scaled_bps(numerator: U256, denominator: U256) -> (share: U256)
    ensures
        share@ == scaled_share(numerator@, denominator@),
{
    if denominator.is_zero() {
        return U256::zero();
    }
    numerator.wrapping_product(U256::from(10_000_000_000u64)).quotient(denominator)
}

/// `n` in decimal, with zeros before it up to six digits.
pub open spec fn six_digits(n: nat) -> Seq<char> {
    let digits = decimal(n);
    if digits.len() < 6 {
        repeated('0', (6 - digits.len()) as nat) + digits
    } else {
        digits
    }
}

/// Millionths of a basis point as basis points with six digits behind the point.
pub open spec fn scaled_share_text(value: nat) -> Seq<char> {
    decimal(value / 1_000_000) + "."@ + six_digits(value % 1_000_000)
}

/// Millionths of a basis point as basis points with six digits behind the point.
pub fn format_scaled_bps(value: U256) -> (text: String)
    ensures
        text@ == scaled_share_text(value@),
{
    let scale = U256::from(1_000_000u64);
    let mut text = value.quotient(scale).to_decimal();
    let fraction = value.remainder(scale).to_decimal();
    text.append(".");
    let ghost front = text@;
    let length = chars_of(fraction.as_str()).len();
    let mut zeros: usize = length;
    proof {
        assert(front + repeated('0', 0) =~= front);
    }
    while zeros < 6
        invariant
            length <= zeros,
            zeros <= 6 || zeros == length,
            text@ == front + repeated('0', (zeros - length) as nat),
        decreases 6 - zeros,
    {
        text.push('0');
        proof {
            assert(text@ =~= front + repeated('0', (zeros + 1 - length) as nat));
        }
        zeros = zeros + 1;
    }
    text.append(fraction.as_str());
    proof {
        assert(text@ =~= front + six_digits(value@ % 1_000_000));
    }
    text
}

impl LogAudit {
    /// An audit that has found nothing yet.
    pub fn new() -> (audit: LogAudit)
        ensures
            audit@ == empty_audit(),
            balanced(audit@),
    {
        LogAudit {
            seen: StringHashSet::new(),
            markets: StringHashSet::new(),
            token_ids: StringHashSet::new(),
            passed: 0,
            failed: 0,
            skipped: 0,
            zero_diff_samples: 0,
            slippage_auditable_samples: 0,
            block_min: None,
            block_max: None,
            max_abs_user_diff: U256::zero(),
            max_abs_treasury_diff: U256::zero(),
            tax_min: None,
            tax_max: None,
        }
    }

    /// Notes what is noted of every sample.
    fn note(self, sample: &JsonObject, key: String) -> (audit: LogAudit)
        ensures
            audit@ == noted(self@, object_members(*sample), key@),
    {
        let mut audit = self;
        audit.seen.insert(key);
        if let Some(market) = get_text(sample, "market") {
            audit.markets.insert(market);
        }
        if let Some(token_id) = get_text(sample, "token_id") {
            audit.token_ids.insert(token_id);
        }
        if let Some(block) = get_unsigned(sample, "block_number") {
            audit.block_min = match audit.block_min {
                Some(first) => Some(
                    if block < first {
                        block
                    } else {
                        first
                    },
                ),
                None => Some(block),
            };
            audit.block_max = match audit.block_max {
                Some(last) => Some(
                    if block > last {
                        block
                    } else {
                        last
                    },
                ),
                None => Some(block),
            };
        }
        audit
    }

    /// Judges a sample that was compared.
    fn judge(
        self,
        sample: &JsonObject,
        event_user: U256,
        event_treasury: U256,
        user_diff: U256,
        treasury_diff: U256,
        tolerance: U256,
    ) -> (audit: LogAudit)
        requires
            self.passed + self.failed < usize::MAX,
            self.zero_diff_samples <= self.passed + self.failed,
            self.slippage_auditable_samples <= self.passed + self.failed,
        ensures
            audit@ == judged(
                self@,
                object_members(*sample),
                Comparison {
                    event_user: event_user@,
                    event_treasury: event_treasury@,
                    user_diff: user_diff@,
                    treasury_diff: treasury_diff@,
                },
                tolerance@,
            ),
    {
        let mut audit = self;
        audit.max_abs_user_diff = audit.max_abs_user_diff.larger(user_diff);
        audit.max_abs_treasury_diff = audit.max_abs_treasury_diff.larger(treasury_diff);
        if user_diff.is_zero() && treasury_diff.is_zero() {
            audit.zero_diff_samples = audit.zero_diff_samples + 1;
        }
        let gross = event_user.wrapping_sum(event_treasury);
        if !gross.is_zero() {
            let tax = scaled_bps(event_treasury, gross);
            audit.tax_min = match audit.tax_min {
                Some(least) => Some(least.smaller(tax)),
                None => Some(tax),
            };
            audit.tax_max = match audit.tax_max {
                Some(greatest) => Some(greatest.larger(tax)),
                None => Some(tax),
            };
        }
        if member(sample, "spot_collateral_value").is_some() && member(
            sample,
            "slippage_bps",
        ).is_some() {
            audit.slippage_auditable_samples = audit.slippage_auditable_samples + 1;
        }
        let logged_passed = match get_text(sample, "status") {
            Some(status) => same_text(status.as_str(), "passed"),
            None => false,
        };
        if user_diff.at_most(tolerance) && treasury_diff.at_most(tolerance) && logged_passed {
            audit.passed = audit.passed + 1;
        } else {
            audit.failed = audit.failed + 1;
        }
        audit
    }

    /// The audit with one more sample.
    pub fn with_sample(self, sample: &JsonObject, tolerance: U256) -> (result: Result<
        LogAudit,
        LogFault,
    >)
        requires
            balanced(self@),
        ensures
            match result {
                Ok(audit) => balanced(audit@) && audited_sample(
                    self@,
                    object_members(*sample),
                    tolerance@,
                ) == Ok::<AuditView, LogFaultView>(audit@),
                Err(fault) => audited_sample(self@, object_members(*sample), tolerance@) == Err::<
                    AuditView,
                    LogFaultView,
                >(fault@),
            },
    {
        let tx_hash = match get_text(sample, "tx_hash") {
            Some(text) => text,
            None => return Err(LogFault::Missing { field: "tx_hash".to_owned() }),
        };
        let log_index = match member(sample, "log_index") {
            Some(value) => member_text(&value),
            None => "null".to_owned(),
        };
        let key = tx_hash.concat(":").concat(log_index.as_str());
        if self.seen.contains(key.as_str()) {
            return Ok(self);
        }
        let mut audit = self.note(sample, key);
        let _ = audit.seen.len();
        let skipped = match get_text(sample, "status") {
            Some(status) => same_text(status.as_str(), "skipped"),
            None => false,
        };
        if skipped {
            audit.skipped = audit.skipped + 1;
            return Ok(audit);
        }
        match read_comparison(sample) {
            Ok((event_user, event_treasury, user_diff, treasury_diff)) => Ok(
                audit.judge(
                    sample,
                    event_user,
                    event_treasury,
                    user_diff,
                    treasury_diff,
                    tolerance,
                ),
            ),
            Err(fault) => Err(fault),
        }
    }

    /// The audit with one more line.
    pub fn with_line(self, line: &str, tolerance: U256) -> (result: Result<LogAudit, LogFault>)
        requires
            balanced(self@),
        ensures
            match result {
                Ok(audit) => balanced(audit@) && audited_line(self@, line@, tolerance@) == Ok::<
                    AuditView,
                    LogFaultView,
                >(audit@),
                Err(fault) => audited_line(self@, line@, tolerance@) == Err::<
                    AuditView,
                    LogFaultView,
                >(fault@),
            },
    {
        if trimmed(line).as_str().is_empty() {
            return Ok(self);
        }
        let record = match parse_object(line) {
            Ok(Some(record)) => record,
            Ok(None) => return Ok(self),
            Err(error) => return Err(LogFault::InvalidJson { error }),
        };
        let is_sample = match get_text(&record, "type") {
            Some(kind) => same_text(kind.as_str(), "sample"),
            None => false,
        };
        if is_sample {
            self.with_sample(&record, tolerance)
        } else {
            Ok(self)
        }
    }

    /// The audit with a further log, or the first line of the log with which
    /// something is wrong.
    pub fn with_log(self, path: &str, raw: &str, tolerance: U256) -> (result: Result<
        LogAudit,
        LogError,
    >)
        requires
            balanced(self@),
        ensures
            match result {
                Ok(audit) => balanced(audit@) && audited_log(self@, raw@, tolerance@) == Ok::<
                    AuditView,
                    (nat, LogFaultView),
                >(audit@),
                Err(error) => error.path@ == path@ && audited_log(self@, raw@, tolerance@) == Err::<
                    AuditView,
                    (nat, LogFaultView),
                >((error.line as nat, error.fault@)),
            },
    {
        let log = lines_of(raw);
        let ghost all = lines(raw@);
        let ghost start = self@;
        let mut audit = self;
        let mut i: usize = 0;
        while i < log.len()
            invariant
                i <= log@.len(),
                start == self@,
                all == lines(raw@),
                views(log@) == all,
                balanced(audit@),
                audited_lines(start, all, i as nat, tolerance@) == Ok::<
                    AuditView,
                    (nat, LogFaultView),
                >(audit@),
            decreases log@.len() - i,
        {
            proof {
                assert(all[i as int] == log@[i as int]@);
            }
            match audit.with_line(log[i].as_str(), tolerance) {
                Ok(next) => {
                    audit = next;
                },
                Err(fault) => {
                    proof {
                        lemma_first_fault(start, all, (i + 1) as nat, all.len(), tolerance@);
                    }
                    return Err(LogError { path: path.to_owned(), line: i as u64 + 1, fault });
                },
            }
            i = i + 1;
        }
        Ok(audit)
    }

    /// What the audit found.
    pub fn summary(&self, inputs: Vec<String>, tolerance_wei: U256) -> (summary: PricingLogSummary)
        requires
            balanced(self@),
        ensures
            is_summary(summary, self@, tolerance_wei@),
            summary.inputs == inputs,
    {
        PricingLogSummary {
            inputs,
            unique_samples: self.seen.len(),
            passed: self.passed,
            failed: self.failed,
            skipped: self.skipped,
            unique_markets: self.markets.len(),
            unique_token_ids: self.token_ids.len(),
            block_min: self.block_min,
            block_max: self.block_max,
            zero_diff_samples: self.zero_diff_samples,
            tolerance_wei: tolerance_wei.to_decimal(),
            max_abs_user_diff: self.max_abs_user_diff.to_decimal(),
            max_abs_treasury_diff: self.max_abs_treasury_diff.to_decimal(),
            protocol_tax_bps_min: match self.tax_min {
                Some(tax) => Some(format_scaled_bps(tax)),
                None => None,
            },
            protocol_tax_bps_max: match self.tax_max {
                Some(tax) => Some(format_scaled_bps(tax)),
                None => None,
            },
            slippage_auditable_samples: self.slippage_auditable_samples,
            slippage_formula_note: if self.slippage_auditable_samples == 0 {
                "existing validation logs do not include spot_collateral_value; slippage formula is covered by unit tests and quote logs".to_owned()
            } else {
                "slippage fields were present in at least one log sample".to_owned()
            },
        }
    }
}

/// A fault stays the first one however many lines follow.
proof fn lemma_first_fault(
    audit: AuditView,
    log: Seq<Seq<char>>,
    n: nat,
    m: nat,
    tolerance: nat,
)
    requires
        n <= m,
        audited_lines(audit, log, n, tolerance) is Err,
    ensures
        audited_lines(audit, log, m, tolerance) == audited_lines(audit, log, n, tolerance),
    decreases m,
{
    if n < m {
        lemma_first_fault(audit, log, n, (m - 1) as nat, tolerance);
    }
}

/// What an audit of logs found.
#[derive(Debug)]
pub struct PricingLogSummary {
    pub inputs: Vec<String>,
    pub unique_samples: usize,
    pub passed: usize,
    pub failed: usize,
    pub skipped: usize,
    pub unique_markets: usize,
    pub unique_token_ids: usize,
    pub block_min: Option<u64>,
    pub block_max: Option<u64>,
    pub zero_diff_samples: usize,
    pub tolerance_wei: String,
    pub max_abs_user_diff: String,
    pub max_abs_treasury_diff: String,
    pub protocol_tax_bps_min: Option<String>,
    pub protocol_tax_bps_max: Option<String>,
    pub slippage_auditable_samples: usize,
    pub slippage_formula_note: String,
}

impl Clone for PricingLogSummary {
    fn clone(&self) -> (copy: PricingLogSummary)
        ensures
            copy.inputs@ == self.inputs@,
            copy.unique_samples == self.unique_samples,
            copy.passed == self.passed,
            copy.failed == self.failed,
            copy.skipped == self.skipped,
            copy.unique_markets == self.unique_markets,
            copy.unique_token_ids == self.unique_token_ids,
            copy.block_min == self.block_min,
            copy.block_max == self.block_max,
            copy.zero_diff_samples == self.zero_diff_samples,
            copy.tolerance_wei == self.tolerance_wei,
            copy.max_abs_user_diff == self.max_abs_user_diff,
            copy.max_abs_treasury_diff == self.max_abs_treasury_diff,
            copy.protocol_tax_bps_min == self.protocol_tax_bps_min,
            copy.protocol_tax_bps_max == self.protocol_tax_bps_max,
            copy.slippage_auditable_samples == self.slippage_auditable_samples,
            copy.slippage_formula_note == self.slippage_formula_note,
    {
        let inputs = self.inputs.clone();
        proof {
            assert(inputs@ =~= self.inputs@);
        }
        PricingLogSummary {
            inputs,
            unique_samples: self.unique_samples,
            passed: self.passed,
            failed: self.failed,
            skipped: self.skipped,
            unique_markets: self.unique_markets,
            unique_token_ids: self.unique_token_ids,
            block_min: self.block_min,
            block_max: self.block_max,
            zero_diff_samples: self.zero_diff_samples,
            tolerance_wei: self.tolerance_wei.clone(),
            max_abs_user_diff: self.max_abs_user_diff.clone(),
            max_abs_treasury_diff: self.max_abs_treasury_diff.clone(),
            protocol_tax_bps_min: self.protocol_tax_bps_min.clone(),
            protocol_tax_bps_max: self.protocol_tax_bps_max.clone(),
            slippage_auditable_samples: self.slippage_auditable_samples,
            slippage_formula_note: self.slippage_formula_note.clone(),
        }
    }
}

/// The text of an optional share.
pub open spec fn is_share_text(text: Option<String>, share: Option<nat>) -> bool {
    match (text, share) {
        (Some(text), Some(share)) => text@ == scaled_share_text(share),
        (None, None) => true,
        _ => false,
    }
}

/// `summary` says what the audit found. Every sample passed, failed or was skipped.
pub open spec fn is_summary(summary: PricingLogSummary, audit: AuditView, tolerance: nat) -> bool {
    &&& summary.unique_samples == audit.seen.len()
    &&& summary.passed == audit.passed
    &&& summary.failed == audit.failed
    &&& summary.skipped == audit.skipped
    &&& summary.passed + summary.failed + summary.skipped == summary.unique_samples
    &&& summary.unique_markets == audit.markets.len()
    &&& summary.unique_token_ids == audit.token_ids.len()
    &&& summary.block_min == audit.block_min
    &&& summary.block_max == audit.block_max
    &&& summary.zero_diff_samples == audit.zero_diffs
    &&& summary.tolerance_wei@ == decimal(tolerance)
    &&& summary.max_abs_user_diff@ == decimal(audit.max_user_diff)
    &&& summary.max_abs_treasury_diff@ == decimal(audit.max_treasury_diff)
    &&& is_share_text(summary.protocol_tax_bps_min, audit.tax_min)
    &&& is_share_text(summary.protocol_tax_bps_max, audit.tax_max)
    &&& summary.slippage_auditable_samples == audit.auditable
    &&& summary.slippage_formula_note@ == if audit.auditable == 0 {
        "existing validation logs do not include spot_collateral_value; slippage formula is covered by unit tests and quote logs"@
    } else {
        "slippage fields were present in at least one log sample"@
    }
}

/// What an audit finds in the first `n` of some logs, or the first log with which
/// something is wrong, its line, and what that is.
pub open spec fn audited_logs(raws: Seq<Seq<char>>, n: nat, tolerance: nat) -> Result<
    AuditView,
    (nat, nat, LogFaultView),
>
    decreases n,
{
    if n == 0 {
        Ok(empty_audit())
    } else {
        match audited_logs(raws, (n - 1) as nat, tolerance) {
            Err(error) => Err(error),
            Ok(so_far) => match audited_log(so_far, raws[n - 1], tolerance) {
                Ok(next) => Ok(next),
                Err((line, fault)) => Err(((n - 1) as nat, line, fault)),
            },
        }
    }
}

/// A log that was read: where it was found, and its text.
#[derive(Debug)]
pub struct PricingLog {
    pub path: String,
    pub raw: String,
}

/// The texts of logs.
pub open spec fn raw_texts(logs: Seq<PricingLog>) -> Seq<Seq<char>> {
    logs.map_values(|log: PricingLog| log.raw@)
}

/// The places of logs.
pub open spec fn log_paths(logs: Seq<PricingLog>) -> Seq<Seq<char>> {
    logs.map_values(|log: PricingLog| log.path@)
}

/// A fault stays the first one however many logs follow.
proof fn lemma_first_faulty_log(raws: Seq<Seq<char>>, n: nat, m: nat, tolerance: nat)
    requires
        n <= m,
        audited_logs(raws, n, tolerance) is Err,
    ensures
        audited_logs(raws, m, tolerance) == audited_logs(raws, n, tolerance),
    decreases m,
{
    if n < m {
        lemma_first_faulty_log(raws, n, (m - 1) as nat, tolerance);
    }
}

/// Audits logs, one after the other, and says what they hold, or which line is the
/// first with which something is wrong.
pub fn validate_pricing_logs(logs: &Vec<PricingLog>, tolerance_wei: U256) -> (result: Result<
    PricingLogSummary,
    LogError,
>)
    ensures
        match result {
            Ok(summary) => {
                &&& audited_logs(raw_texts(logs@), logs@.len(), tolerance_wei@) matches Ok(audit)
                    && is_summary(summary, audit, tolerance_wei@)
                &&& views(summary.inputs@) == log_paths(logs@)
            },
            Err(error) => audited_logs(raw_texts(logs@), logs@.len(), tolerance_wei@) matches Err(
                (index, line, fault),
            ) && index < logs@.len() && error.path@ == logs@[index as int].path@ && error.line
                == line && error.fault@ == fault,
        },
{
    let ghost raws = raw_texts(logs@);
    let mut audit = LogAudit::new();
    let mut inputs: Vec<String> = Vec::new();
    let mut i: usize = 0;
    while i < logs.len()
        invariant
            i <= logs@.len(),
            raws == raw_texts(logs@),
            balanced(audit@),
            audited_logs(raws, i as nat, tolerance_wei@) == Ok::<
                AuditView,
                (nat, nat, LogFaultView),
            >(audit@),
            views(inputs@) == log_paths(logs@).take(i as int),
        decreases logs@.len() - i,
    {
        proof {
            assert(raws[i as int] == logs@[i as int].raw@);
        }
        match audit.with_log(logs[i].path.as_str(), logs[i].raw.as_str(), tolerance_wei) {
            Ok(next) => {
                audit = next;
            },
            Err(error) => {
                proof {
                    lemma_first_faulty_log(raws, (i + 1) as nat, raws.len(), tolerance_wei@);
                }
                return Err(error);
            },
        }
        let ghost before = inputs@;
        inputs.push(logs[i].path.clone());
        proof {
            assert(views(inputs@) =~= views(before).push(logs@[i as int].path@));
            assert(log_paths(logs@).take(i + 1) =~= log_paths(logs@).take(i as int).push(
                logs@[i as int].path@,
            ));
        }
        i = i + 1;
    }
    proof {
        assert(log_paths(logs@).take(i as int) =~= log_paths(logs@));
    }
    Ok(audit.summary(inputs, tolerance_wei))
}

/// In every audit each sample that was seen passed, failed or was skipped.
pub proof fn law_samples_are_accounted_for(
    audit: AuditView,
    log: Seq<Seq<char>>,
    n: nat,
    tolerance: nat,
)
    requires
        balanced(audit),
    ensures
        audited_lines(audit, log, n, tolerance) matches Ok(after) ==> balanced(after)
            && audit.seen.subset_of(after.seen),
    decreases n,
{
    if n > 0 {
        law_samples_are_accounted_for(audit, log, (n - 1) as nat, tolerance);
    }
}

/// A line that was audited adds nothing to an audit that has seen as much.
proof fn lemma_line_is_settled(before: AuditView, line: Seq<char>, later: AuditView, tolerance: nat)
    requires
        audited_line(before, line, tolerance) matches Ok(after) && after.seen.subset_of(later.seen),
    ensures
        audited_line(later, line, tolerance) == Ok::<AuditView, LogFaultView>(later),
{
}

/// An audit forgets no sample.
proof fn lemma_seen_grows(audit: AuditView, log: Seq<Seq<char>>, n: nat, tolerance: nat)
    ensures
        audited_lines(audit, log, n, tolerance) matches Ok(after) ==> audit.seen.subset_of(
            after.seen,
        ),
    decreases n,
{
    if n > 0 {
        lemma_seen_grows(audit, log, (n - 1) as nat, tolerance);
    }
}

/// Each line of a log that was audited adds nothing to an audit that has seen as much.
proof fn lemma_lines_are_settled(
    before: AuditView,
    log: Seq<Seq<char>>,
    n: nat,
    i: nat,
    later: AuditView,
    tolerance: nat,
)
    requires
        i < n,
        audited_lines(before, log, n, tolerance) matches Ok(after) && after.seen.subset_of(
            later.seen,
        ),
    ensures
        audited_line(later, log[i as int], tolerance) == Ok::<AuditView, LogFaultView>(later),
    decreases n,
{
    let middle = audited_lines(before, log, (n - 1) as nat, tolerance)->Ok_0;
    if i == n - 1 {
        lemma_line_is_settled(middle, log[n - 1], later, tolerance);
    } else {
        lemma_lines_are_settled(before, log, (n - 1) as nat, i, later, tolerance);
    }
}

/// Lines each of which adds nothing add nothing.
proof fn lemma_settled_lines(audit: AuditView, log: Seq<Seq<char>>, n: nat, tolerance: nat)
    requires
        n <= log.len(),
        forall|i: int|
            0 <= i < n ==> audited_line(audit, #[trigger] log[i], tolerance) == Ok::<
                AuditView,
                LogFaultView,
            >(audit),
    ensures
        audited_lines(audit, log, n, tolerance) == Ok::<AuditView, (nat, LogFaultView)>(audit),
    decreases n,
{
    if n > 0 {
        lemma_settled_lines(audit, log, (n - 1) as nat, tolerance);
        assert(audited_line(audit, log[n - 1], tolerance) == Ok::<AuditView, LogFaultView>(audit));
    }
}

/// A log that was audited adds nothing when it is audited again.
pub proof fn law_repeated_logs_add_nothing(audit: AuditView, raw: Seq<char>, tolerance: nat)
    ensures
        audited_log(audit, raw, tolerance) matches Ok(after) ==> audited_log(after, raw, tolerance)
            == Ok::<AuditView, (nat, LogFaultView)>(after),
{
    let log = lines(raw);
    if let Ok(after) = audited_log(audit, raw, tolerance) {
        assert forall|i: int| 0 <= i < log.len() implies audited_line(
            after,
            #[trigger] log[i],
            tolerance,
        ) == Ok::<AuditView, LogFaultView>(after) by {
            lemma_lines_are_settled(audit, log, log.len(), i as nat, after, tolerance);
        }
        lemma_settled_lines(after, log, log.len(), tolerance);
    }
}

/// One of the logs holds the line.
pub open spec fn holds_line(raws: Seq<Seq<char>>, line: Seq<char>) -> bool {
    exists|k: int| 0 <= k < raws.len() && #[trigger] lines(raws[k]).contains(line)
}

/// Each line of logs that were audited adds nothing to an audit that has seen as much.
proof fn lemma_logs_are_settled(
    raws: Seq<Seq<char>>,
    n: nat,
    k: nat,
    line: Seq<char>,
    later: AuditView,
    tolerance: nat,
)
    requires
        k < n <= raws.len(),
        lines(raws[k as int]).contains(line),
        audited_logs(raws, n, tolerance) matches Ok(after) && after.seen.subset_of(later.seen),
    ensures
        audited_line(later, line, tolerance) == Ok::<AuditView, LogFaultView>(later),
    decreases n,
{
    let middle = audited_logs(raws, (n - 1) as nat, tolerance)->Ok_0;
    let log = lines(raws[n - 1]);
    if k == n - 1 {
        let i = choose|i: int| 0 <= i < log.len() && log[i] == line;
        lemma_lines_are_settled(middle, log, log.len(), i as nat, later, tolerance);
    } else {
        lemma_seen_grows(middle, log, log.len(), tolerance);
        lemma_logs_are_settled(raws, (n - 1) as nat, k, line, later, tolerance);
    }
}

/// An audit of the first logs depends on no log behind them.
proof fn lemma_first_logs(
    raws: Seq<Seq<char>>,
    more: Seq<Seq<char>>,
    n: nat,
    tolerance: nat,
)
    requires
        n <= raws.len(),
    ensures
        audited_logs(raws + more, n, tolerance) == audited_logs(raws, n, tolerance),
    decreases n,
{
    if n > 0 {
        lemma_first_logs(raws, more, (n - 1) as nat, tolerance);
        assert((raws + more)[n - 1] == raws[n - 1]);
    }
}

/// Logs whose lines all stand in other logs as well add nothing to what an audit of
/// the others finds, be it a fault: where logs overlap, each sample counts once.
pub proof fn law_overlapping_logs_add_nothing(
    raws: Seq<Seq<char>>,
    more: Seq<Seq<char>>,
    tolerance: nat,
)
    requires
        forall|k: int, i: int|
            0 <= k < more.len() && 0 <= i < lines(more[k]).len() ==> holds_line(
                raws,
                #[trigger] lines(more[k])[i],
            ),
    ensures
        audited_logs(raws + more, raws.len() + more.len(), tolerance) == audited_logs(
            raws,
            raws.len(),
            tolerance,
        ),
    decreases more.len(),
{
    let n = raws.len();
    let all = raws + more;
    lemma_first_logs(raws, more, n, tolerance);
    if audited_logs(raws, n, tolerance) is Err {
        lemma_first_faulty_log(all, n, n + more.len(), tolerance);
    } else if more.len() > 0 {
        let audit = audited_logs(raws, n, tolerance)->Ok_0;
        let fewer = more.drop_last();
        let log = lines(more.last());
        assert forall|k: int, i: int|
            0 <= k < fewer.len() && 0 <= i < lines(fewer[k]).len() implies holds_line(
            raws,
            #[trigger] lines(fewer[k])[i],
        ) by {
            assert(holds_line(raws, lines(more[k])[i]));
        }
        law_overlapping_logs_add_nothing(raws, fewer, tolerance);
        lemma_first_logs(raws + fewer, seq![more.last()], n + fewer.len(), tolerance);
        assert(all =~= raws + fewer + seq![more.last()]);
        assert forall|i: int| 0 <= i < log.len() implies audited_line(
            audit,
            #[trigger] log[i],
            tolerance,
        ) == Ok::<AuditView, LogFaultView>(audit) by {
            assert(holds_line(raws, lines(more[more.len() - 1])[i]));
            let k = choose|k: int| 0 <= k < raws.len() && #[trigger] lines(raws[k]).contains(log[i]);
            lemma_logs_are_settled(raws, n, k as nat, log[i], audit, tolerance);
        }
        lemma_settled_lines(audit, log, log.len(), tolerance);
        assert(all[n + more.len() - 1] == more.last());
    }
}

/// A list of logs that is given twice is audited to the same as when it is given
/// once: nothing but the names of the inputs tells the summaries apart.
pub proof fn law_logs_given_twice_count_once(raws: Seq<Seq<char>>, tolerance: nat)
    ensures
        audited_logs(raws + raws, raws.len() + raws.len(), tolerance) == audited_logs(
            raws,
            raws.len(),
            tolerance,
        ),
{
    assert forall|k: int, i: int|
        0 <= k < raws.len() && 0 <= i < lines(raws[k]).len() implies holds_line(
        raws,
        #[trigger] lines(raws[k])[i],
    ) by {
        assert(lines(raws[k]).contains(lines(raws[k])[i]));
    }
    law_overlapping_logs_add_nothing(raws, raws, tolerance);
}

/// The names of the members of a sample differ, and so do the texts of its status.
proof fn lemma_names_differ()
    ensures
        "type"@.len() == 4,
        "market"@.len() == 6,
        "block_number"@.len() == 12,
        "replay_block"@.len() == 12,
        "tx_hash"@.len() == 7,
        "log_index"@.len() == 9,
        "token_id"@.len() == 8,
        "event_collateral_to_user"@.len() == 24,
        "event_ot_to_pool"@.len() == 16,
        "event_collateral_to_treasury"@.len() == 28,
        "status"@.len() == 6,
        "computed_collateral_to_user"@.len() == 27,
        "computed_collateral_to_treasury"@.len() == 31,
        "user_diff"@.len() == 9,
        "treasury_diff"@.len() == 13,
        "reason"@.len() == 6,
        "spot_collateral_value"@.len() == 21,
        "slippage_bps"@.len() == 12,
        "market"@ != "status"@,
        "market"@ != "reason"@,
        "block_number"@ != "replay_block"@,
        "block_number"@ != "slippage_bps"@,
        "replay_block"@ != "slippage_bps"@,
        "log_index"@ != "user_diff"@,
        "status"@ != "reason"@,
        "passed"@ != "failed"@,
        "passed"@ != "skipped"@,
        "failed"@ != "skipped"@,
{
    reveal_strlit("type");
    reveal_strlit("market");
    reveal_strlit("block_number");
    reveal_strlit("replay_block");
    reveal_strlit("tx_hash");
    reveal_strlit("log_index");
    reveal_strlit("token_id");
    reveal_strlit("event_collateral_to_user");
    reveal_strlit("event_ot_to_pool");
    reveal_strlit("event_collateral_to_treasury");
    reveal_strlit("status");
    reveal_strlit("computed_collateral_to_user");
    reveal_strlit("computed_collateral_to_treasury");
    reveal_strlit("user_diff");
    reveal_strlit("treasury_diff");
    reveal_strlit("reason");
    reveal_strlit("spot_collateral_value");
    reveal_strlit("slippage_bps");
    reveal_strlit("passed");
    reveal_strlit("failed");
    reveal_strlit("skipped");
    assert("market"@[0] != "status"@[0]);
    assert("market"@[0] != "reason"@[0]);
    assert("block_number"@[0] != "replay_block"@[0]);
    assert("block_number"@[0] != "slippage_bps"@[0]);
    assert("replay_block"@[0] != "slippage_bps"@[0]);
    assert("log_index"@[0] != "user_diff"@[0]);
    assert("status"@[0] != "reason"@[0]);
    assert("passed"@[0] != "failed"@[0]);
}

/// What the record of a result says when it is read as a sample.
proof fn lemma_result_as_sample(result: ValidationResult)
    ensures
        ({
            let sample = result_members(result);
            &&& text_member(sample, "type"@) == Some("sample"@)
            &&& text_member(sample, "tx_hash"@) == Some(prefixed_hex(result.case.tx_hash@))
            &&& sample.contains_key("log_index"@)
            &&& sample["log_index"@] == optional_number(result.case.log_index)
            &&& text_member(sample, "market"@) == Some(checksummed(result.case.market@))
            &&& text_member(sample, "token_id"@) == Some(decimal(result.case.token_id@))
            &&& unsigned_member(sample, "block_number"@) == Some(result.case.block_number)
            &&& !sample.contains_key("spot_collateral_value"@)
            &&& match result.status {
                ValidationStatus::Passed { user_diff, treasury_diff, .. } => {
                    &&& has_status(sample, "passed"@)
                    &&& !has_status(sample, "skipped"@)
                    &&& comparison(sample) == Ok::<Comparison, LogFaultView>(
                        Comparison {
                            event_user: result.case.collateral_to_user@,
                            event_treasury: result.case.collateral_to_treasury@,
                            user_diff: user_diff@,
                            treasury_diff: treasury_diff@,
                        },
                    )
                },
                ValidationStatus::Failed { user_diff, treasury_diff, .. } => {
                    &&& !has_status(sample, "passed"@)
                    &&& !has_status(sample, "skipped"@)
                    &&& comparison(sample) == Ok::<Comparison, LogFaultView>(
                        Comparison {
                            event_user: result.case.collateral_to_user@,
                            event_treasury: result.case.collateral_to_treasury@,
                            user_diff: user_diff@,
                            treasury_diff: treasury_diff@,
                        },
                    )
                },
                ValidationStatus::Skipped { .. } => has_status(sample, "skipped"@),
            }
        }),
{
    lemma_names_differ();
    let case = result.case;
    lemma_u256_view(case.collateral_to_user, case.collateral_to_treasury);
    lemma_u256_view(case.collateral_to_treasury, case.collateral_to_user);
    law_decimal_reads_back(case.collateral_to_user@);
    law_decimal_reads_back(case.collateral_to_treasury@);
    match result.status {
        ValidationStatus::Passed { computed_user, computed_treasury, user_diff, treasury_diff } => {
            lemma_written_comparison(computed_user, computed_treasury, user_diff, treasury_diff);
        },
        ValidationStatus::Failed { computed_user, computed_treasury, user_diff, treasury_diff } => {
            lemma_written_comparison(computed_user, computed_treasury, user_diff, treasury_diff);
        },
        ValidationStatus::Skipped { .. } => {},
    }
}

/// The numbers of a comparison read back.
proof fn lemma_written_comparison(a: U256, b: U256, c: U256, d: U256)
    ensures
        parsed_u256(decimal(a@)) == Some(a@),
        parsed_u256(decimal(b@)) == Some(b@),
        parsed_u256(decimal(c@)) == Some(c@),
        parsed_u256(decimal(d@)) == Some(d@),
{
    lemma_u256_view(a, b);
    lemma_u256_view(b, a);
    lemma_u256_view(c, d);
    lemma_u256_view(d, c);
    law_decimal_reads_back(a@);
    law_decimal_reads_back(b@);
    law_decimal_reads_back(c@);
    law_decimal_reads_back(d@);
}

/// What tells the sample of a sale from others.
pub open spec fn result_key(result: ValidationResult) -> Seq<char> {
    prefixed_hex(result.case.tx_hash@) + ":"@ + value_text(optional_number(result.case.log_index))
}

/// A line that was written for a result is counted by an audit as what it is: a
/// result that was skipped as skipped, one that failed as failed, and one that passed
/// as passed where its differences are within the tolerance of the audit.
pub proof fn law_written_results_are_counted(
    audit: AuditView,
    result: ValidationResult,
    line: Seq<char>,
    tolerance: nat,
)
    requires
        trim(line).len() > 0,
        parsed_members(line) == read(result_members(result)),
        !audit.seen.contains(result_key(result)),
    ensures
        audited_line(audit, line, tolerance) matches Ok(after) && {
            &&& after.seen == audit.seen.insert(result_key(result))
            &&& after.markets == audit.markets.insert(checksummed(result.case.market@))
            &&& after.token_ids == audit.token_ids.insert(decimal(result.case.token_id@))
            &&& match result.status {
                ValidationStatus::Passed { user_diff, treasury_diff, .. } => {
                    let within = user_diff@ <= tolerance && treasury_diff@ <= tolerance;
                    &&& after.passed == audit.passed + if within {
                        1nat
                    } else {
                        0nat
                    }
                    &&& after.failed == audit.failed + if within {
                        0nat
                    } else {
                        1nat
                    }
                    &&& after.skipped == audit.skipped
                    &&& after.max_user_diff == larger(audit.max_user_diff, user_diff@)
                    &&& after.max_treasury_diff == larger(audit.max_treasury_diff, treasury_diff@)
                },
                ValidationStatus::Failed { user_diff, treasury_diff, .. } => {
                    &&& after.passed == audit.passed
                    &&& after.failed == audit.failed + 1
                    &&& after.skipped == audit.skipped
                    &&& after.max_user_diff == larger(audit.max_user_diff, user_diff@)
                    &&& after.max_treasury_diff == larger(audit.max_treasury_diff, treasury_diff@)
                },
                ValidationStatus::Skipped { .. } => {
                    &&& after.passed == audit.passed
                    &&& after.failed == audit.failed
                    &&& after.skipped == audit.skipped + 1
                    &&& after.max_user_diff == audit.max_user_diff
                    &&& after.max_treasury_diff == audit.max_treasury_diff
                    &&& after.zero_diffs == audit.zero_diffs
                    &&& after.tax_min == audit.tax_min
                    &&& after.tax_max == audit.tax_max
                },
            }
            &&& after.auditable == audit.auditable
            &&& after.block_min == first_block(audit.block_min, Some(result.case.block_number))
            &&& after.block_max == last_block(audit.block_max, Some(result.case.block_number))
        },
{
    lemma_result_as_sample(result);
}

/// An audit of the first lines of a log depends on no line behind them.
proof fn lemma_first_lines(
    audit: AuditView,
    log: Seq<Seq<char>>,
    more: Seq<Seq<char>>,
    n: nat,
    tolerance: nat,
)
    requires
        n <= log.len(),
    ensures
        audited_lines(audit, log + more, n, tolerance) == audited_lines(audit, log, n, tolerance),
    decreases n,
{
    if n > 0 {
        lemma_first_lines(audit, log, more, (n - 1) as nat, tolerance);
        assert((log + more)[n - 1] == log[n - 1]);
    }
}

/// A record that is appended to a log adds to an audit what its line adds.
pub proof fn law_appended_records_are_audited(
    audit: AuditView,
    raw: Seq<char>,
    record: Seq<char>,
    tolerance: nat,
)
    requires
        raw.len() == 0 || raw.last() == '\n',
        lines(record.push('\n')) == seq![record],
    ensures
        audited_log(audit, raw + record.push('\n'), tolerance) == match audited_log(
            audit,
            raw,
            tolerance,
        ) {
            Err(error) => Err(error),
            Ok(before) => match audited_line(before, record, tolerance) {
                Ok(after) => Ok(after),
                Err(fault) => Err((lines(raw).len() + 1, fault)),
            },
        },
{
    law_appended_text_adds_its_lines(raw, record.push('\n'));
    let log = lines(raw);
    let all = log + seq![record];
    lemma_first_lines(audit, log, seq![record], log.len(), tolerance);
    assert(all.len() == log.len() + 1);
    assert(all[log.len() as int] == record);
}

/// The line was written for the result: it holds the record of the result, and
/// nothing else.
pub open spec fn is_line_of(line: Seq<char>, result: ValidationResult) -> bool {
    &&& trim(line).len() > 0
    &&& lines(line.push('\n')) == seq![line]
    &&& parsed_members(line) == read(result_members(result))
}

/// A log with these lines, each of which was appended to what was there before.
pub open spec fn written_log(records: Seq<Seq<char>>) -> Seq<char>
    decreases records.len(),
{
    if records.len() == 0 {
        Seq::empty()
    } else {
        written_log(records.drop_last()) + records.last().push('\n')
    }
}

/// The results are those of different sales.
pub open spec fn distinct_results(results: Seq<ValidationResult>) -> bool {
    forall|i: int, j: int|
        0 <= i < j < results.len() ==> #[trigger] result_key(results[i]) != #[trigger] result_key(
            results[j],
        )
}

/// No result that passed is off by more than the tolerance.
pub open spec fn passes_within(results: Seq<ValidationResult>, tolerance: nat) -> bool {
    forall|i: int|
        0 <= i < results.len() ==> (#[trigger] results[i].status matches ValidationStatus::Passed {
            user_diff,
            treasury_diff,
            ..
        } ==> user_diff@ <= tolerance && treasury_diff@ <= tolerance)
}

/// What tells the samples of the results from others.
pub open spec fn result_keys(results: Seq<ValidationResult>) -> Set<Seq<char>>
    decreases results.len(),
{
    if results.len() == 0 {
        Set::empty()
    } else {
        result_keys(results.drop_last()).insert(result_key(results.last()))
    }
}

/// The markets of the results.
pub open spec fn result_markets(results: Seq<ValidationResult>) -> Set<Seq<u8>>
    decreases results.len(),
{
    if results.len() == 0 {
        Set::empty()
    } else {
        result_markets(results.drop_last()).insert(results.last().case.market@)
    }
}

/// The keys of results are those of the single results.
proof fn lemma_result_keys(results: Seq<ValidationResult>, key: Seq<char>)
    ensures
        result_keys(results).contains(key) <==> exists|i: int|
            0 <= i < results.len() && #[trigger] result_key(results[i]) == key,
    decreases results.len(),
{
    if results.len() > 0 {
        let fewer = results.drop_last();
        lemma_result_keys(fewer, key);
        if result_keys(fewer).contains(key) {
            let i = choose|i: int| 0 <= i < fewer.len() && #[trigger] result_key(fewer[i]) == key;
            assert(result_key(results[i]) == key);
        }
        if result_key(results.last()) == key {
            assert(result_key(results[results.len() - 1]) == key);
        }
        if exists|i: int| 0 <= i < results.len() && #[trigger] result_key(results[i]) == key {
            let i = choose|i: int|
                0 <= i < results.len() && #[trigger] result_key(results[i]) == key;
            if i < fewer.len() {
                assert(result_key(fewer[i]) == key);
            }
        }
    }
}

/// The lines of a written log are its records, and it ends with a line break.
proof fn lemma_written_log(records: Seq<Seq<char>>)
    requires
        forall|i: int|
            0 <= i < records.len() ==> lines((#[trigger] records[i]).push('\n')) == seq![
                records[i],
            ],
    ensures
        lines(written_log(records)) == records,
        written_log(records).len() == 0 || written_log(records).last() == '\n',
    decreases records.len(),
{
    if records.len() == 0 {
        law_appended_text_adds_its_lines(Seq::empty(), Seq::empty());
        assert(Seq::<char>::empty() + Seq::<char>::empty() =~= Seq::<char>::empty());
        assert(lines(written_log(records)).len() == 0);
        assert(lines(written_log(records)) =~= records);
    } else {
        let fewer = records.drop_last();
        assert forall|i: int| 0 <= i < fewer.len() implies lines(
            (#[trigger] fewer[i]).push('\n'),
        ) == seq![fewer[i]] by {
            assert(lines(records[i].push('\n')) == seq![records[i]]);
        }
        lemma_written_log(fewer);
        let last = records[records.len() - 1];
        assert(lines(last.push('\n')) == seq![last]);
        law_appended_text_adds_its_lines(written_log(fewer), last.push('\n'));
        assert(fewer + seq![last] =~= records);
        assert(written_log(records).last() == '\n');
    }
}

/// The records were written for the results, which are those of different sales.
pub open spec fn is_written_run(records: Seq<Seq<char>>, results: Seq<ValidationResult>) -> bool {
    &&& records.len() == results.len()
    &&& forall|i: int| 0 <= i < results.len() ==> is_line_of(#[trigger] records[i], results[i])
    &&& distinct_results(results)
}

/// A written run without its last result is one, and the last result is new to it.
proof fn lemma_shorter_run(records: Seq<Seq<char>>, results: Seq<ValidationResult>)
    requires
        is_written_run(records, results),
        results.len() > 0,
    ensures
        is_written_run(records.drop_last(), results.drop_last()),
        is_line_of(records.last(), results.last()),
        !result_keys(results.drop_last()).contains(result_key(results.last())),
        lines(written_log(records.drop_last())) == records.drop_last(),
        written_log(records.drop_last()).len() == 0 || written_log(records.drop_last()).last()
            == '\n',
{
    let fewer = results.drop_last();
    let before = records.drop_last();
    let last = results.len() - 1;
    assert forall|i: int| 0 <= i < fewer.len() implies is_line_of(
        #[trigger] before[i],
        fewer[i],
    ) by {
        assert(is_line_of(records[i], results[i]));
    }
    assert forall|i: int, j: int| 0 <= i < j < fewer.len() implies #[trigger] result_key(fewer[i])
        != #[trigger] result_key(fewer[j]) by {
        assert(result_key(results[i]) != result_key(results[j]));
    }
    assert(is_line_of(records[last], results[last]));
    lemma_result_keys(fewer, result_key(results[last]));
    if result_keys(fewer).contains(result_key(results[last])) {
        let i = choose|i: int|
            0 <= i < fewer.len() && #[trigger] result_key(fewer[i]) == result_key(results[last]);
        assert(result_key(results[i]) != result_key(results[last]));
    }
    lemma_written_log(before);
}

/// No result is off by more than the tolerance where neither the last one is nor
/// those before it are.
proof fn lemma_passes_within(results: Seq<ValidationResult>, tolerance: nat)
    requires
        results.len() > 0,
    ensures
        passes_within(results, tolerance) <==> passes_within(results.drop_last(), tolerance) && (
        results.last().status matches ValidationStatus::Passed { user_diff, treasury_diff, .. }
            ==> user_diff@ <= tolerance && treasury_diff@ <= tolerance),
{
    let fewer = results.drop_last();
    if passes_within(results, tolerance) {
        assert forall|i: int| 0 <= i < fewer.len() implies (
        #[trigger] fewer[i].status matches ValidationStatus::Passed { user_diff, treasury_diff, .. }
            ==> user_diff@ <= tolerance && treasury_diff@ <= tolerance) by {
            assert(fewer[i].status == results[i].status);
        }
        assert(results[results.len() - 1].status == results.last().status);
    }
    if passes_within(fewer, tolerance) {
        assert forall|i: int| 0 <= i < fewer.len() implies (
        #[trigger] results[i].status matches ValidationStatus::Passed {
            user_diff,
            treasury_diff,
            ..
        } ==> user_diff@ <= tolerance && treasury_diff@ <= tolerance) by {
            assert(fewer[i].status == results[i].status);
        }
    }
}

/// The results of a run, written to a log that was empty, are audited to what the
/// run counted: as many samples as results, as many skipped, and the largest
/// differences. As many passed and failed, too, where the audit tolerates as much as
/// the run did; one that passed in the run and is off by more than the audit
/// tolerates counts as failed.
pub proof fn law_written_runs_are_counted(
    records: Seq<Seq<char>>,
    results: Seq<ValidationResult>,
    tolerance: nat,
)
    requires
        is_written_run(records, results),
    ensures
        audited_log(empty_audit(), written_log(records), tolerance) matches Ok(audit) && {
            &&& audit.seen == result_keys(results)
            &&& audit.seen.len() == results.len()
            &&& audit.skipped == tally(results).skipped
            &&& audit.passed + audit.failed == compared(results)
            &&& if passes_within(results, tolerance) {
                audit.passed == tally(results).passed && audit.failed == tally(results).failed
            } else {
                audit.passed < tally(results).passed && audit.failed > tally(results).failed
            }
            &&& audit.max_user_diff == tally(results).max_user_diff
            &&& audit.max_treasury_diff == tally(results).max_treasury_diff
        },
    decreases results.len(),
{
    if results.len() == 0 {
        lemma_written_log(records);
    } else {
        let before = records.drop_last();
        let record = records.last();
        lemma_shorter_run(records, results);
        law_written_runs_are_counted(before, results.drop_last(), tolerance);
        law_appended_records_are_audited(empty_audit(), written_log(before), record, tolerance);
        let audit = audited_log(empty_audit(), written_log(before), tolerance)->Ok_0;
        law_written_results_are_counted(audit, results.last(), record, tolerance);
        law_samples_are_accounted_for(empty_audit(), before, before.len(), tolerance);
        lemma_passes_within(results, tolerance);
    }
}

/// The markets of the results read back from their texts.
pub open spec fn markets_read_back(results: Seq<ValidationResult>) -> bool {
    forall|i: int| 0 <= i < results.len() ==> reads_back(#[trigger] results[i].case.market@)
}

/// Each market of the results reads back from its text.
proof fn lemma_markets_read_back(results: Seq<ValidationResult>)
    requires
        markets_read_back(results),
    ensures
        result_markets(results).finite(),
        forall|market: Seq<u8>| #[trigger]
            result_markets(results).contains(market) ==> reads_back(market),
    decreases results.len(),
{
    if results.len() > 0 {
        let fewer = results.drop_last();
        assert forall|i: int| 0 <= i < fewer.len() implies reads_back(
            #[trigger] fewer[i].case.market@,
        ) by {
            assert(reads_back(results[i].case.market@));
        }
        lemma_markets_read_back(fewer);
        assert(reads_back(results[results.len() - 1].case.market@));
    }
}

/// The results of a run, written to a log that was empty, are audited to the texts of
/// their markets, and to as many markets as the results have: the text of a market
/// reads back as the market, so that no two markets share one.
pub proof fn law_written_markets_are_counted(
    records: Seq<Seq<char>>,
    results: Seq<ValidationResult>,
    tolerance: nat,
)
    requires
        is_written_run(records, results),
        markets_read_back(results),
    ensures
        audited_log(empty_audit(), written_log(records), tolerance) matches Ok(audit) && {
            &&& audit.markets.finite()
            &&& audit.markets.len() == result_markets(results).len()
            &&& audit.markets == result_markets(results).map(|market: Seq<u8>| checksummed(market))
        },
    decreases results.len(),
{
    let text_of = |market: Seq<u8>| checksummed(market);
    if results.len() == 0 {
        lemma_written_log(records);
        assert(empty_audit().markets =~= result_markets(results).map(text_of));
    } else {
        let fewer = results.drop_last();
        let before = records.drop_last();
        let record = records.last();
        let market = results.last().case.market@;
        lemma_shorter_run(records, results);
        lemma_markets_read_back(results);
        assert(markets_read_back(fewer)) by {
            assert forall|i: int| 0 <= i < fewer.len() implies reads_back(
                #[trigger] fewer[i].case.market@,
            ) by {
                assert(reads_back(results[i].case.market@));
            }
        }
        lemma_markets_read_back(fewer);
        law_written_runs_are_counted(before, fewer, tolerance);
        law_written_markets_are_counted(before, fewer, tolerance);
        law_appended_records_are_audited(empty_audit(), written_log(before), record, tolerance);
        let audit = audited_log(empty_audit(), written_log(before), tolerance)->Ok_0;
        law_written_results_are_counted(audit, results.last(), record, tolerance);
        let known = result_markets(fewer);
        assert(result_markets(results).contains(market));
        if audit.markets.contains(text_of(market)) {
            let other = choose|other: Seq<u8>|
                known.contains(other) && text_of(market) == text_of(other);
            assert(reads_back(other));
            assert(known.contains(market));
        }
        if known.contains(market) {
            assert(known.map(text_of).contains(text_of(market)));
        }
        lemma_mapped_insert(known, market);
    }
}

/// The texts of markets with one more are those of the markets and that of the other.
proof fn lemma_mapped_insert(markets: Set<Seq<u8>>, market: Seq<u8>)
    ensures
        markets.insert(market).map(|m: Seq<u8>| checksummed(m)) == markets.map(
            |m: Seq<u8>| checksummed(m),
        ).insert(checksummed(market)),
{
    let text_of = |m: Seq<u8>| checksummed(m);
    let all = markets.insert(market);
    assert forall|text: Seq<char>| #[trigger] all.map(text_of).contains(text) implies markets.map(
        text_of,
    ).insert(text_of(market)).contains(text) by {
        let m = choose|m: Seq<u8>| all.contains(m) && text == text_of(m);
        if m != market {
            assert(markets.contains(m));
        }
    }
    assert forall|text: Seq<char>| #[trigger]
        markets.map(text_of).insert(text_of(market)).contains(text) implies all.map(
        text_of,
    ).contains(text) by {
        if text == text_of(market) {
            assert(all.contains(market));
        } else {
            let m = choose|m: Seq<u8>| markets.contains(m) && text == text_of(m);
            assert(all.contains(m));
        }
    }
    assert(all.map(text_of) =~= markets.map(text_of).insert(text_of(market)));
}

/// The sample that a line holds, if it holds one.
pub open spec fn sample_in(line: Seq<char>) -> Option<Members> {
    if trim(line).len() == 0 {
        None
    } else {
        match parsed_members(line) {
            Ok(Some(record)) => if text_member(record, "type"@) == Some("sample"@) {
                Some(record)
            } else {
                None
            },
            _ => None,
        }
    }
}

/// The transaction of a sample and the place of its log there, as one text.
pub open spec fn place_of(sample: Members) -> Seq<char> {
    text_member(sample, "tx_hash"@)->0 + ":"@ + (if sample.contains_key("log_index"@) {
        value_text(sample["log_index"@])
    } else {
        "null"@
    })
}

/// The line holds a sample with a transaction that the audit has not seen.
pub open spec fn is_new(audit: AuditView, line: Seq<char>) -> bool {
    sample_in(line) matches Some(sample) && text_member(sample, "tx_hash"@) is Some
        && !audit.seen.contains(place_of(sample))
}

/// The line holds a sample that the audit has not seen and that was compared.
pub open spec fn is_new_comparison(audit: AuditView, line: Seq<char>) -> bool {
    is_new(audit, line) && text_member(sample_in(line)->0, "status"@) != Some("skipped"@)
}

/// The number that a field of a sample states.
pub open spec fn stated(sample: Members, field: Seq<char>) -> nat {
    parsed_u256(text_member(sample, field)->0)->0
}

/// What a sale yielded in all, modulo two to the power of 256.
pub open spec fn gross_of(sample: Members) -> nat {
    (stated(sample, "event_collateral_to_user"@) + stated(
        sample,
        "event_collateral_to_treasury"@,
    )) % u256_limit()
}

/// The share of the treasury in what a sale yielded is this many millionths of a basis
/// point, rounded down.
pub open spec fn pays_share(sample: Members, share: nat) -> bool {
    let parts = (stated(sample, "event_collateral_to_treasury"@) * 10_000_000_000) % u256_limit();
    gross_of(sample) > 0 && share * gross_of(sample) <= parts < (share + 1) * gross_of(sample)
}

/// The quote of a sample was off by `gap`: the sample says so, or, where it says
/// nothing, its two numbers lie so far apart.
pub open spec fn is_off_by(
    sample: Members,
    field: Seq<char>,
    computed: Seq<char>,
    event: Seq<char>,
    gap: nat,
) -> bool {
    match text_member(sample, field) {
        Some(_) => gap == stated(sample, field),
        None => lies_apart(stated(sample, computed), stated(sample, event), gap),
    }
}

/// The quote of a sample was off by `gap` in the part of the seller.
pub open spec fn user_is_off_by(sample: Members, gap: nat) -> bool {
    is_off_by(
        sample,
        "user_diff"@,
        "computed_collateral_to_user"@,
        "event_collateral_to_user"@,
        gap,
    )
}

/// The quote of a sample was off by `gap` in the part of the treasury.
pub open spec fn treasury_is_off_by(sample: Members, gap: nat) -> bool {
    is_off_by(
        sample,
        "treasury_diff"@,
        "computed_collateral_to_treasury"@,
        "event_collateral_to_treasury"@,
        gap,
    )
}

/// A sale pays exactly one share.
proof fn lemma_one_share(sample: Members, share: nat)
    requires
        gross_of(sample) > 0,
    ensures
        pays_share(sample, share) <==> share == scaled_share(
            stated(sample, "event_collateral_to_treasury"@),
            gross_of(sample),
        ),
{
    let gross = gross_of(sample) as int;
    let parts = ((stated(sample, "event_collateral_to_treasury"@) * 10_000_000_000)
        % u256_limit()) as int;
    let quotient = parts / gross;
    vstd::arithmetic::div_mod::lemma_fundamental_div_mod(parts, gross);
    assert(quotient * gross <= parts < (quotient + 1) * gross) by (nonlinear_arith)
        requires
            parts == gross * quotient + parts % gross,
            0 <= parts % gross < gross,
    ;
    if pays_share(sample, share) {
        let other = share as int;
        assert(other == quotient) by (nonlinear_arith)
            requires
                other * gross <= parts < (other + 1) * gross,
                quotient * gross <= parts < (quotient + 1) * gross,
                gross > 0,
        ;
    }
}

/// A share is the largest number of millionths of a basis point of the whole that the
/// part holds, as long as 256 bits hold ten to the power of ten times the part; there
/// is none of nothing.
pub proof fn law_shares_are_millionths(part: nat, whole: nat)
    ensures
        scaled_share(part, 0) == 0,
        whole > 0 && part * 10_000_000_000 < u256_limit() ==> scaled_share(part, whole) * whole
            <= part * 10_000_000_000 < (scaled_share(part, whole) + 1) * whole,
        0 < whole && part <= whole && part * 10_000_000_000 < u256_limit() ==> scaled_share(
            part,
            whole,
        ) <= 10_000_000_000,
{
    if whole > 0 && part * 10_000_000_000 < u256_limit() {
        let parts = (part * 10_000_000_000) as int;
        let w = whole as int;
        let quotient = parts / w;
        vstd::arithmetic::div_mod::lemma_small_mod(part * 10_000_000_000, u256_limit());
        vstd::arithmetic::div_mod::lemma_fundamental_div_mod(parts, w);
        assert(quotient * w <= parts < (quotient + 1) * w) by (nonlinear_arith)
            requires
                parts == w * quotient + parts % w,
                0 <= parts % w < w,
        ;
        if part <= whole {
            assert(quotient <= 10_000_000_000) by (nonlinear_arith)
                requires
                    quotient * w <= parts,
                    parts <= w * 10_000_000_000,
                    w > 0,
            ;
        }
    }
}

/// What a line adds to an audit: nothing where it holds no sample or one that was seen;
/// else the sample, its market, its token and its block, and that it was skipped, or that
/// it passed or failed. It passes where it was logged to have passed and neither part is
/// off by more than the tolerance.
pub proof fn law_lines_are_judged(audit: AuditView, line: Seq<char>, tolerance: nat)
    requires
        audited_line(audit, line, tolerance) is Ok,
    ensures
        audited_line(audit, line, tolerance) matches Ok(after) && {
            &&& !is_new(audit, line) ==> after == audit
            &&& is_new(audit, line) ==> {
                let sample = sample_in(line)->0;
                &&& after.seen == audit.seen.insert(place_of(sample))
                &&& after.markets == match text_member(sample, "market"@) {
                    Some(market) => audit.markets.insert(market),
                    None => audit.markets,
                }
                &&& after.token_ids == match text_member(sample, "token_id"@) {
                    Some(token_id) => audit.token_ids.insert(token_id),
                    None => audit.token_ids,
                }
            }
            &&& is_new(audit, line) && !is_new_comparison(audit, line) ==> {
                &&& after.skipped == audit.skipped + 1
                &&& after.passed == audit.passed
                &&& after.failed == audit.failed
                &&& after.zero_diffs == audit.zero_diffs
                &&& after.auditable == audit.auditable
            }
            &&& is_new_comparison(audit, line) ==> after.skipped == audit.skipped
            &&& forall|user: nat, treasury: nat|
                is_new_comparison(audit, line) && #[trigger] user_is_off_by(
                    sample_in(line)->0,
                    user,
                ) && #[trigger] treasury_is_off_by(sample_in(line)->0, treasury) ==> {
                    let sample = sample_in(line)->0;
                    &&& if text_member(sample, "status"@) == Some("passed"@) && user <= tolerance
                        && treasury <= tolerance {
                        after.passed == audit.passed + 1 && after.failed == audit.failed
                    } else {
                        after.passed == audit.passed && after.failed == audit.failed + 1
                    }
                    &&& after.zero_diffs == audit.zero_diffs + if user == 0 && treasury == 0 {
                        1nat
                    } else {
                        0nat
                    }
                }
            &&& is_new_comparison(audit, line) ==> after.auditable == audit.auditable + if (
            sample_in(line)->0).contains_key("spot_collateral_value"@) && (sample_in(
                line,
            )->0).contains_key("slippage_bps"@) {
                1nat
            } else {
                0nat
            }
        },
{
}

/// The line `i` of a log holds a sale that pays the share, and no line before it and no
/// log before holds the same sample.
pub open spec fn share_at(
    start: AuditView,
    log: Seq<Seq<char>>,
    i: int,
    tolerance: nat,
    share: nat,
) -> bool {
    audited_lines(start, log, i as nat, tolerance) matches Ok(before) && is_new_comparison(
        before,
        log[i],
    ) && pays_share(sample_in(log[i])->0, share)
}

/// The smallest and the largest share of the treasury that an audit reports lie around
/// those of all sales that were compared, and each is that of one of them or one that
/// was reported before.
pub proof fn law_tax_range_is_tight(start: AuditView, log: Seq<Seq<char>>, n: nat, tolerance: nat)
    requires
        n <= log.len(),
        audited_lines(start, log, n, tolerance) is Ok,
        start.tax_min is Some == start.tax_max is Some,
    ensures
        audited_lines(start, log, n, tolerance) matches Ok(after) && {
            &&& after.tax_min is Some == after.tax_max is Some
            &&& forall|i: int, share: nat|
                0 <= i < n && #[trigger] share_at(start, log, i, tolerance, share) ==> (
                after.tax_min matches Some(least) && least <= share) && (
                after.tax_max matches Some(greatest) && share <= greatest)
            &&& start.tax_max matches Some(known) ==> after.tax_max matches Some(greatest) && known
                <= greatest
            &&& start.tax_min matches Some(known) ==> after.tax_min matches Some(least) && least
                <= known
            &&& after.tax_max matches Some(greatest) ==> start.tax_max == Some(greatest)
                || exists|i: int|
                0 <= i < n && #[trigger] share_at(start, log, i, tolerance, greatest)
            &&& after.tax_min matches Some(least) ==> start.tax_min == Some(least) || exists|i: int|
                0 <= i < n && #[trigger] share_at(start, log, i, tolerance, least)
        },
    decreases n,
{
    if n > 0 {
        let m = (n - 1) as nat;
        let before = audited_lines(start, log, m, tolerance)->Ok_0;
        let after = audited_lines(start, log, n, tolerance)->Ok_0;
        let line = log[m as int];
        law_tax_range_is_tight(start, log, m, tolerance);
        law_lines_are_judged(before, line, tolerance);
        let sample = sample_in(line)->0;
        let share = scaled_share(
            stated(sample, "event_collateral_to_treasury"@),
            gross_of(sample),
        );
        if is_new_comparison(before, line) && gross_of(sample) > 0 {
            lemma_one_share(sample, share);
            assert(share_at(start, log, m as int, tolerance, share));
        }
        assert forall|i: int, other: nat|
            0 <= i < n && #[trigger] share_at(
                start,
                log,
                i,
                tolerance,
                other,
            ) implies (after.tax_min matches Some(least) && least <= other) && (
        after.tax_max matches Some(greatest) && other <= greatest) by {
            if i == m {
                lemma_one_share(sample, other);
            }
        }
        if let Some(greatest) = after.tax_max {
            if before.tax_max == Some(greatest) && start.tax_max != Some(greatest) {
                let i = choose|i: int|
                    0 <= i < m && #[trigger] share_at(start, log, i, tolerance, greatest);
                assert(share_at(start, log, i, tolerance, greatest));
            }
        }
        if let Some(least) = after.tax_min {
            if before.tax_min == Some(least) && start.tax_min != Some(least) {
                let i = choose|i: int|
                    0 <= i < m && #[trigger] share_at(start, log, i, tolerance, least);
                assert(share_at(start, log, i, tolerance, least));
            }
        }
    }
}

/// Two sales with different shares of the treasury make the largest share that is
/// reported larger than the smallest.
pub proof fn law_different_shares_spread_the_range(
    start: AuditView,
    log: Seq<Seq<char>>,
    n: nat,
    tolerance: nat,
    i: int,
    j: int,
    low: nat,
    high: nat,
)
    requires
        n <= log.len(),
        audited_lines(start, log, n, tolerance) is Ok,
        start.tax_min is Some == start.tax_max is Some,
        0 <= i < n,
        0 <= j < n,
        share_at(start, log, i, tolerance, low),
        share_at(start, log, j, tolerance, high),
        low < high,
    ensures
        audited_lines(start, log, n, tolerance) matches Ok(after) && after.tax_min matches Some(
            least,
        ) && after.tax_max matches Some(greatest) && least < greatest,
{
    law_tax_range_is_tight(start, log, n, tolerance);
}

/// The line `i` of a log holds a sample of the block, and no line before it and no log
/// before holds the same sample.
pub open spec fn block_at(
    start: AuditView,
    log: Seq<Seq<char>>,
    i: int,
    tolerance: nat,
    block: u64,
) -> bool {
    audited_lines(start, log, i as nat, tolerance) matches Ok(before) && is_new(before, log[i])
        && unsigned_member(sample_in(log[i])->0, "block_number"@) == Some(block)
}

/// The first and the last block that an audit reports lie around those of all samples,
/// and each is that of one of them or one that was reported before.
pub proof fn law_block_range_is_tight(start: AuditView, log: Seq<Seq<char>>, n: nat, tolerance: nat)
    requires
        n <= log.len(),
        audited_lines(start, log, n, tolerance) is Ok,
        start.block_min is Some == start.block_max is Some,
    ensures
        audited_lines(start, log, n, tolerance) matches Ok(after) && {
            &&& after.block_min is Some == after.block_max is Some
            &&& forall|i: int, block: u64|
                0 <= i < n && #[trigger] block_at(start, log, i, tolerance, block) ==> (
                after.block_min matches Some(first) && first <= block) && (
                after.block_max matches Some(last) && block <= last)
            &&& start.block_max matches Some(known) ==> after.block_max matches Some(last) && known
                <= last
            &&& start.block_min matches Some(known) ==> after.block_min matches Some(first) && first
                <= known
            &&& after.block_max matches Some(last) ==> start.block_max == Some(last) || exists|i: int|
                0 <= i < n && #[trigger] block_at(start, log, i, tolerance, last)
            &&& after.block_min matches Some(first) ==> start.block_min == Some(first) || exists|
                i: int,
            |
                0 <= i < n && #[trigger] block_at(start, log, i, tolerance, first)
        },
    decreases n,
{
    if n > 0 {
        let m = (n - 1) as nat;
        let before = audited_lines(start, log, m, tolerance)->Ok_0;
        let after = audited_lines(start, log, n, tolerance)->Ok_0;
        let line = log[m as int];
        law_block_range_is_tight(start, log, m, tolerance);
        law_lines_are_judged(before, line, tolerance);
        let sample = sample_in(line)->0;
        if is_new(before, line) {
            if let Some(block) = unsigned_member(sample, "block_number"@) {
                assert(block_at(start, log, m as int, tolerance, block));
            }
        }
        if let Some(last) = after.block_max {
            if before.block_max == Some(last) && start.block_max != Some(last) {
                let i = choose|i: int|
                    0 <= i < m && #[trigger] block_at(start, log, i, tolerance, last);
                assert(block_at(start, log, i, tolerance, last));
            }
        }
        if let Some(first) = after.block_min {
            if before.block_min == Some(first) && start.block_min != Some(first) {
                let i = choose|i: int|
                    0 <= i < m && #[trigger] block_at(start, log, i, tolerance, first);
                assert(block_at(start, log, i, tolerance, first));
            }
        }
    }
}

/// The line `i` of a log holds a comparison that is off by `gap` in the part of the
/// seller, and no line before it and no log before holds the same sample.
pub open spec fn user_gap_at(
    start: AuditView,
    log: Seq<Seq<char>>,
    i: int,
    tolerance: nat,
    gap: nat,
) -> bool {
    audited_lines(start, log, i as nat, tolerance) matches Ok(before) && is_new_comparison(
        before,
        log[i],
    ) && user_is_off_by(sample_in(log[i])->0, gap)
}

/// The line `i` of a log holds a comparison that is off by `gap` in the part of the
/// treasury, and no line before it and no log before holds the same sample.
pub open spec fn treasury_gap_at(
    start: AuditView,
    log: Seq<Seq<char>>,
    i: int,
    tolerance: nat,
    gap: nat,
) -> bool {
    audited_lines(start, log, i as nat, tolerance) matches Ok(before) && is_new_comparison(
        before,
        log[i],
    ) && treasury_is_off_by(sample_in(log[i])->0, gap)
}

/// The largest differences that an audit reports are no smaller than those of any
/// comparison, and each is that of one of them or one that was reported before.
pub proof fn law_largest_differences_are_found(
    start: AuditView,
    log: Seq<Seq<char>>,
    n: nat,
    tolerance: nat,
)
    requires
        n <= log.len(),
        audited_lines(start, log, n, tolerance) is Ok,
    ensures
        audited_lines(start, log, n, tolerance) matches Ok(after) && {
            &&& start.max_user_diff <= after.max_user_diff
            &&& start.max_treasury_diff <= after.max_treasury_diff
            &&& forall|i: int, gap: nat|
                0 <= i < n && #[trigger] user_gap_at(start, log, i, tolerance, gap) ==> gap
                    <= after.max_user_diff
            &&& forall|i: int, gap: nat|
                0 <= i < n && #[trigger] treasury_gap_at(start, log, i, tolerance, gap) ==> gap
                    <= after.max_treasury_diff
            &&& after.max_user_diff == start.max_user_diff || exists|i: int|
                0 <= i < n && #[trigger] user_gap_at(start, log, i, tolerance, after.max_user_diff)
            &&& after.max_treasury_diff == start.max_treasury_diff || exists|i: int|
                0 <= i < n && #[trigger] treasury_gap_at(
                    start,
                    log,
                    i,
                    tolerance,
                    after.max_treasury_diff,
                )
        },
    decreases n,
{
    if n > 0 {
        let m = (n - 1) as nat;
        let before = audited_lines(start, log, m, tolerance)->Ok_0;
        let after = audited_lines(start, log, n, tolerance)->Ok_0;
        let line = log[m as int];
        law_largest_differences_are_found(start, log, m, tolerance);
        law_lines_are_judged(before, line, tolerance);
        let sample = sample_in(line)->0;
        if is_new_comparison(before, line) {
            let found = comparison(sample)->Ok_0;
            assert(user_gap_at(start, log, m as int, tolerance, found.user_diff));
            assert(treasury_gap_at(start, log, m as int, tolerance, found.treasury_diff));
        }
        if after.max_user_diff == before.max_user_diff && after.max_user_diff
            != start.max_user_diff {
            let i = choose|i: int|
                0 <= i < m && #[trigger] user_gap_at(
                    start,
                    log,
                    i,
                    tolerance,
                    before.max_user_diff,
                );
            assert(user_gap_at(start, log, i, tolerance, after.max_user_diff));
        }
        if after.max_treasury_diff == before.max_treasury_diff && after.max_treasury_diff
            != start.max_treasury_diff {
            let i = choose|i: int|
                0 <= i < m && #[trigger] treasury_gap_at(
                    start,
                    log,
                    i,
                    tolerance,
                    before.max_treasury_diff,
                );
            assert(treasury_gap_at(start, log, i, tolerance, after.max_treasury_diff));
        }
    }
}

/// The lines of the first `n` logs, those of the first log first.
pub open spec fn all_lines(raws: Seq<Seq<char>>, n: nat) -> Seq<Seq<char>>
    decreases n,
{
    if n == 0 {
        Seq::empty()
    } else {
        all_lines(raws, (n - 1) as nat) + lines(raws[n - 1])
    }
}

/// An audit of lines goes on where an audit of the lines before them ended.
proof fn lemma_lines_follow(
    start: AuditView,
    front: Seq<Seq<char>>,
    back: Seq<Seq<char>>,
    n: nat,
    tolerance: nat,
)
    requires
        n <= back.len(),
        audited_lines(start, front, front.len(), tolerance) is Ok,
    ensures
        ({
            let middle = audited_lines(start, front, front.len(), tolerance)->Ok_0;
            let whole = audited_lines(start, front + back, front.len() + n, tolerance);
            match audited_lines(middle, back, n, tolerance) {
                Ok(after) => whole == Ok::<AuditView, (nat, LogFaultView)>(after),
                Err((line, fault)) => whole == Err::<AuditView, _>((front.len() + line, fault)),
            }
        }),
    decreases n,
{
    if n == 0 {
        lemma_first_lines(start, front, back, front.len(), tolerance);
    } else {
        lemma_lines_follow(start, front, back, (n - 1) as nat, tolerance);
        assert((front + back)[front.len() + n - 1] == back[n - 1]);
    }
}

/// Logs are audited as one log that holds the lines of all of them.
pub proof fn law_logs_are_audited_as_one(raws: Seq<Seq<char>>, n: nat, tolerance: nat)
    requires
        n <= raws.len(),
        audited_logs(raws, n, tolerance) is Ok,
    ensures
        audited_logs(raws, n, tolerance) matches Ok(audit) && audited_lines(
            empty_audit(),
            all_lines(raws, n),
            all_lines(raws, n).len(),
            tolerance,
        ) == Ok::<AuditView, (nat, LogFaultView)>(audit),
    decreases n,
{
    if n > 0 {
        let m = (n - 1) as nat;
        law_logs_are_audited_as_one(raws, m, tolerance);
        lemma_lines_follow(
            empty_audit(),
            all_lines(raws, m),
            lines(raws[n - 1]),
            lines(raws[n - 1]).len(),
            tolerance,
        );
    }
}

/// The line that an audit names is the first with which something is wrong: the lines
/// before it can be audited, and it cannot. Lines are numbered from one.
pub proof fn law_the_first_fault_is_named(
    start: AuditView,
    log: Seq<Seq<char>>,
    n: nat,
    tolerance: nat,
)
    ensures
        audited_lines(start, log, n, tolerance) matches Err((line, fault)) ==> {
            &&& 1 <= line <= n
            &&& audited_lines(start, log, (line - 1) as nat, tolerance) matches Ok(before)
                && audited_line(before, log[line - 1], tolerance) == Err::<AuditView, _>(fault)
        },
    decreases n,
{
    if n > 0 {
        law_the_first_fault_is_named(start, log, (n - 1) as nat, tolerance);
    }
}

/// The log that an audit names is the first in which something is wrong: the logs before
/// it can be audited, and of it the named line is the first that cannot.
pub proof fn law_the_first_faulty_log_is_named(raws: Seq<Seq<char>>, n: nat, tolerance: nat)
    ensures
        audited_logs(raws, n, tolerance) matches Err((index, line, fault)) ==> {
            &&& index < n
            &&& audited_logs(raws, index, tolerance) matches Ok(before) && audited_log(
                before,
                raws[index as int],
                tolerance,
            ) == Err::<AuditView, _>((line, fault))
        },
    decreases n,
{
    if n > 0 {
        law_the_first_faulty_log_is_named(raws, (n - 1) as nat, tolerance);
    }
}

/// A field of a sample states a number.
pub open spec fn is_number(sample: Members, field: Seq<char>) -> bool {
    states(sample, field, stated(sample, field))
}

/// A line can be audited exactly where it is blank or can be read, a sample in it names
/// its transaction, and one that was not seen and not skipped states both parts of the
/// sale and of the quote as numbers, and the differences too, where it states them.
pub proof fn law_only_whole_samples_are_audited(
    audit: AuditView,
    line: Seq<char>,
    tolerance: nat,
)
    ensures
        audited_line(audit, line, tolerance) is Ok <==> {
            &&& trim(line).len() > 0 ==> parsed_members(line) is Ok
            &&& sample_in(line) matches Some(sample) ==> text_member(sample, "tx_hash"@) is Some
            &&& is_new_comparison(audit, line) ==> {
                let sample = sample_in(line)->0;
                &&& is_number(sample, "event_collateral_to_user"@)
                &&& is_number(sample, "event_collateral_to_treasury"@)
                &&& is_number(sample, "computed_collateral_to_user"@)
                &&& is_number(sample, "computed_collateral_to_treasury"@)
                &&& text_member(sample, "user_diff"@) is None || is_number(sample, "user_diff"@)
                &&& text_member(sample, "treasury_diff"@) is None || is_number(
                    sample,
                    "treasury_diff"@,
                )
            }
        },
{
}

/// A summary says what the audit found, each number under its own name, and its texts
/// read back as the numbers; shares are written in basis points.
pub proof fn law_summaries_read_back(
    summary: PricingLogSummary,
    audit: AuditView,
    tolerance: nat,
    field: Seq<char>,
)
    requires
        is_summary(summary, audit, tolerance),
        tolerance < u256_limit(),
        audit.max_user_diff < u256_limit(),
        audit.max_treasury_diff < u256_limit(),
        audit.tax_min matches Some(share) ==> share < u256_limit(),
        audit.tax_max matches Some(share) ==> share < u256_limit(),
    ensures
        summary.unique_samples == audit.seen.len(),
        summary.passed == audit.passed,
        summary.failed == audit.failed,
        summary.skipped == audit.skipped,
        summary.unique_markets == audit.markets.len(),
        summary.unique_token_ids == audit.token_ids.len(),
        summary.block_min == audit.block_min,
        summary.block_max == audit.block_max,
        summary.zero_diff_samples == audit.zero_diffs,
        summary.slippage_auditable_samples == audit.auditable,
        parsed_u256(summary.tolerance_wei@) == Some(tolerance),
        parsed_u256(summary.max_abs_user_diff@) == Some(audit.max_user_diff),
        parsed_u256(summary.max_abs_treasury_diff@) == Some(audit.max_treasury_diff),
        match audit.tax_min {
            Some(share) => summary.protocol_tax_bps_min matches Some(text) && token_units(
                field,
                text@,
                6,
            ) == Ok::<nat, ConfigErrorView>(share),
            None => summary.protocol_tax_bps_min is None,
        },
        match audit.tax_max {
            Some(share) => summary.protocol_tax_bps_max matches Some(text) && token_units(
                field,
                text@,
                6,
            ) == Ok::<nat, ConfigErrorView>(share),
            None => summary.protocol_tax_bps_max is None,
        },
{
    law_decimal_reads_back(tolerance);
    law_decimal_reads_back(audit.max_user_diff);
    law_decimal_reads_back(audit.max_treasury_diff);
    if let Some(share) = audit.tax_min {
        law_shares_read_back(field, share);
    }
    if let Some(share) = audit.tax_max {
        law_shares_read_back(field, share);
    }
}

/// Different bytes, as many of the one as of the other, have different texts.
proof fn lemma_hex_differs(a: Seq<u8>, b: Seq<u8>)
    requires
        a.len() == b.len(),
        prefixed_hex(a) == prefixed_hex(b),
    ensures
        a == b,
{
    assert forall|i: int| 0 <= i < a.len() implies a[i] == b[i] by {
        let x = a[i] as int;
        let y = b[i] as int;
        assert((2 * i) / 2 == i && (2 * i + 1) / 2 == i && (2 * i) % 2 == 0 && (2 * i + 1) % 2
            == 1);
        assert(prefixed_hex(a)[2 * i + 2] == hex_char(x / 16));
        assert(prefixed_hex(b)[2 * i + 2] == hex_char(y / 16));
        assert(prefixed_hex(a)[2 * i + 3] == hex_char(x % 16));
        assert(prefixed_hex(b)[2 * i + 3] == hex_char(y % 16));
    }
    assert(a =~= b);
}

/// Two results are taken for one sample exactly where they are of the same log of the
/// same transaction.
pub proof fn law_samples_are_told_apart(a: ValidationResult, b: ValidationResult)
    ensures
        result_key(a) == result_key(b) <==> a.case.tx_hash@ == b.case.tx_hash@ && a.case.log_index
            == b.case.log_index,
        place_of(result_members(a)) == result_key(a),
{
    lemma_result_as_sample(a);
    lemma_names_differ();
    if result_key(a) == result_key(b) {
        let x = prefixed_hex(a.case.tx_hash@);
        let y = prefixed_hex(b.case.tx_hash@);
        let m = value_text(optional_number(a.case.log_index));
        let n = value_text(optional_number(b.case.log_index));
        reveal_strlit(":");
        reveal_strlit("null");
        assert(x.len() == 66 && y.len() == 66);
        assert(result_key(a).take(66) =~= x);
        assert(result_key(b).take(66) =~= y);
        lemma_hex_differs(a.case.tx_hash@, b.case.tx_hash@);
        assert(result_key(a).skip(67) =~= m);
        assert(result_key(b).skip(67) =~= n);
        if let Some(i) = a.case.log_index {
            law_decimal_reads_back(i as nat);
            assert(is_digit(m[0]));
        }
        if let Some(j) = b.case.log_index {
            law_decimal_reads_back(j as nat);
            assert(is_digit(n[0]));
        }
        assert("null"@[0] == 'n');
    }
}

/// Digits with zeros before them stand for the same number.
proof fn lemma_six_digits(n: nat)
    requires
        n < 1_000_000,
    ensures
        six_digits(n).len() == 6,
        all_digits(six_digits(n)),
        digits_value(six_digits(n)) == n,
{
    let digits = decimal(n);
    law_decimal_reads_back(n);
    assert(vstd::arithmetic::power::pow(10, 6) == 1_000_000) by {
        reveal_with_fuel(vstd::arithmetic::power::pow, 7);
    }
    lemma_decimal_length(n, 6);
    let zeros = (6 - digits.len()) as nat;
    lemma_zeros_value(zeros);
    assert forall|i: int| 0 <= i < digits.len() implies is_digit(#[trigger] digits[i]) by {
        assert(is_digit(decimal(n)[i]));
    }
    lemma_digits_behind(repeated('0', zeros), digits);
    assert(0 * vstd::arithmetic::power::pow(10, digits.len()) == 0) by (nonlinear_arith);
    assert(six_digits(n) =~= repeated('0', zeros) + digits);
    assert forall|i: int| 0 <= i < 6 implies is_digit(#[trigger] six_digits(n)[i]) by {
        if i >= zeros {
            assert(six_digits(n)[i] == digits[i - zeros]);
        }
    }
}

/// A number below a power of ten has at most as many digits.
proof fn lemma_decimal_length(n: nat, places: nat)
    requires
        places > 0,
        n < vstd::arithmetic::power::pow(10, places),
    ensures
        decimal(n).len() <= places,
    decreases places,
{
    let less = (places - 1) as nat;
    vstd::arithmetic::power::lemma_pow1(10);
    vstd::arithmetic::power::lemma_pow_adds(10, 1, less);
    if places > 1 {
        assert(n / 10 < vstd::arithmetic::power::pow(10, less));
        lemma_decimal_length(n / 10, less);
    }
}

/// A share that was written in basis points reads back, as an amount with six
/// digits behind the point, as the share.
pub proof fn law_shares_read_back(field: Seq<char>, share: nat)
    requires
        share < u256_limit(),
    ensures
        token_units(field, scaled_share_text(share), 6) == Ok::<nat, ConfigErrorView>(share),
        ({
            let text = scaled_share_text(share);
            &&& text.len() >= 8
            &&& text[text.len() - 7] == '.'
            &&& forall|i: int|
                0 <= i < text.len() && i != text.len() - 7 ==> is_digit(#[trigger] text[i])
        }),
{
    let whole = decimal(share / 1_000_000);
    let fraction = six_digits(share % 1_000_000);
    law_decimal_reads_back(share / 1_000_000);
    assert forall|i: int| 0 <= i < whole.len() implies is_digit(#[trigger] whole[i]) by {
        assert(is_digit(decimal(share / 1_000_000)[i]));
    }
    lemma_six_digits(share % 1_000_000);
    reveal_strlit(".");
    assert(scaled_share_text(share) =~= whole.push('.') + fraction);
    let text = scaled_share_text(share);
    assert forall|i: int| 0 <= i < text.len() && i != text.len() - 7 implies is_digit(
        #[trigger] text[i],
    ) by {
        if i < whole.len() {
            assert(text[i] == whole[i]);
        } else {
            assert(text[i] == fraction[i - whole.len() - 1]);
        }
    }
    law_amounts_are_scaled(field, whole, fraction, 6);
    assert(vstd::arithmetic::power::pow(10, 6) == 1_000_000) by {
        reveal_with_fuel(vstd::arithmetic::power::pow, 7);
    }
    vstd::arithmetic::power::lemma_pow0(10);
    assert(scaled_amount(whole, fraction, 6) == share);
}

} // verus!
