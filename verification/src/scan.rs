//! The search for sales that took place: which blocks and markets are asked for,
//! what is taken from the answers, and what is done when an answer fails.
use vstd::prelude::*;
use vstd::arithmetic::power::pow;

use crate::address::{Address, TxHash};
use crate::text::{contains, contains_text, lowercased, occurs_at, to_ascii_lowercase};
use crate::u256::U256;
use crate::validation::{options_error, RedeemCase, ValidationOptions, ValidationRun};

verus! {

/// What a log says of a sale.
#[derive(Clone, Copy, Debug)]
pub struct RedeemEvent {
    pub token_id: U256,
    pub collateral_to_user: U256,
    pub ot_to_pool: U256,
    pub collateral_to_treasury: U256,
}

/// A log of the chain; without an event where it cannot be decoded.
#[derive(Clone, Copy, Debug)]
pub struct RedeemLog {
    pub address: Address,
    pub block_number: Option<u64>,
    pub transaction_hash: Option<TxHash>,
    pub log_index: Option<u64>,
    pub event: Option<RedeemEvent>,
}

/// The sale that a log tells of, where it can be decoded and names its block and
/// its transaction.
pub open spec fn case_of(log: RedeemLog) -> Option<RedeemCase> {
    match (log.event, log.block_number, log.transaction_hash) {
        (Some(event), Some(block_number), Some(tx_hash)) => Some(
            RedeemCase {
                market: log.address,
                block_number,
                tx_hash,
                log_index: log.log_index,
                token_id: event.token_id,
                collateral_to_user: event.collateral_to_user,
                ot_to_pool: event.ot_to_pool,
                collateral_to_treasury: event.collateral_to_treasury,
            },
        ),
        _ => None,
    }
}

/// The sales that logs tell of, the last first.
pub open spec fn newest_first(logs: Seq<RedeemLog>) -> Seq<RedeemCase>
    decreases logs.len(),
{
    if logs.len() == 0 {
        Seq::empty()
    } else {
        match case_of(logs.last()) {
            Some(case) => seq![case] + newest_first(logs.drop_last()),
            None => newest_first(logs.drop_last()),
        }
    }
}

/// The sale that a log tells of.
fn read_case(log: &RedeemLog) -> (case: Option<RedeemCase>)
    ensures
        case == case_of(*log),
{
    match (log.event, log.block_number, log.transaction_hash) {
        (Some(event), Some(block_number), Some(tx_hash)) => Some(
            RedeemCase {
                market: log.address,
                block_number,
                tx_hash,
                log_index: log.log_index,
                token_id: event.token_id,
                collateral_to_user: event.collateral_to_user,
                ot_to_pool: event.ot_to_pool,
                collateral_to_treasury: event.collateral_to_treasury,
            },
        ),
        _ => None,
    }
}

/// Two sales of one market in one block.
pub open spec fn same_slot(a: RedeemCase, b: RedeemCase) -> bool {
    a.block_number == b.block_number && a.market@ == b.market@
}

/// A log that can be decoded and names its block and its transaction tells of one sale,
/// which carries each field of the log and of its event under its own name; any other
/// log tells of none.
pub proof fn law_logs_tell_of_their_sales(log: RedeemLog)
    ensures
        log.event is Some && log.block_number is Some && log.transaction_hash is Some ==> {
            let found = newest_first(seq![log]);
            &&& found.len() == 1
            &&& found[0].market == log.address
            &&& found[0].block_number == log.block_number->0
            &&& found[0].tx_hash == log.transaction_hash->0
            &&& found[0].log_index == log.log_index
            &&& found[0].token_id == (log.event->0).token_id
            &&& found[0].collateral_to_user == (log.event->0).collateral_to_user
            &&& found[0].ot_to_pool == (log.event->0).ot_to_pool
            &&& found[0].collateral_to_treasury == (log.event->0).collateral_to_treasury
        },
        log.event is None || log.block_number is None || log.transaction_hash is None
            ==> newest_first(seq![log]).len() == 0,
{
    reveal_with_fuel(newest_first, 2);
    assert(seq![log].drop_last() =~= Seq::<RedeemLog>::empty());
}

/// The sales of later logs come before those of earlier ones, and none is lost or added.
pub proof fn law_later_sales_come_first(earlier: Seq<RedeemLog>, later: Seq<RedeemLog>)
    ensures
        newest_first(earlier + later) == newest_first(later) + newest_first(earlier),
    decreases later.len(),
{
    if later.len() == 0 {
        assert(earlier + later =~= earlier);
        assert(newest_first(later) + newest_first(earlier) =~= newest_first(earlier));
    } else {
        let fewer = later.drop_last();
        law_later_sales_come_first(earlier, fewer);
        assert((earlier + later).drop_last() =~= earlier + fewer);
        assert((earlier + later).last() == later.last());
        assert(newest_first(earlier + later) =~= newest_first(later) + newest_first(earlier));
    }
}

/// A sale that a log tells of, each of its fields that of the log or of its event.
pub open spec fn tells_of(log: RedeemLog, case: RedeemCase) -> bool {
    log.event matches Some(event) && {
        &&& log.block_number == Some(case.block_number)
        &&& log.transaction_hash == Some(case.tx_hash)
        &&& case.market == log.address
        &&& case.log_index == log.log_index
        &&& case.token_id == event.token_id
        &&& case.collateral_to_user == event.collateral_to_user
        &&& case.ot_to_pool == event.ot_to_pool
        &&& case.collateral_to_treasury == event.collateral_to_treasury
    }
}

/// The log can be decoded, and names its block and its transaction.
pub open spec fn is_complete(log: RedeemLog) -> bool {
    log.event is Some && log.block_number is Some && log.transaction_hash is Some
}

/// Every sale that was taken is told of by one of the logs, and every complete log
/// tells of one that was taken.
pub proof fn law_sales_come_from_logs(logs: Seq<RedeemLog>)
    ensures
        newest_first(logs).len() <= logs.len(),
        forall|i: int|
            0 <= i < newest_first(logs).len() ==> exists|j: int|
                0 <= j < logs.len() && tells_of(#[trigger] logs[j], #[trigger] newest_first(logs)[i]),
        forall|j: int|
            0 <= j < logs.len() && is_complete(#[trigger] logs[j]) ==> exists|i: int|
                0 <= i < newest_first(logs).len() && tells_of(
                    logs[j],
                    #[trigger] newest_first(logs)[i],
                ),
        (forall|j: int| 0 <= j < logs.len() ==> is_complete(#[trigger] logs[j])) ==> newest_first(
            logs,
        ).len() == logs.len(),
    decreases logs.len(),
{
    let found = newest_first(logs);
    if logs.len() > 0 {
        let fewer = logs.drop_last();
        let rest = newest_first(fewer);
        let last = logs.len() - 1;
        law_sales_come_from_logs(fewer);
        let front = found.len() - rest.len();
        assert forall|i: int| 0 <= i < found.len() implies exists|j: int|
            0 <= j < logs.len() && tells_of(#[trigger] logs[j], #[trigger] found[i]) by {
            if i < front {
                assert(tells_of(logs[last], found[i]));
            } else {
                assert(found[i] == rest[i - front]);
                let j = choose|j: int|
                    0 <= j < fewer.len() && tells_of(#[trigger] fewer[j], rest[i - front]);
                assert(tells_of(logs[j], found[i]));
            }
        }
        assert forall|j: int| 0 <= j < logs.len() && is_complete(#[trigger] logs[j]) implies exists|
            i: int,
        |
            0 <= i < found.len() && tells_of(logs[j], #[trigger] found[i]) by {
            if j == last {
                assert(tells_of(logs[j], found[0]));
            } else {
                assert(is_complete(fewer[j]));
                let i = choose|i: int|
                    0 <= i < rest.len() && tells_of(fewer[j], #[trigger] rest[i]);
                assert(found[i + front] == rest[i]);
                assert(tells_of(logs[j], found[i + front]));
            }
        }
        if forall|j: int| 0 <= j < logs.len() ==> is_complete(#[trigger] logs[j]) {
            assert forall|j: int| 0 <= j < fewer.len() implies is_complete(
                #[trigger] fewer[j],
            ) by {
                assert(is_complete(logs[j]));
            }
            assert(is_complete(logs[last]));
        }
    }
}

/// How many of the sales are of the market and the block of `case`.
pub open spec fn occurrences(cases: Seq<RedeemCase>, case: RedeemCase) -> nat
    decreases cases.len(),
{
    if cases.len() == 0 {
        0
    } else {
        occurrences(cases.drop_last(), case) + if same_slot(cases.last(), case) {
            1nat
        } else {
            0nat
        }
    }
}

/// The sales that are the only ones of their market in their block.
pub open spec fn unique_cases(cases: Seq<RedeemCase>) -> Seq<RedeemCase> {
    cases.filter(|case: RedeemCase| occurrences(cases, case) == 1)
}

/// How many of the sales are of the market and the block of `case`.
fn count_slot(cases: &Vec<RedeemCase>, case: &RedeemCase) -> (count: usize)
    ensures
        count == occurrences(cases@, *case),
{
    let mut count: usize = 0;
    let mut i: usize = 0;
    while i < cases.len()
        invariant
            i <= cases@.len(),
            count == occurrences(cases@.take(i as int), *case),
            count <= i,
        decreases cases@.len() - i,
    {
        proof {
            assert(cases@.take(i + 1).drop_last() =~= cases@.take(i as int));
        }
        if cases[i].block_number == case.block_number && cases[i].market.same_as(&case.market) {
            count = count + 1;
        }
        i = i + 1;
    }
    proof {
        assert(cases@.take(i as int) =~= cases@);
    }
    count
}

/// Keeps the sales that are the only ones of their market in their block, in their order.
pub fn dedupe_market_block(cases: Vec<RedeemCase>) -> (kept: Vec<RedeemCase>)
    ensures
        kept@ == unique_cases(cases@),
{
    let ghost alone = |case: RedeemCase| occurrences(cases@, case) == 1;
    let mut kept: Vec<RedeemCase> = Vec::new();
    let mut i: usize = 0;
    proof {
        reveal(Seq::filter);
        assert(cases@.take(0).filter(alone) =~= Seq::empty());
    }
    while i < cases.len()
        invariant
            i <= cases@.len(),
            alone == (|case: RedeemCase| occurrences(cases@, case) == 1),
            kept@ == cases@.take(i as int).filter(alone),
        decreases cases@.len() - i,
    {
        let case = cases[i];
        proof {
            reveal(Seq::filter);
            assert(cases@.take(i + 1).drop_last() =~= cases@.take(i as int));
            assert(cases@.take(i + 1).last() == case);
        }
        if count_slot(&cases, &case) == 1 {
            kept.push(case);
        }
        i = i + 1;
    }
    proof {
        assert(cases@.take(i as int) =~= cases@);
    }
    kept
}

/// A sale of the market and the block of `case` is counted, and two are counted twice.
proof fn lemma_occurrences(cases: Seq<RedeemCase>, case: RedeemCase, i: int, j: int)
    requires
        0 <= i <= j < cases.len(),
        same_slot(cases[i], case),
        same_slot(cases[j], case),
    ensures
        occurrences(cases, case) >= 1,
        i < j ==> occurrences(cases, case) >= 2,
    decreases cases.len(),
{
    let shorter = cases.drop_last();
    let last = cases.len() - 1;
    if j < last {
        lemma_occurrences(shorter, case, i, j);
    } else if i < last {
        lemma_occurrences(shorter, case, i, i);
    }
}

/// Where no sale but one is of the market and the block of `case`, one is counted at most.
proof fn lemma_occurs_once(cases: Seq<RedeemCase>, case: RedeemCase, i: int)
    requires
        forall|j: int| 0 <= j < cases.len() && j != i ==> !same_slot(#[trigger] cases[j], case),
    ensures
        occurrences(cases, case) <= 1,
        !(0 <= i < cases.len()) ==> occurrences(cases, case) == 0,
    decreases cases.len(),
{
    if cases.len() > 0 {
        let shorter = cases.drop_last();
        let last = cases.len() - 1;
        assert forall|j: int| 0 <= j < shorter.len() && j != i implies !same_slot(
            #[trigger] shorter[j],
            case,
        ) by {
            assert(shorter[j] == cases[j]);
        }
        lemma_occurs_once(shorter, case, i);
        if i != last {
            assert(!same_slot(cases[last], case));
        }
    }
}

/// What a filter keeps comes from the sequence, each element from its own place.
proof fn lemma_kept_places(cases: Seq<RedeemCase>, keep: spec_fn(RedeemCase) -> bool, i: int, j: int)
    requires
        0 <= i < j < cases.filter(keep).len(),
    ensures
        keep(cases.filter(keep)[i]),
        keep(cases.filter(keep)[j]),
        exists|a: int, b: int|
            0 <= a < b < cases.len() && #[trigger] cases[a] == cases.filter(keep)[i]
                && #[trigger] cases[b] == cases.filter(keep)[j],
    decreases cases.len(),
{
    reveal(Seq::filter);
    let shorter = cases.drop_last();
    let kept = shorter.filter(keep);
    if j < kept.len() {
        lemma_kept_places(shorter, keep, i, j);
        let (a, b) = choose|a: int, b: int|
            0 <= a < b < shorter.len() && #[trigger] shorter[a] == kept[i] && #[trigger] shorter[b]
                == kept[j];
        assert(cases[a] == cases.filter(keep)[i] && cases[b] == cases.filter(keep)[j]);
    } else {
        assert(kept.contains(kept[i]));
        lemma_filter_keeps(shorter, keep, kept[i]);
        let a = choose|a: int| 0 <= a < shorter.len() && shorter[a] == kept[i];
        let b = cases.len() - 1;
        assert(cases[a] == cases.filter(keep)[i] && cases[b] == cases.filter(keep)[j]);
    }
}

/// One of the sales stands before the other.
pub open spec fn in_order(cases: Seq<RedeemCase>, first: RedeemCase, second: RedeemCase) -> bool {
    exists|a: int, b: int|
        0 <= a < b < cases.len() && #[trigger] cases[a] == first && #[trigger] cases[b] == second
}

/// Of the sales that are kept no two are of one market in one block, a sale is kept
/// exactly where no other is of its market and its block, and the sales that are kept
/// are in the order in which they were.
pub proof fn law_kept_sales_are_alone(cases: Seq<RedeemCase>)
    ensures
        forall|i: int, j: int|
            0 <= i < j < unique_cases(cases).len() ==> {
                let a = #[trigger] unique_cases(cases)[i];
                let b = #[trigger] unique_cases(cases)[j];
                a.block_number != b.block_number || a.market@ != b.market@
            },
        forall|i: int|
            0 <= i < cases.len() ==> (unique_cases(cases).contains(#[trigger] cases[i]) <==> forall|
                j: int,
            |
                0 <= j < cases.len() && j != i ==> (#[trigger] cases[j]).block_number
                    != cases[i].block_number || cases[j].market@ != cases[i].market@),
        forall|i: int, j: int|
            0 <= i < j < unique_cases(cases).len() ==> in_order(
                cases,
                #[trigger] unique_cases(cases)[i],
                #[trigger] unique_cases(cases)[j],
            ),
        forall|i: int, j: int|
            0 <= i < j < unique_cases(cases).len() ==> !same_slot(
                #[trigger] unique_cases(cases)[i],
                #[trigger] unique_cases(cases)[j],
            ),
        forall|i: int|
            0 <= i < cases.len() ==> (unique_cases(cases).contains(#[trigger] cases[i]) <==> forall|
                j: int,
            |
                0 <= j < cases.len() && j != i ==> !same_slot(#[trigger] cases[j], cases[i])),
{
    let alone = |case: RedeemCase| occurrences(cases, case) == 1;
    let kept = unique_cases(cases);
    assert forall|i: int, j: int| 0 <= i < j < kept.len() implies !same_slot(
        #[trigger] kept[i],
        #[trigger] kept[j],
    ) by {
        lemma_kept_places(cases, alone, i, j);
        let (a, b) = choose|a: int, b: int|
            0 <= a < b < cases.len() && #[trigger] cases[a] == kept[i] && #[trigger] cases[b]
                == kept[j];
        assert(alone(kept[j]));
        if same_slot(kept[i], kept[j]) {
            lemma_occurrences(cases, kept[j], a, b);
        }
    }
    assert forall|i: int, j: int| 0 <= i < j < kept.len() implies in_order(
        cases,
        #[trigger] kept[i],
        #[trigger] kept[j],
    ) by {
        lemma_kept_places(cases, alone, i, j);
    }
    assert forall|i: int| 0 <= i < cases.len() implies (kept.contains(#[trigger] cases[i])
        <==> forall|j: int|
        0 <= j < cases.len() && j != i ==> !same_slot(#[trigger] cases[j], cases[i])) by {
        let case = cases[i];
        if kept.contains(case) {
            lemma_filter_keeps(cases, alone, case);
            assert forall|j: int| 0 <= j < cases.len() && j != i implies !same_slot(
                #[trigger] cases[j],
                case,
            ) by {
                if same_slot(cases[j], case) {
                    if i < j {
                        lemma_occurrences(cases, case, i, j);
                    } else {
                        lemma_occurrences(cases, case, j, i);
                    }
                }
            }
        }
        if forall|j: int|
            0 <= j < cases.len() && j != i ==> !same_slot(#[trigger] cases[j], cases[i]) {
            lemma_occurs_once(cases, case, i);
            lemma_occurrences(cases, case, i, i);
            assert(alone(case));
            lemma_filter_holds(cases, alone, i);
        }
    }
}

/// What a filter keeps comes from the sequence and satisfies it.
proof fn lemma_filter_keeps(cases: Seq<RedeemCase>, keep: spec_fn(RedeemCase) -> bool, case: RedeemCase)
    requires
        cases.filter(keep).contains(case),
    ensures
        keep(case),
        cases.contains(case),
    decreases cases.len(),
{
    reveal(Seq::filter);
    if cases.len() > 0 {
        let kept = cases.filter(keep);
        let k = choose|k: int| 0 <= k < kept.len() && kept[k] == case;
        let shorter = cases.drop_last().filter(keep);
        if k < shorter.len() {
            assert(shorter[k] == case);
            lemma_filter_keeps(cases.drop_last(), keep, case);
            let m = choose|m: int| 0 <= m < cases.len() - 1 && cases.drop_last()[m] == case;
            assert(cases[m] == case);
        } else {
            assert(cases[cases.len() - 1] == case);
        }
    }
}

/// What satisfies a filter is kept.
proof fn lemma_filter_holds(cases: Seq<RedeemCase>, keep: spec_fn(RedeemCase) -> bool, i: int)
    requires
        0 <= i < cases.len(),
        keep(cases[i]),
    ensures
        cases.filter(keep).contains(cases[i]),
    decreases cases.len(),
{
    reveal(Seq::filter);
    let shorter = cases.drop_last();
    let kept = shorter.filter(keep);
    if i < shorter.len() {
        lemma_filter_holds(shorter, keep, i);
        let k = choose|k: int| 0 <= k < kept.len() && kept[k] == cases[i];
        assert(cases.filter(keep)[k] == cases[i]);
    } else {
        assert(cases.filter(keep)[kept.len() as int] == cases[i]);
    }
}

/// The sales that are compared: those that are alone, at most twice as many as asked for.
pub open spec fn selected(cases: Seq<RedeemCase>, samples: nat) -> Seq<RedeemCase> {
    let unique = unique_cases(cases);
    if unique.len() <= 2 * samples {
        unique
    } else {
        unique.take(2 * samples as int)
    }
}

/// The sales that are compared are the first of those that are alone: as many as there
/// are, and twice as many as asked for at most.
pub proof fn law_selection_takes_the_first(cases: Seq<RedeemCase>, samples: nat)
    ensures
        selected(cases, samples).len() <= 2 * samples,
        selected(cases, samples).len() <= unique_cases(cases).len(),
        selected(cases, samples).len() == 2 * samples || selected(cases, samples).len()
            == unique_cases(cases).len(),
        forall|i: int|
            0 <= i < selected(cases, samples).len() ==> #[trigger] selected(cases, samples)[i]
                == unique_cases(cases)[i],
{
}

/// Selects the sales that are compared.
pub fn select_cases(cases: Vec<RedeemCase>, samples: usize) -> (kept: Vec<RedeemCase>)
    ensures
        kept@ == selected(cases@, samples as nat),
{
    let mut kept = dedupe_market_block(cases);
    if samples <= usize::MAX / 2 {
        kept.truncate(2 * samples);
    } else {
        proof {
            assert(kept.len() <= 2 * samples);
        }
    }
    kept
}

/// How many sales are looked for: a fifth more than are to be compared.
pub open spec fn search_target(samples: nat) -> nat {
    if samples + samples / 5 <= usize::MAX {
        samples + samples / 5
    } else {
        usize::MAX as nat
    }
}

/// The sales that are looked for are six fifths of those that are to be compared,
/// rounded down, as long as that can be counted.
pub proof fn law_target_is_six_fifths(samples: nat)
    requires
        samples <= usize::MAX,
    ensures
        search_target(samples) < usize::MAX ==> 5 * search_target(samples) <= 6 * samples < 5
            * search_target(samples) + 5,
        6 * samples >= 5 * (usize::MAX + 1) ==> search_target(samples) == usize::MAX,
        samples <= search_target(samples) <= usize::MAX,
{
}

/// How many sales are looked for.
pub fn candidate_target(samples: usize) -> (target: usize)
    ensures
        target == search_target(samples as nat),
        target >= samples,
{
    match samples.checked_add(samples / 5) {
        Some(target) => target,
        None => usize::MAX,
    }
}

/// The first block of the range that ends with block `to`: a range has at most
/// `chunk` blocks and begins no earlier than `limit`.
pub open spec fn range_start(to: int, chunk: int, limit: int) -> int {
    if to - (chunk - 1) >= limit {
        to - (chunk - 1)
    } else {
        limit
    }
}

/// A range begins no earlier than the limit, has as many blocks as asked for, and is
/// shorter only where the limit cuts it off.
pub proof fn law_ranges_are_full(to: int, chunk: int, limit: int)
    requires
        chunk > 0,
        to >= limit,
    ensures
        limit <= range_start(to, chunk, limit) <= to,
        to - range_start(to, chunk, limit) + 1 <= chunk,
        to - range_start(to, chunk, limit) + 1 == chunk || range_start(to, chunk, limit) == limit,
{
}

/// A block lies in one of the ranges of a search that goes down from block `to`.
pub open spec fn searched(to: int, chunk: int, limit: int, block: int) -> bool
    decreases to - limit + 1,
{
    &&& to > limit
    &&& chunk > 0
    &&& {
        ||| range_start(to, chunk, limit) <= block <= to
        ||| range_start(to, chunk, limit) > 0 && searched(
            range_start(to, chunk, limit) - 1,
            chunk,
            limit,
            block,
        )
    }
}

/// A search that goes down from block `to` reaches every block above the limit, and
/// none that lies below the limit or above its start.
pub proof fn law_search_reaches_every_block(to: int, chunk: int, limit: int, block: int)
    requires
        chunk > 0,
        limit >= 0,
    ensures
        limit < block <= to ==> searched(to, chunk, limit, block),
        searched(to, chunk, limit, block) ==> limit <= block <= to,
    decreases to - limit + 1,
{
    if to > limit {
        let start = range_start(to, chunk, limit);
        if start > 0 {
            law_search_reaches_every_block(start - 1, chunk, limit, block);
        }
    }
}

/// The ranges and markets that are searched, and the sales that were found.
#[derive(Debug)]
pub struct Scan {
    pub markets: Vec<Address>,
    pub batch_size: usize,
    pub chunk_size: u64,
    pub from_limit: u64,
    pub target: usize,
    pub to: u64,
    pub position: usize,
    pub exhausted: bool,
    pub candidates: Vec<RedeemCase>,
}

/// The logs that are asked for: those of some markets in a range of blocks.
#[derive(Debug)]
pub struct ScanRequest {
    pub markets: Vec<Address>,
    pub from: u64,
    pub to: u64,
}

impl Scan {
    /// There are markets, and the place that is searched next is one of them, at
    /// a block above the limit.
    pub open spec fn wf(&self) -> bool {
        &&& self.position < self.markets@.len()
        &&& self.batch_size > 0
        &&& self.chunk_size > 0
        &&& !self.exhausted ==> self.to > self.from_limit
    }

    /// More is to be asked for.
    pub open spec fn pending(&self) -> bool {
        self.candidates@.len() < self.target && !self.exhausted
    }

    /// The first block of the range that is searched.
    pub open spec fn from(&self) -> int {
        range_start(self.to as int, self.chunk_size as int, self.from_limit as int)
    }

    /// The end of the batch of markets that is searched.
    pub open spec fn batch_end(&self) -> int {
        if self.position + self.batch_size < self.markets@.len() {
            self.position + self.batch_size
        } else {
            self.markets@.len() as int
        }
    }

    /// A search down from the latest block, through as many blocks as asked for.
    pub fn new(options: &ValidationOptions, markets: Vec<Address>, latest: u64) -> (scan: Scan)
        requires
            options_error(*options) is None,
            markets@.len() > 0,
        ensures
            scan.wf(),
            scan.markets == markets,
            scan.batch_size == options.market_batch_size,
            scan.chunk_size == options.chunk_size,
            scan.from_limit == if latest >= options.lookback_blocks {
                latest - options.lookback_blocks
            } else {
                0
            },
            scan.target == search_target(options.samples as nat),
            scan.to == latest,
            scan.position == 0,
            scan.exhausted == (latest <= scan.from_limit),
            scan.candidates@.len() == 0,
    {
        let from_limit: u64 = if latest >= options.lookback_blocks {
            latest - options.lookback_blocks
        } else {
            0
        };
        Scan {
            markets,
            batch_size: options.market_batch_size,
            chunk_size: options.chunk_size,
            from_limit,
            target: candidate_target(options.samples),
            to: latest,
            position: 0,
            exhausted: latest <= from_limit,
            candidates: Vec::new(),
        }
    }

    /// The first block of the range that is searched.
    fn first_block(&self) -> (from: u64)
        requires
            self.wf(),
        ensures
            from == self.from(),
    {
        if self.to >= self.chunk_size - 1 && self.to - (self.chunk_size - 1) >= self.from_limit {
            self.to - (self.chunk_size - 1)
        } else {
            self.from_limit
        }
    }

    /// What is asked for next, where more is to be asked for: a batch of the markets
    /// in a range of at most the configured number of blocks.
    pub fn next_request(&self) -> (request: Option<ScanRequest>)
        requires
            self.wf(),
        ensures
            request is Some == self.pending(),
            request matches Some(request) ==> {
                &&& request.markets@ == self.markets@.subrange(
                    self.position as int,
                    self.batch_end(),
                )
                &&& request.from == self.from()
                &&& request.to == self.to
                &&& self.from_limit <= request.from <= request.to
                &&& request.to - request.from < self.chunk_size
            },
    {
        if self.candidates.len() >= self.target || self.exhausted {
            return None;
        }
        let mut markets: Vec<Address> = Vec::new();
        let mut i: usize = self.position;
        while i < self.markets.len() && i - self.position < self.batch_size
            invariant
                self.wf(),
                self.position <= i <= self.batch_end(),
                markets@ == self.markets@.subrange(self.position as int, i as int),
            decreases self.markets@.len() - i,
        {
            markets.push(self.markets[i]);
            proof {
                assert(self.markets@.subrange(self.position as int, i + 1) =~= self.markets@.subrange(
                    self.position as int,
                    i as int,
                ).push(self.markets@[i as int]));
            }
            i = i + 1;
        }
        Some(ScanRequest { markets, from: self.first_block(), to: self.to })
    }

    /// Takes the sales from the logs that were asked for, and goes on to the next
    /// batch of markets, or to the next range of blocks after the last batch.
    pub fn absorb(&mut self, logs: &Vec<RedeemLog>)
        requires
            old(self).wf(),
            old(self).pending(),
        ensures
            final(self).wf(),
            final(self).candidates@ == old(self).candidates@ + newest_first(logs@),
            forall|i: int|
                old(self).candidates@.len() <= i < final(self).candidates@.len() ==> exists|j: int|
                    0 <= j < logs@.len() && tells_of(
                        #[trigger] logs@[j],
                        #[trigger] final(self).candidates@[i],
                    ),
            moves_on(*old(self), *final(self)),
    {
        let ghost found = self.candidates@;
        let from = self.first_block();
        let mut i: usize = logs.len();
        proof {
            assert(logs@.take(i as int) =~= logs@);
            assert(found + newest_first(logs@) =~= self.candidates@ + newest_first(
                logs@.take(i as int),
            ));
        }
        while i > 0
            invariant
                i <= logs@.len(),
                self.candidates@ + newest_first(logs@.take(i as int)) == found + newest_first(
                    logs@,
                ),
                self.markets == old(self).markets,
                self.batch_size == old(self).batch_size,
                self.chunk_size == old(self).chunk_size,
                self.from_limit == old(self).from_limit,
                self.target == old(self).target,
                self.to == old(self).to,
                self.position == old(self).position,
                self.exhausted == old(self).exhausted,
            decreases i,
        {
            i = i - 1;
            let ghost before = self.candidates@;
            proof {
                assert(logs@.take(i + 1).drop_last() =~= logs@.take(i as int));
                assert(logs@.take(i + 1).last() == logs@[i as int]);
            }
            if let Some(case) = read_case(&logs[i]) {
                self.candidates.push(case);
                proof {
                    assert(self.candidates@ + newest_first(logs@.take(i as int)) =~= before + (
                    seq![case] + newest_first(logs@.take(i as int))));
                }
            }
        }
        proof {
            assert(logs@.take(0) =~= Seq::empty());
            assert(self.candidates@ + newest_first(logs@.take(0)) =~= self.candidates@);
            law_sales_come_from_logs(logs@);
            assert forall|i: int| found.len() <= i < self.candidates@.len() implies exists|j: int|
                0 <= j < logs@.len() && tells_of(
                    #[trigger] logs@[j],
                    #[trigger] self.candidates@[i],
                ) by {
                assert(self.candidates@[i] == newest_first(logs@)[i - found.len()]);
            }
        }
        if self.markets.len() - self.position > self.batch_size {
            self.position = self.position + self.batch_size;
        } else {
            self.position = 0;
            if from == 0 {
                self.exhausted = true;
            } else {
                self.to = from - 1;
                self.exhausted = self.to <= self.from_limit;
            }
        }
    }
}

/// Begins the comparison of the sales that a search found.
pub fn begin_run(scan: Scan, samples: usize) -> (run: ValidationRun)
    ensures
        run.wf(),
        run.cases@ == selected(scan.candidates@, samples as nat),
        run.next == 0,
        run.samples == samples,
        run.results@.len() == 0,
{
    ValidationRun::new(select_cases(scan.candidates, samples), samples)
}

/// The search goes on to the next batch of markets, or after the last batch to the
/// range of blocks below; it ends where that range would not reach above the limit.
pub open spec fn moves_on(before: Scan, after: Scan) -> bool {
    &&& after.markets == before.markets
    &&& after.batch_size == before.batch_size
    &&& after.chunk_size == before.chunk_size
    &&& after.from_limit == before.from_limit
    &&& after.target == before.target
    &&& if before.batch_end() < before.markets@.len() {
        &&& after.position == before.batch_end()
        &&& after.to == before.to
        &&& !after.exhausted
    } else if before.from() == 0 {
        &&& after.position == 0
        &&& after.to == before.to
        &&& after.exhausted
    } else {
        &&& after.position == 0
        &&& after.to == before.from() - 1
        &&& after.exhausted == (after.to <= before.from_limit)
    }
}

/// A block lies in the range that is searched, or in one that will be.
pub open spec fn covers(scan: Scan, block: int) -> bool {
    !scan.exhausted && searched(
        scan.to as int,
        scan.chunk_size as int,
        scan.from_limit as int,
        block,
    )
}

/// No block is lost on the way: a search that begins covers every block above its
/// limit, and at each step a block that was covered lies in the range that was just
/// searched for all markets, or is still covered.
pub proof fn law_scan_leaves_no_gap(before: Scan, after: Scan, block: int)
    requires
        before.wf(),
        !before.exhausted,
        moves_on(before, after),
    ensures
        before.from_limit < block <= before.to ==> covers(before, block),
        before.batch_end() < before.markets@.len() ==> covers(after, block) == covers(
            before,
            block,
        ),
        before.batch_end() == before.markets@.len() ==> (covers(before, block) <==> before.from()
            <= block <= before.to || covers(after, block)),
{
    reveal_with_fuel(searched, 2);
    law_search_reaches_every_block(
        before.to as int,
        before.chunk_size as int,
        before.from_limit as int,
        block,
    );
}

/// No market is left out: in one range of blocks each batch begins where the one before
/// ended, has as many markets as asked for unless none are left, and only after the last
/// one does the search go on to the blocks below, again with the first market.
pub proof fn law_scan_asks_for_every_market(before: Scan, after: Scan)
    requires
        before.wf(),
        moves_on(before, after),
    ensures
        before.pending() <==> !before.exhausted && before.candidates@.len() < before.target,
        before.position < before.batch_end() <= before.markets@.len(),
        before.batch_end() - before.position == before.batch_size || before.batch_end()
            == before.markets@.len(),
        before.batch_end() - before.position <= before.batch_size,
        after.markets == before.markets,
        after.to == before.to && !after.exhausted ==> after.position == before.batch_end(),
        after.to != before.to || after.exhausted ==> before.batch_end() == before.markets@.len()
            && after.position == 0,
        !before.exhausted ==> after.to <= before.to,
{
}

/// The text of an error says that too much was asked for in too short a time.
pub open spec fn says_rate_limit(text: Seq<char>) -> bool {
    let lower = to_ascii_lowercase(text);
    contains(lower, "429"@) || contains(lower, "too many"@) || contains(lower, "rate limit"@)
        || contains(lower, "usage limit"@)
}

/// It makes no difference whether an error is written in small or capital letters, nor
/// what stands around the words that say that too much was asked for.
pub proof fn law_rate_limits_are_recognised(before: Seq<char>, words: Seq<char>, after: Seq<char>)
    requires
        to_ascii_lowercase(words) == "429"@ || to_ascii_lowercase(words) == "too many"@
            || to_ascii_lowercase(words) == "rate limit"@ || to_ascii_lowercase(words)
            == "usage limit"@,
    ensures
        says_rate_limit(before + words + after),
{
    let lower = to_ascii_lowercase(before + words + after);
    let found = to_ascii_lowercase(words);
    let at = before.len() as int;
    assert(lower.subrange(at, at + found.len()) =~= found);
    assert(occurs_at(lower, found, at));
}

/// Whether the text of an error says that too much was asked for in too short a time.
pub fn is_rate_limit_text(value: &str) -> (yes: bool)
    ensures
        yes == says_rate_limit(value@),
{
    let lower = lowercased(value);
    let text = lower.as_str();
    contains_text(text, "429") || contains_text(text, "too many") || contains_text(
        text,
        "rate limit",
    ) || contains_text(text, "usage limit")
}

/// The markets of a batch that are asked for one by one, in their order, after the
/// batch failed: none where there was only one, and none where too much was asked for.
pub fn retried_markets(markets: &Vec<Address>, error: &str) -> (rest: Vec<Address>)
    ensures
        rest@ == if markets@.len() > 1 && !says_rate_limit(error@) {
            markets@
        } else {
            Seq::empty()
        },
{
    let mut rest: Vec<Address> = Vec::new();
    if markets.len() <= 1 || is_rate_limit_text(error) {
        return rest;
    }
    let mut i: usize = 0;
    while i < markets.len()
        invariant
            i <= markets.len(),
            rest@ == markets@.take(i as int),
        decreases markets.len() - i,
    {
        rest.push(markets[i]);
        i += 1;
    }
    assert(markets@.take(markets@.len() as int) =~= markets@);
    rest
}

/// The repeated attempts at one request.
#[derive(Clone, Copy, Debug)]
pub struct LogRetry {
    pub attempt: u32,
}

/// The time to wait after a failed attempt: two seconds, and twice as long after
/// each further one.
pub open spec fn backoff_ms(attempt: nat) -> int {
    2_000 * pow(2, attempt)
}

/// The first wait is two seconds, and each further one twice as long as the one before.
pub proof fn law_waits_double(attempt: nat)
    ensures
        backoff_ms(0) == 2_000,
        backoff_ms((attempt + 1) as nat) == 2 * backoff_ms(attempt),
        backoff_ms(attempt) >= 2_000,
{
    vstd::arithmetic::power::lemma_pow0(2);
    vstd::arithmetic::power::lemma_pow1(2);
    vstd::arithmetic::power::lemma_pow_adds(2, attempt, 1);
    vstd::arithmetic::power::lemma_pow_positive(2, attempt);
}

impl LogRetry {
    /// No more than five attempts are made.
    pub open spec fn wf(&self) -> bool {
        self.attempt <= 4
    }

    /// The first attempt.
    pub fn new() -> (retry: LogRetry)
        ensures
            retry.wf(),
            retry.attempt == 0,
    {
        LogRetry { attempt: 0 }
    }

    /// How long to wait before the next attempt, in milliseconds; `None` where no
    /// further attempt is made, after the fifth one or an error of another kind.
    pub fn after_error(&mut self, error: &str) -> (wait_ms: Option<u64>)
        requires
            old(self).wf(),
        ensures
            final(self).wf(),
            match wait_ms {
                Some(wait_ms) => {
                    &&& says_rate_limit(error@) && old(self).attempt < 4
                    &&& wait_ms == backoff_ms(old(self).attempt as nat)
                    &&& final(self).attempt == old(self).attempt + 1
                },
                None => {
                    &&& !(says_rate_limit(error@) && old(self).attempt < 4)
                    &&& *final(self) == *old(self)
                },
            },
    {
        if self.attempt >= 4 || !is_rate_limit_text(error) {
            return None;
        }
        proof {
            reveal_with_fuel(pow, 5);
        }
        let wait_ms: u64 = match self.attempt {
            0 => 2_000,
            1 => 4_000,
            2 => 8_000,
            _ => 16_000,
        };
        self.attempt = self.attempt + 1;
        Some(wait_ms)
    }
}

} // verus!
