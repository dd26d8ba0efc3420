//! The watch for new markets: which of them are bought, and what follows a buy.
use vstd::prelude::*;
use vstd::hash_set::StringHashSet;

use crate::abi::{
    address_word, announcement_of, keccak, law_announcements_read_back, number_word,
    read_announcement, Announcement,
};
use crate::address::{law_address_reads_back, prefixed_hex, Address, TxHash};
use crate::config::{allowed, Settings};
use crate::u256::{u256_limit, U256};

verus! {

/// A market that was announced.
#[derive(Clone, Copy, Debug)]
pub struct NewMarket {
    pub market: Address,
    pub collateral: Address,
    pub parent_token_id: U256,
    pub question_id: TxHash,
    pub curve: Address,
    pub timestamp_start: U256,
}

/// What the watch is told: a log, without a market where it cannot be decoded, how
/// the buy ended that it asked for, that there will be no more logs, or that the
/// watch is to end.
#[derive(Clone, Copy, Debug)]
pub enum WatchEvent {
    Log(Option<NewMarket>),
    BuyEnded { bought: bool },
    StreamEnded,
    Shutdown,
}

/// What is done about it.
#[derive(Clone, Copy, Debug, PartialEq, Eq)]
pub enum WatchStep {
    IgnoreUndecodable,
    IgnoreDuplicate,
    IgnoreCollateral,
    Buy { fetch_metadata: bool },
    Sample { market: Address },
    Wait,
    FailStreamEnded,
    Stop,
}

/// What is done about it, with the market by its bytes.
pub enum StepView {
    IgnoreUndecodable,
    IgnoreDuplicate,
    IgnoreCollateral,
    Buy { fetch_metadata: bool },
    Sample { market: Seq<u8> },
    Wait,
    FailStreamEnded,
    Stop,
}

impl View for WatchStep {
    type V = StepView;

    open spec fn view(&self) -> StepView {
        match self {
            WatchStep::IgnoreUndecodable => StepView::IgnoreUndecodable,
            WatchStep::IgnoreDuplicate => StepView::IgnoreDuplicate,
            WatchStep::IgnoreCollateral => StepView::IgnoreCollateral,
            WatchStep::Buy { fetch_metadata } => StepView::Buy { fetch_metadata: *fetch_metadata },
            WatchStep::Sample { market } => StepView::Sample { market: market@ },
            WatchStep::Wait => StepView::Wait,
            WatchStep::FailStreamEnded => StepView::FailStreamEnded,
            WatchStep::Stop => StepView::Stop,
        }
    }
}

/// The markets that were announced so far, and the one that is being bought.
#[verifier::ext_equal]
pub struct WatchState {
    pub known: Set<Seq<u8>>,
    pub buying: Option<Seq<u8>>,
}

/// What is done about an event. A market is bought when it is announced for the first
/// time and its collateral is allowed. Prices are sampled after a buy that
/// succeeded, and after no other.
pub open spec fn step_of(settings: Settings, state: WatchState, event: WatchEvent) -> StepView {
    match event {
        WatchEvent::Log(None) => StepView::IgnoreUndecodable,
        WatchEvent::Log(Some(new)) => if state.known.contains(new.market@) {
            StepView::IgnoreDuplicate
        } else if !allowed(settings, new.collateral@) {
            StepView::IgnoreCollateral
        } else {
            StepView::Buy { fetch_metadata: settings.metadata.enabled }
        },
        WatchEvent::BuyEnded { bought } => match state.buying {
            Some(market) => if bought {
                StepView::Sample { market }
            } else {
                StepView::Wait
            },
            None => StepView::Wait,
        },
        WatchEvent::StreamEnded => StepView::FailStreamEnded,
        WatchEvent::Shutdown => StepView::Stop,
    }
}

/// What is known after an event: a market that is announced is known whether it
/// is bought or not.
pub open spec fn state_after(settings: Settings, state: WatchState, event: WatchEvent) -> WatchState {
    match event {
        WatchEvent::Log(Some(new)) => WatchState {
            known: state.known.insert(new.market@),
            buying: if step_of(settings, state, event) is Buy {
                Some(new.market@)
            } else {
                None
            },
        },
        _ => WatchState { known: state.known, buying: None },
    }
}

/// The watch for new markets.
pub struct MarketWatch {
    pub seen: StringHashSet,
    pub buying: Option<Address>,
}

impl View for MarketWatch {
    type V = WatchState;

    open spec fn view(&self) -> WatchState {
        WatchState {
            known: Set::new(
                |market: Seq<u8>| market.len() == 20 && self.seen@.contains(prefixed_hex(market)),
            ),
            buying: match self.buying {
                Some(market) => Some(market@),
                None => None,
            },
        }
    }
}

/// What is said when there are no more logs.
pub open spec fn stream_ended_message() -> Seq<char> {
    "websocket log stream ended"@
}

/// What is said when there are no more logs.
pub fn stream_ended_text() -> (text: String)
    ensures
        text@ == stream_ended_message(),
{
    "websocket log stream ended".to_owned()
}

/// `new` is what the topics and the data of a log announce.
pub open spec fn is_announced(new: NewMarket, topics: Seq<Seq<u8>>, data: Seq<u8>) -> bool {
    announcement_of(topics, data) matches Some(found) && {
        &&& new.market@ == found.market
        &&& new.collateral@ == found.collateral
        &&& new.parent_token_id@ == found.parent_token_id
        &&& new.question_id@ == found.question_id
        &&& new.curve@ == found.curve
        &&& new.timestamp_start@ == found.timestamp_start
    }
}

/// A log that was written for an announcement is read as a market with the fields of the
/// announcement, each in its own place.
pub proof fn law_announced_markets_are_read(
    new: NewMarket,
    announced: Announcement,
    more: Seq<u8>,
)
    requires
        announced.market.len() == 20,
        announced.collateral.len() == 20,
        announced.parent_token_id < u256_limit(),
        announced.question_id.len() == 32,
        announced.curve.len() == 20,
        announced.timestamp_start < u256_limit(),
        is_announced(
            new,
            seq![
                keccak("CreateNewMarket(address,address,uint256,bytes32,address,uint256)"@),
                address_word(announced.market),
            ],
            address_word(announced.collateral) + number_word(announced.parent_token_id)
                + announced.question_id + address_word(announced.curve) + number_word(
                announced.timestamp_start,
            ) + more,
        ),
    ensures
        new.market@ == announced.market,
        new.collateral@ == announced.collateral,
        new.parent_token_id@ == announced.parent_token_id,
        new.question_id@ == announced.question_id,
        new.curve@ == announced.curve,
        new.timestamp_start@ == announced.timestamp_start,
{
    law_announcements_read_back(announced, more);
}

/// The topics of a log as sequences of bytes.
pub open spec fn topic_views(topics: Seq<[u8; 32]>) -> Seq<Seq<u8>> {
    topics.map_values(|topic: [u8; 32]| topic@)
}

/// The market that a log announces; `None` where the log announces none.
pub fn read_new_market(topics: &Vec<[u8; 32]>, data: &Vec<u8>) -> (new: Option<NewMarket>)
    ensures
        match new {
            Some(new) => is_announced(new, topic_views(topics@), data@),
            None => announcement_of(topic_views(topics@), data@) is None,
        },
{
    if topics.len() != 2 {
        return None;
    }
    proof {
        assert(topic_views(topics@)[0] == topics@[0]@);
        assert(topic_views(topics@)[1] == topics@[1]@);
    }
    match read_announcement(&topics[0], &topics[1], data) {
        Some((market, collateral, parent_token_id, question_id, curve, timestamp_start)) => Some(
            NewMarket {
                market,
                collateral,
                parent_token_id,
                question_id,
                curve,
                timestamp_start,
            },
        ),
        None => None,
    }
}

/// Different addresses have different texts.
proof fn lemma_texts_differ(a: Seq<u8>, b: Seq<u8>)
    requires
        a.len() == 20,
        b.len() == 20,
        prefixed_hex(a) == prefixed_hex(b),
    ensures
        a == b,
{
    law_address_reads_back(a);
    law_address_reads_back(b);
}

impl MarketWatch {
    /// A watch that has seen no market.
    pub fn new() -> (watch: MarketWatch)
        ensures
            watch@ == (WatchState { known: Set::empty(), buying: None }),
    {
        let watch = MarketWatch { seen: StringHashSet::new(), buying: None };
        proof {
            assert(watch@.known =~= Set::<Seq<u8>>::empty());
        }
        watch
    }

    /// Decides what is done about an event.
    pub fn on_event(&mut self, settings: &Settings, event: WatchEvent) -> (step: WatchStep)
        ensures
            step@ == step_of(*settings, old(self)@, event),
            final(self)@ == state_after(*settings, old(self)@, event),
    {
        let buying = self.buying;
        self.buying = None;
        match event {
            WatchEvent::StreamEnded => WatchStep::FailStreamEnded,
            WatchEvent::Shutdown => WatchStep::Stop,
            WatchEvent::BuyEnded { bought } => match buying {
                Some(market) => {
                    if bought {
                        WatchStep::Sample { market }
                    } else {
                        WatchStep::Wait
                    }
                },
                None => WatchStep::Wait,
            },
            WatchEvent::Log(None) => WatchStep::IgnoreUndecodable,
            WatchEvent::Log(Some(new)) => {
                let ghost before = self@.known;
                let fresh = self.seen.insert(new.market.to_hex());
                proof {
                    assert forall|market: Seq<u8>|
                        self@.known.contains(market) <==> #[trigger] before.insert(
                            new.market@,
                        ).contains(market) by {
                        if market.len() == 20 && prefixed_hex(market) == prefixed_hex(
                            new.market@,
                        ) {
                            lemma_texts_differ(market, new.market@);
                        }
                    }
                    assert(self@.known =~= before.insert(new.market@));
                    assert(fresh == !before.contains(new.market@));
                }
                if !fresh {
                    WatchStep::IgnoreDuplicate
                } else if !settings.is_allowed_collateral(new.collateral) {
                    WatchStep::IgnoreCollateral
                } else {
                    self.buying = Some(new.market);
                    WatchStep::Buy { fetch_metadata: settings.metadata.enabled }
                }
            },
        }
    }
}

/// The state of the watch after some events.
pub open spec fn state_after_all(
    settings: Settings,
    start: WatchState,
    events: Seq<WatchEvent>,
) -> WatchState
    decreases events.len(),
{
    if events.len() == 0 {
        start
    } else {
        state_after(
            settings,
            state_after_all(settings, start, events.drop_last()),
            events.last(),
        )
    }
}

/// The markets that are bought on some events, in their order.
pub open spec fn bought(settings: Settings, start: WatchState, events: Seq<WatchEvent>) -> Seq<Seq<u8>>
    decreases events.len(),
{
    if events.len() == 0 {
        Seq::empty()
    } else {
        let before = state_after_all(settings, start, events.drop_last());
        let so_far = bought(settings, start, events.drop_last());
        if step_of(settings, before, events.last()) is Buy {
            so_far.push(events.last()->Log_0->0.market@)
        } else {
            so_far
        }
    }
}

/// The markets whose prices are sampled on some events, in their order.
pub open spec fn sampled(settings: Settings, start: WatchState, events: Seq<WatchEvent>) -> Seq<
    Seq<u8>,
>
    decreases events.len(),
{
    if events.len() == 0 {
        Seq::empty()
    } else {
        let before = state_after_all(settings, start, events.drop_last());
        let so_far = sampled(settings, start, events.drop_last());
        match step_of(settings, before, events.last()) {
            StepView::Sample { market } => so_far.push(market),
            _ => so_far,
        }
    }
}

/// Only the end of the stream and a shutdown end the watch: no log that cannot be
/// decoded and no buy that failed does.
pub proof fn law_only_the_stream_and_a_shutdown_end_the_watch(
    settings: Settings,
    state: WatchState,
    event: WatchEvent,
)
    ensures
        step_of(settings, state, event) is FailStreamEnded <==> event is StreamEnded,
        step_of(settings, state, event) is Stop <==> event is Shutdown,
{
}

/// Why a log is not followed by a buy: it cannot be decoded, its market was announced
/// before, or its collateral is not allowed, in this order. Else it is bought, and its
/// metadata is fetched exactly where that is configured.
pub proof fn law_logs_are_bought_or_ignored(
    settings: Settings,
    state: WatchState,
    new: NewMarket,
    fetched: bool,
)
    ensures
        step_of(settings, state, WatchEvent::Log(None)) == StepView::IgnoreUndecodable,
        step_of(settings, state, WatchEvent::Log(Some(new))) == StepView::IgnoreDuplicate
            <==> state.known.contains(new.market@),
        step_of(settings, state, WatchEvent::Log(Some(new))) == StepView::IgnoreCollateral
            <==> !state.known.contains(new.market@) && !allowed(settings, new.collateral@),
        step_of(settings, state, WatchEvent::Log(Some(new))) == (StepView::Buy {
            fetch_metadata: fetched,
        }) <==> !state.known.contains(new.market@) && allowed(settings, new.collateral@) && fetched
            == settings.metadata.enabled,
{
}

/// A market is known exactly where it was known before or an event announces it.
pub proof fn law_announced_markets_are_known(
    settings: Settings,
    start: WatchState,
    events: Seq<WatchEvent>,
    market: Seq<u8>,
)
    ensures
        state_after_all(settings, start, events).known.contains(market) <==> start.known.contains(
            market,
        ) || exists|i: int| 0 <= i < events.len() && announces(#[trigger] events[i], market),
    decreases events.len(),
{
    if events.len() > 0 {
        let shorter = events.drop_last();
        let last = events.len() - 1;
        law_announced_markets_are_known(settings, start, shorter, market);
        if exists|i: int| 0 <= i < shorter.len() && announces(#[trigger] shorter[i], market) {
            let i = choose|i: int| 0 <= i < shorter.len() && announces(#[trigger] shorter[i], market);
            assert(announces(events[i], market));
        }
        if exists|i: int| 0 <= i < events.len() && announces(#[trigger] events[i], market) {
            let i = choose|i: int| 0 <= i < events.len() && announces(#[trigger] events[i], market);
            if i < last {
                assert(announces(shorter[i], market));
            }
        }
        if announces(events[last], market) {
            assert(announces(events.last(), market));
        }
    }
}

/// What was bought is known, and was not known before.
proof fn lemma_bought_is_known(
    settings: Settings,
    start: WatchState,
    events: Seq<WatchEvent>,
    market: Seq<u8>,
)
    ensures
        bought(settings, start, events).contains(market) ==> state_after_all(
            settings,
            start,
            events,
        ).known.contains(market) && !start.known.contains(market),
        start.known.contains(market) ==> state_after_all(settings, start, events).known.contains(
            market,
        ),
    decreases events.len(),
{
    if events.len() > 0 {
        let shorter = events.drop_last();
        lemma_bought_is_known(settings, start, shorter, market);
        let so_far = bought(settings, start, shorter);
        let now = bought(settings, start, events);
        if now.contains(market) && !so_far.contains(market) {
            let k = choose|k: int| 0 <= k < now.len() && now[k] == market;
            if k < so_far.len() {
                assert(so_far[k] == market);
            }
        }
    }
}

/// No market is bought twice, however often it is announced.
pub proof fn law_no_market_is_bought_twice(
    settings: Settings,
    start: WatchState,
    events: Seq<WatchEvent>,
)
    ensures
        bought(settings, start, events).no_duplicates(),
    decreases events.len(),
{
    if events.len() > 0 {
        let shorter = events.drop_last();
        law_no_market_is_bought_twice(settings, start, shorter);
        let so_far = bought(settings, start, shorter);
        if step_of(settings, state_after_all(settings, start, shorter), events.last()) is Buy {
            let market = events.last()->Log_0->0.market@;
            lemma_bought_is_known(settings, start, shorter, market);
            assert forall|i: int| 0 <= i < so_far.len() implies so_far[i] != market by {
                if so_far[i] == market {
                    assert(so_far.contains(market));
                }
            }
        }
    }
}

/// An event announces the market.
pub open spec fn announces(event: WatchEvent, market: Seq<u8>) -> bool {
    event matches WatchEvent::Log(Some(new)) && new.market@ == market
}

/// A market that no event announces does not become known.
proof fn lemma_known_by_announcement(
    settings: Settings,
    start: WatchState,
    events: Seq<WatchEvent>,
    market: Seq<u8>,
)
    requires
        !start.known.contains(market),
        forall|i: int| 0 <= i < events.len() ==> !announces(#[trigger] events[i], market),
    ensures
        !state_after_all(settings, start, events).known.contains(market),
    decreases events.len(),
{
    if events.len() > 0 {
        let shorter = events.drop_last();
        assert forall|i: int| 0 <= i < shorter.len() implies !announces(
            #[trigger] shorter[i],
            market,
        ) by {
            assert(shorter[i] == events[i]);
        }
        lemma_known_by_announcement(settings, start, shorter, market);
        assert(!announces(events[events.len() - 1], market));
    }
}

/// A market that was announced is known.
proof fn lemma_announced_is_known(
    settings: Settings,
    start: WatchState,
    events: Seq<WatchEvent>,
    i: int,
    market: Seq<u8>,
)
    requires
        0 <= i < events.len(),
        announces(events[i], market),
    ensures
        state_after_all(settings, start, events).known.contains(market),
    decreases events.len(),
{
    if i < events.len() - 1 {
        lemma_announced_is_known(settings, start, events.drop_last(), i, market);
    }
}

/// A market is bought exactly where its first announcement names a collateral
/// that is allowed; later announcements change nothing.
pub proof fn law_first_announcement_decides(
    settings: Settings,
    start: WatchState,
    events: Seq<WatchEvent>,
    first: int,
    new: NewMarket,
)
    requires
        0 <= first < events.len(),
        events[first] == WatchEvent::Log(Some(new)),
        !start.known.contains(new.market@),
        forall|i: int| 0 <= i < first ==> !announces(#[trigger] events[i], new.market@),
    ensures
        bought(settings, start, events).contains(new.market@) == allowed(
            settings,
            new.collateral@,
        ),
    decreases events.len(),
{
    let market = new.market@;
    let shorter = events.drop_last();
    let before = state_after_all(settings, start, shorter);
    let so_far = bought(settings, start, shorter);
    let now = bought(settings, start, events);
    if first < shorter.len() {
        assert forall|i: int| 0 <= i < first implies !announces(
            #[trigger] shorter[i],
            market,
        ) by {
            assert(shorter[i] == events[i]);
        }
        assert(shorter[first] == events[first]);
        law_first_announcement_decides(settings, start, shorter, first, new);
        lemma_announced_is_known(settings, start, shorter, first, market);
        if step_of(settings, before, events.last()) is Buy {
            assert(events.last()->Log_0->0.market@ != market);
            assert(so_far.contains(market) ==> now.contains(market)) by {
                if so_far.contains(market) {
                    let k = choose|k: int| 0 <= k < so_far.len() && so_far[k] == market;
                    assert(now[k] == market);
                }
            }
            assert(now.contains(market) ==> so_far.contains(market)) by {
                if now.contains(market) {
                    let k = choose|k: int| 0 <= k < now.len() && now[k] == market;
                    assert(so_far[k] == market);
                }
            }
        }
    } else {
        assert forall|i: int| 0 <= i < shorter.len() implies !announces(
            #[trigger] shorter[i],
            market,
        ) by {
            assert(shorter[i] == events[i]);
        }
        lemma_known_by_announcement(settings, start, shorter, market);
        if so_far.contains(market) {
            lemma_bought_is_known(settings, start, shorter, market);
        }
        if allowed(settings, new.collateral@) {
            assert(now[now.len() - 1] == market);
        }
    }
}

/// Two events that differ at most in how a buy ended.
pub open spec fn same_but_outcome(a: WatchEvent, b: WatchEvent) -> bool {
    a == b || (a is BuyEnded && b is BuyEnded)
}

/// How a buy ends changes neither which markets are known nor which are bought.
pub proof fn law_outcomes_change_no_buys(
    settings: Settings,
    start: WatchState,
    a: Seq<WatchEvent>,
    b: Seq<WatchEvent>,
)
    requires
        a.len() == b.len(),
        forall|i: int| 0 <= i < a.len() ==> same_but_outcome(#[trigger] a[i], b[i]),
    ensures
        state_after_all(settings, start, a) == state_after_all(settings, start, b),
        bought(settings, start, a) == bought(settings, start, b),
    decreases a.len(),
{
    if a.len() > 0 {
        let x = a.drop_last();
        let y = b.drop_last();
        assert forall|i: int| 0 <= i < x.len() implies same_but_outcome(#[trigger] x[i], y[i]) by {
            assert(same_but_outcome(a[i], b[i]));
        }
        law_outcomes_change_no_buys(settings, start, x, y);
        assert(same_but_outcome(a[a.len() - 1], b[b.len() - 1]));
    }
}

/// A market that is being bought was bought and was not sampled; one that was
/// sampled was bought.
proof fn lemma_sampled_was_bought(settings: Settings, start: WatchState, events: Seq<WatchEvent>)
    requires
        start.buying is None,
    ensures
        state_after_all(settings, start, events).buying matches Some(market) ==> bought(
            settings,
            start,
            events,
        ).contains(market) && !sampled(settings, start, events).contains(market),
        forall|market: Seq<u8>|
            #[trigger] sampled(settings, start, events).contains(market) ==> bought(
                settings,
                start,
                events,
            ).contains(market),
        sampled(settings, start, events).no_duplicates(),
    decreases events.len(),
{
    if events.len() > 0 {
        let shorter = events.drop_last();
        lemma_sampled_was_bought(settings, start, shorter);
        let before = state_after_all(settings, start, shorter);
        let old_bought = bought(settings, start, shorter);
        let new_bought = bought(settings, start, events);
        let old_sampled = sampled(settings, start, shorter);
        let new_sampled = sampled(settings, start, events);
        let step = step_of(settings, before, events.last());
        assert forall|market: Seq<u8>| old_bought.contains(market) implies new_bought.contains(
            market,
        ) by {
            let k = choose|k: int| 0 <= k < old_bought.len() && old_bought[k] == market;
            assert(new_bought[k] == market);
        }
        if step is Buy {
            let market = events.last()->Log_0->0.market@;
            assert(new_bought[new_bought.len() - 1] == market);
            if old_sampled.contains(market) {
                lemma_bought_is_known(settings, start, shorter, market);
            }
        }
        assert forall|market: Seq<u8>| #[trigger] new_sampled.contains(market) implies
            new_bought.contains(market) by {
            let k = choose|k: int| 0 <= k < new_sampled.len() && new_sampled[k] == market;
            if k < old_sampled.len() {
                assert(old_sampled[k] == market);
                assert(old_sampled.contains(market));
            }
        }
        if let StepView::Sample { market } = step {
            assert forall|i: int| 0 <= i < old_sampled.len() implies old_sampled[i] != market by {
                if old_sampled[i] == market {
                    assert(old_sampled.contains(market));
                }
            }
        }
    }
}

/// Prices are sampled only when a buy is said to have succeeded, only of a market that
/// was bought, and of each at most once.
pub proof fn law_samples_follow_buys(
    settings: Settings,
    start: WatchState,
    events: Seq<WatchEvent>,
    event: WatchEvent,
)
    requires
        start.buying is None,
    ensures
        sampled(settings, start, events).no_duplicates(),
        forall|market: Seq<u8>|
            #[trigger] sampled(settings, start, events).contains(market) ==> bought(
                settings,
                start,
                events,
            ).contains(market),
        ({
            let state = state_after_all(settings, start, events);
            step_of(settings, state, event) matches StepView::Sample { market } ==> {
                &&& event == (WatchEvent::BuyEnded { bought: true })
                &&& state.buying == Some(market)
                &&& bought(settings, start, events).contains(market)
            }
        }),
{
    lemma_sampled_was_bought(settings, start, events);
}

/// A buy that succeeded right after it was asked for is followed by samples of its
/// market.
pub proof fn law_successful_buys_are_sampled(
    settings: Settings,
    state: WatchState,
    new: NewMarket,
)
    requires
        step_of(settings, state, WatchEvent::Log(Some(new))) is Buy,
    ensures
        ({
            let during = state_after(settings, state, WatchEvent::Log(Some(new)));
            &&& step_of(settings, during, WatchEvent::BuyEnded { bought: true })
                == (StepView::Sample { market: new.market@ })
            &&& step_of(settings, during, WatchEvent::BuyEnded { bought: false }) is Wait
        }),
{
}

} // verus!
