//! The pace of requests: how long each one waits for its turn. Times are counted
//! in nanoseconds from a common start.
use vstd::prelude::*;

verus! {

/// The nanoseconds of a second.
pub open spec fn second() -> int {
    1_000_000_000
}

/// The number of requests in a second; zero counts as one.
pub open spec fn pace(max_requests_per_second: nat) -> int {
    if max_requests_per_second == 0 {
        1
    } else {
        max_requests_per_second as int
    }
}

/// The time between two requests at a pace: the nanoseconds of a second over the
/// number of requests, rounded up.
pub open spec fn interval_ns(max_requests_per_second: nat) -> int {
    (second() + pace(max_requests_per_second) - 1) / pace(max_requests_per_second)
}

/// The pace of requests. All handles of one limiter hand their requests to this one
/// value, so it cannot be copied.
#[derive(Debug)]
pub struct RpcRateLimiter {
    pub min_interval_ns: u64,
    pub next_slot_ns: u128,
}

/// How long a request that comes at `now` waits.
pub open spec fn wait_ns(limiter: RpcRateLimiter, now_ns: nat) -> nat {
    if limiter.next_slot_ns > now_ns {
        (limiter.next_slot_ns - now_ns) as nat
    } else {
        0
    }
}

/// The limiter after a request was let go at `now`.
pub open spec fn after_grant(limiter: RpcRateLimiter, now_ns: nat) -> RpcRateLimiter {
    RpcRateLimiter { next_slot_ns: (now_ns + limiter.min_interval_ns) as u128, ..limiter }
}

impl RpcRateLimiter {
    /// A limiter at a pace, from `now` on. A pace of zero is a pace of one, and the
    /// first request does not wait.
    pub fn new(max_requests_per_second: u32, now_ns: u128) -> (limiter: RpcRateLimiter)
        ensures
            limiter.min_interval_ns == interval_ns(max_requests_per_second as nat),
            limiter.next_slot_ns == now_ns,
            max_requests_per_second == 0 ==> limiter.min_interval_ns == interval_ns(1),
            forall|later: nat| later >= now_ns ==> #[trigger] wait_ns(limiter, later) == 0,
    {
        let rate: u64 = if max_requests_per_second == 0 {
            1
        } else {
            max_requests_per_second as u64
        };
        let whole: u64 = 1_000_000_000 / rate;
        proof {
            lemma_round_up(1_000_000_000, rate as int);
            assert(1_000_000_000int / (rate as int) <= 1_000_000_000) by (nonlinear_arith)
                requires
                    rate > 0,
            ;
        }
        let min_interval_ns: u64 = if 1_000_000_000 % rate == 0 {
            whole
        } else {
            whole + 1
        };
        RpcRateLimiter { min_interval_ns, next_slot_ns: now_ns }
    }

    /// How long a request that comes at `now` waits.
    pub fn wait(&self, now_ns: u128) -> (wait: u128)
        ensures
            wait == wait_ns(*self, now_ns as nat),
    {
        if self.next_slot_ns > now_ns {
            self.next_slot_ns - now_ns
        } else {
            0
        }
    }

    /// Notes that a request was let go at `now`: the next one waits for a full
    /// interval from then.
    pub fn grant(&mut self, now_ns: u128)
        requires
            now_ns + old(self).min_interval_ns <= u128::MAX,
        ensures
            *final(self) == after_grant(*old(self), now_ns as nat),
    {
        self.next_slot_ns = now_ns + self.min_interval_ns as u128;
    }
}

/// A quotient that is rounded up is the quotient, or one more where there is a remainder.
proof fn lemma_round_up(a: int, b: int)
    requires
        a > 0,
        b > 0,
    ensures
        (a + b - 1) / b == if a % b == 0 {
            a / b
        } else {
            a / b + 1
        },
{
    let q = a / b;
    let r = a % b;
    vstd::arithmetic::div_mod::lemma_fundamental_div_mod(a, b);
    if r == 0 {
        assert(a + b - 1 == b * q + (b - 1));
        vstd::arithmetic::div_mod::lemma_fundamental_div_mod_converse(a + b - 1, b, q, b - 1);
    } else {
        assert(a + b - 1 == b * (q + 1) + (r - 1)) by (nonlinear_arith)
            requires
                a == b * q + r,
        ;
        vstd::arithmetic::div_mod::lemma_fundamental_div_mod_converse(
            a + b - 1,
            b,
            q + 1,
            r - 1,
        );
    }
}

/// The interval is the shortest at which no more requests than the pace allows go in a
/// second: so many intervals last a second, and with intervals one nanosecond shorter
/// they would not.
pub proof fn law_the_interval_is_the_shortest(max_requests_per_second: nat)
    ensures
        ({
            let rate = if max_requests_per_second == 0 {
                1
            } else {
                max_requests_per_second as int
            };
            let interval = interval_ns(max_requests_per_second);
            interval * rate >= 1_000_000_000 && (interval - 1) * rate < 1_000_000_000
        }),
        interval_ns(0) == interval_ns(1),
        interval_ns(1) == 1_000_000_000,
{
    let rate = pace(max_requests_per_second);
    lemma_round_up(second(), rate);
    vstd::arithmetic::div_mod::lemma_fundamental_div_mod(second(), rate);
    let q = second() / rate;
    let r = second() % rate;
    let interval = interval_ns(max_requests_per_second);
    assert(interval * rate >= 1_000_000_000 && (interval - 1) * rate < 1_000_000_000)
        by (nonlinear_arith)
        requires
            1_000_000_000 == rate * q + r,
            0 <= r < rate,
            interval == if r == 0 {
                q
            } else {
                q + 1
            },
    ;
}

/// A request waits until the next slot and no longer, and not at all where the slot has
/// come; one that comes as another is let go waits for one interval.
pub proof fn law_requests_wait_for_their_slot(limiter: RpcRateLimiter, now_ns: nat)
    ensures
        now_ns < limiter.next_slot_ns ==> now_ns + wait_ns(limiter, now_ns)
            == limiter.next_slot_ns,
        now_ns >= limiter.next_slot_ns ==> wait_ns(limiter, now_ns) == 0,
        now_ns + limiter.min_interval_ns <= u128::MAX ==> {
            let after = after_grant(limiter, now_ns);
            &&& after.min_interval_ns == limiter.min_interval_ns
            &&& after.next_slot_ns == now_ns + limiter.min_interval_ns
            &&& wait_ns(after, now_ns) == limiter.min_interval_ns
        },
{
}

/// A request: by which handle of the limiter it was made, when it came, and when it
/// was let go.
pub struct Served {
    pub handle: nat,
    pub came: nat,
    pub granted: nat,
}

/// The limiter after some requests were let go. Which handle made them changes nothing.
pub open spec fn after_all(limiter: RpcRateLimiter, served: Seq<Served>) -> RpcRateLimiter
    decreases served.len(),
{
    if served.len() == 0 {
        limiter
    } else {
        after_grant(after_all(limiter, served.drop_last()), served.last().granted)
    }
}

/// Requests that were let go one after the other, each no earlier than the limiter has
/// it wait, and before the clock runs out.
pub open spec fn paced(limiter: RpcRateLimiter, served: Seq<Served>) -> bool {
    forall|i: int|
        0 <= i < served.len() ==> {
            &&& (#[trigger] served[i]).granted >= served[i].came + wait_ns(
                after_all(limiter, served.take(i)),
                served[i].came,
            )
            &&& served[i].granted + limiter.min_interval_ns <= u128::MAX
        }
}

/// The limiter keeps its interval, and its next slot is one interval behind the last
/// request.
proof fn lemma_after_all(limiter: RpcRateLimiter, served: Seq<Served>, n: int)
    requires
        paced(limiter, served),
        0 <= n <= served.len(),
    ensures
        after_all(limiter, served.take(n)).min_interval_ns == limiter.min_interval_ns,
        n > 0 ==> after_all(limiter, served.take(n)).next_slot_ns == served[n - 1].granted
            + limiter.min_interval_ns,
    decreases n,
{
    if n > 0 {
        lemma_after_all(limiter, served, n - 1);
        assert(served.take(n).drop_last() =~= served.take(n - 1));
        assert(served.take(n).last() == served[n - 1]);
    }
}

/// All handles share one budget: two requests are let go at least one interval apart,
/// whichever handles made them, and any number of them at least as many intervals
/// apart as lie between them.
pub proof fn law_requests_are_spaced(
    limiter: RpcRateLimiter,
    served: Seq<Served>,
    i: int,
    j: int,
)
    requires
        paced(limiter, served),
        0 <= i <= j < served.len(),
    ensures
        served[j].granted >= served[i].granted + (j - i) * limiter.min_interval_ns,
    decreases j - i,
{
    let interval = limiter.min_interval_ns as int;
    if i < j {
        law_requests_are_spaced(limiter, served, i, j - 1);
        lemma_after_all(limiter, served, j);
        assert(served[j].granted >= served[j - 1].granted + interval);
        assert((j - i) * interval == (j - 1 - i) * interval + interval) by (nonlinear_arith);
    } else {
        assert((j - i) * interval == 0) by (nonlinear_arith)
            requires
                i == j,
        ;
    }
}

/// When a request is let go does not depend on which handles made the requests
/// before it.
pub proof fn law_handles_share_one_budget(
    limiter: RpcRateLimiter,
    a: Seq<Served>,
    b: Seq<Served>,
    came: nat,
)
    requires
        a.len() == b.len(),
        forall|i: int| 0 <= i < a.len() ==> (#[trigger] a[i]).granted == b[i].granted,
    ensures
        after_all(limiter, a) == after_all(limiter, b),
        wait_ns(after_all(limiter, a), came) == wait_ns(after_all(limiter, b), came),
    decreases a.len(),
{
    if a.len() > 0 {
        let x = a.drop_last();
        let y = b.drop_last();
        assert forall|i: int| 0 <= i < x.len() implies (#[trigger] x[i]).granted
            == y[i].granted by {
            assert(a[i].granted == b[i].granted);
        }
        law_handles_share_one_budget(limiter, x, y, came);
        assert(a[a.len() - 1].granted == b[b.len() - 1].granted);
    }
}

/// No more requests than the pace allows are let go within a second, over all handles
/// together: of one more than that, the last is let go at least a second after the first.
pub proof fn law_pace_is_kept(
    limiter: RpcRateLimiter,
    max_requests_per_second: nat,
    served: Seq<Served>,
    i: int,
)
    requires
        limiter.min_interval_ns == interval_ns(max_requests_per_second),
        paced(limiter, served),
        0 <= i,
        i + pace(max_requests_per_second) < served.len(),
    ensures
        served[i + pace(max_requests_per_second)].granted >= served[i].granted + second(),
{
    let rate = pace(max_requests_per_second);
    let interval = limiter.min_interval_ns as int;
    law_requests_are_spaced(limiter, served, i, i + rate);
    lemma_round_up(second(), rate);
    vstd::arithmetic::div_mod::lemma_fundamental_div_mod(second(), rate);
    let q = second() / rate;
    let r = second() % rate;
    assert(rate * interval >= second()) by (nonlinear_arith)
        requires
            second() == rate * q + r,
            0 <= r < rate,
            interval == if r == 0 {
                q
            } else {
                q + 1
            },
    ;
}

} // verus!
