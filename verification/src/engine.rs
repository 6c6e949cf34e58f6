//! The trace model of the wait engine.
//!
//! A run of the engine is described by three observations: the probe calls
//! it made (host and answer, in order), the sleeps it requested, and how
//! often the timeout reaction fired.  [`valid_run`] says which probe-call
//! traces the polling phase can produce, [`expected_sleeps`] which sleeps
//! accompany such a trace, and [`wait_behavior`] ties the three together;
//! it is the whole contract of [`crate::wait`].

use vstd::prelude::*;

use crate::Config;
use crate::strings::hosts_of;

verus! {

/// One probe call as the model sees it: the host probed and the answer.
pub type ProbeEvent = (Seq<char>, bool);

/// Whether `events` is a complete probe-call trace of the polling phase on
/// `hosts` when `budget` more failed attempts are tolerated, ending in a
/// timeout exactly when `timed_out`.
///
/// Hosts are polled strictly in order.  A reachable answer moves on to the
/// next host; an unreachable answer consumes one unit of the budget shared
/// by all hosts, and when the budget is already exhausted the run stops at
/// once with a timeout, later hosts never being probed.
pub open spec fn valid_run(
    hosts: Seq<Seq<char>>,
    budget: int,
    events: Seq<ProbeEvent>,
    timed_out: bool,
) -> bool
    decreases events.len(),
{
    if hosts.len() == 0 {
        events.len() == 0 && !timed_out
    } else if events.len() == 0 {
        false
    } else {
        let ev = events[0];
        ev.0 == hosts[0] && if ev.1 {
            valid_run(hosts.drop_first(), budget, events.drop_first(), timed_out)
        } else if budget <= 0 {
            events.len() == 1 && timed_out
        } else {
            valid_run(hosts, budget - 1, events.drop_first(), timed_out)
        }
    }
}

/// How many probe calls in `events` found their host unreachable.
pub open spec fn num_failures(events: Seq<ProbeEvent>) -> int
    decreases events.len(),
{
    if events.len() == 0 {
        0
    } else {
        (if events[0].1 {
            0int
        } else {
            1int
        }) + num_failures(events.drop_first())
    }
}

/// `n` one-second sleeps (none when `n` is negative).
pub open spec fn unit_sleeps(n: int) -> Seq<u64> {
    Seq::new(
        (if n < 0 {
            0int
        } else {
            n
        }) as nat,
        |i: int| 1u64,
    )
}

/// The sleep taken before polling: one of `wait_before` seconds, if any.
pub open spec fn pre_sleeps(c: Config) -> Seq<u64> {
    if c.wait_before > 0 {
        seq![c.wait_before]
    } else {
        Seq::empty()
    }
}

/// The sleep taken after polling: one of `wait_after` seconds, if any.
pub open spec fn post_sleeps(c: Config) -> Seq<u64> {
    if c.wait_after > 0 {
        seq![c.wait_after]
    } else {
        Seq::empty()
    }
}

/// The sleeps of a whole run with `failures` unreachable answers: the
/// pre-wait, one second after every unreachable answer except the one that
/// fired the timeout, and the post-wait only when no timeout fired.
pub open spec fn expected_sleeps(c: Config, failures: int, timed_out: bool) -> Seq<u64> {
    pre_sleeps(c) + unit_sleeps(
        failures - if timed_out {
            1int
        } else {
            0int
        },
    ) + if timed_out {
        Seq::empty()
    } else {
        post_sleeps(c)
    }
}

/// Everything one call of [`crate::wait`] guarantees, stated over what it
/// did: `events` are the probe calls it made, `slept` the sleeps it
/// requested, and `timeouts` how often it invoked the timeout reaction.
pub open spec fn wait_behavior(
    c: Config,
    events: Seq<ProbeEvent>,
    slept: Seq<u64>,
    timeouts: int,
) -> bool {
    &&& 0 <= timeouts <= 1
    &&& valid_run(hosts_of(c.hosts@), c.timeout as int, events, timeouts == 1)
    &&& slept == expected_sleeps(c, num_failures(events), timeouts == 1)
}

pub proof fn lemma_num_failures_push(events: Seq<ProbeEvent>, ev: ProbeEvent)
    ensures
        num_failures(events.push(ev)) == num_failures(events) + if ev.1 {
            0int
        } else {
            1int
        },
    decreases events.len(),
{
    let p = events.push(ev);
    assert(p.len() == events.len() + 1);
    assert(num_failures(p) == (if p[0].1 {
        0int
    } else {
        1int
    }) + num_failures(p.drop_first()));
    if events.len() == 0 {
        assert(p[0] == ev);
        assert(p.drop_first() =~= Seq::<ProbeEvent>::empty());
        assert(num_failures(p.drop_first()) == 0);
        assert(num_failures(events) == 0);
    } else {
        assert(p[0] == events[0]);
        assert(p.drop_first() =~= events.drop_first().push(ev));
        lemma_num_failures_push(events.drop_first(), ev);
        assert(num_failures(events) == (if events[0].1 {
            0int
        } else {
            1int
        }) + num_failures(events.drop_first()));
    }
}

/// In a trace whose answers are all unreachable, every call is a failure.
pub proof fn lemma_num_failures_all_false(events: Seq<ProbeEvent>)
    requires
        forall|i: int| 0 <= i < events.len() ==> !(#[trigger] events[i]).1,
    ensures
        num_failures(events) == events.len(),
    decreases events.len(),
{
    if events.len() > 0 {
        lemma_num_failures_all_false(events.drop_first());
    }
}

/// The engine's loop builds its trace front to back; this predicate says
/// that `events` is a partial trace that has reached host `idx` with
/// `count` failures spent, whatever the rest of the run turns out to be.
pub open spec fn extends_run(
    hosts: Seq<Seq<char>>,
    timeout: int,
    count: int,
    idx: int,
    events: Seq<ProbeEvent>,
) -> bool {
    forall|rest: Seq<ProbeEvent>, to: bool|
        #[trigger] valid_run(hosts.skip(idx), timeout - count, rest, to) ==> valid_run(
            hosts,
            timeout,
            events + rest,
            to,
        )
}

pub proof fn lemma_extends_init(hosts: Seq<Seq<char>>, timeout: int)
    ensures
        extends_run(hosts, timeout, 0, 0, Seq::empty()),
{
    assert forall|rest: Seq<ProbeEvent>, to: bool|
        #[trigger] valid_run(hosts.skip(0), timeout - 0, rest, to) implies valid_run(
        hosts,
        timeout,
        Seq::empty() + rest,
        to,
    ) by {
        assert(hosts.skip(0) =~= hosts);
        assert(Seq::<ProbeEvent>::empty() + rest =~= rest);
    }
}

/// A reachable answer for the current host moves the partial trace on to
/// the next host.
pub proof fn lemma_extends_success(
    hosts: Seq<Seq<char>>,
    timeout: int,
    count: int,
    idx: int,
    events: Seq<ProbeEvent>,
)
    requires
        extends_run(hosts, timeout, count, idx, events),
        0 <= idx < hosts.len(),
    ensures
        extends_run(hosts, timeout, count, idx + 1, events.push((hosts[idx], true))),
{
    let ev = (hosts[idx], true);
    assert forall|rest: Seq<ProbeEvent>, to: bool|
        #[trigger] valid_run(hosts.skip(idx + 1), timeout - count, rest, to) implies valid_run(
        hosts,
        timeout,
        events.push(ev) + rest,
        to,
    ) by {
        let grown = seq![ev] + rest;
        assert(grown[0] == ev);
        assert(grown.drop_first() =~= rest);
        assert(hosts.skip(idx).drop_first() =~= hosts.skip(idx + 1));
        assert(hosts.skip(idx)[0] == hosts[idx]);
        assert(valid_run(hosts.skip(idx), timeout - count, grown, to));
        assert(valid_run(hosts, timeout, events + grown, to));
        assert(events + grown =~= events.push(ev) + rest);
    }
}

/// An unreachable answer with budget still left spends one failure and
/// stays on the same host.
pub proof fn lemma_extends_failure(
    hosts: Seq<Seq<char>>,
    timeout: int,
    count: int,
    idx: int,
    events: Seq<ProbeEvent>,
)
    requires
        extends_run(hosts, timeout, count, idx, events),
        0 <= idx < hosts.len(),
        count < timeout,
    ensures
        extends_run(hosts, timeout, count + 1, idx, events.push((hosts[idx], false))),
{
    let ev = (hosts[idx], false);
    assert forall|rest: Seq<ProbeEvent>, to: bool|
        #[trigger] valid_run(hosts.skip(idx), timeout - (count + 1), rest, to) implies valid_run(
        hosts,
        timeout,
        events.push(ev) + rest,
        to,
    ) by {
        let grown = seq![ev] + rest;
        assert(grown[0] == ev);
        assert(grown.drop_first() =~= rest);
        assert(hosts.skip(idx)[0] == hosts[idx]);
        assert(valid_run(hosts.skip(idx), timeout - count, grown, to));
        assert(valid_run(hosts, timeout, events + grown, to));
        assert(events + grown =~= events.push(ev) + rest);
    }
}

/// An unreachable answer with the budget exhausted completes the trace
/// with a timeout.
pub proof fn lemma_extends_timeout(
    hosts: Seq<Seq<char>>,
    timeout: int,
    count: int,
    idx: int,
    events: Seq<ProbeEvent>,
)
    requires
        extends_run(hosts, timeout, count, idx, events),
        0 <= idx < hosts.len(),
        count >= timeout,
    ensures
        valid_run(hosts, timeout, events.push((hosts[idx], false)), true),
{
    let ev = (hosts[idx], false);
    let last = seq![ev];
    assert(last[0] == ev);
    assert(hosts.skip(idx)[0] == hosts[idx]);
    assert(hosts.skip(idx).len() > 0);
    assert(valid_run(hosts.skip(idx), timeout - count, last, true));
    assert(valid_run(hosts, timeout, events + last, true));
    assert(events + last =~= events.push(ev));
}

/// With nothing to check, the engine probes nothing and never times out:
/// the whole run is the pre-wait sleep (if any) followed by the post-wait
/// sleep (if any).
pub proof fn lemma_wait_no_hosts(c: Config, events: Seq<ProbeEvent>, slept: Seq<u64>, timeouts: int)
    requires
        wait_behavior(c, events, slept, timeouts),
        hosts_of(c.hosts@).len() == 0,
    ensures
        timeouts == 0,
        events.len() == 0,
        slept == pre_sleeps(c) + post_sleeps(c),
{
    assert(num_failures(events) == 0);
    assert(unit_sleeps(0) =~= Seq::<u64>::empty());
    assert(expected_sleeps(c, 0, false) =~= pre_sleeps(c) + post_sleeps(c));
}

/// A single host that answers reachable at once is probed exactly once,
/// no one-second sleep is ever taken, and no timeout fires.
pub proof fn lemma_wait_immediate_success(
    c: Config,
    events: Seq<ProbeEvent>,
    slept: Seq<u64>,
    timeouts: int,
    h: Seq<char>,
)
    requires
        wait_behavior(c, events, slept, timeouts),
        hosts_of(c.hosts@) == seq![h],
        forall|i: int| 0 <= i < events.len() ==> (#[trigger] events[i]).1,
    ensures
        timeouts == 0,
        events.len() == 1,
        events[0] == (h, true),
        slept == pre_sleeps(c) + post_sleeps(c),
{
    let hosts = seq![h];
    assert(hosts[0] == h);
    assert(events.len() > 0);
    assert(events[0].1);
    assert(hosts.drop_first() =~= Seq::<Seq<char>>::empty());
    if timeouts == 1 {
        assert(valid_run(hosts.drop_first(), c.timeout as int, events.drop_first(), true));
        assert(false);
    }
    assert(valid_run(hosts.drop_first(), c.timeout as int, events.drop_first(), false));
    assert(events.drop_first().len() == 0);
    assert(events[0] == (h, true));
    assert(num_failures(events) == num_failures(events.drop_first()));
    assert(num_failures(events) == 0);
    assert(unit_sleeps(0) =~= Seq::<u64>::empty());
    assert(expected_sleeps(c, 0, false) =~= pre_sleeps(c) + post_sleeps(c));
}

/// In any run whose first host never answers reachable, that host alone
/// exhausts the whole budget: the trace is `budget + 1` failed probes of
/// it, ending in a timeout, and no other host is ever probed.
pub proof fn lemma_run_first_host_down(
    hosts: Seq<Seq<char>>,
    budget: int,
    events: Seq<ProbeEvent>,
    timed_out: bool,
)
    requires
        valid_run(hosts, budget, events, timed_out),
        hosts.len() > 0,
        budget >= 0,
        forall|i: int|
            0 <= i < events.len() && (#[trigger] events[i]).0 == hosts[0] ==> !events[i].1,
    ensures
        timed_out,
        events.len() == budget + 1,
        forall|i: int| 0 <= i < events.len() ==> #[trigger] events[i] == (hosts[0], false),
    decreases events.len(),
{
    assert(events.len() > 0);
    assert(events[0].0 == hosts[0]);
    assert(!events[0].1);
    assert(events[0] == (hosts[0], false));
    if budget <= 0 {
        assert(events.len() == 1);
    } else {
        let rest = events.drop_first();
        assert(forall|i: int|
            0 <= i < rest.len() && (#[trigger] rest[i]).0 == hosts[0] ==> !rest[i].1) by {
            assert(forall|i: int| 0 <= i < rest.len() ==> rest[i] == events[i + 1]);
        }
        lemma_run_first_host_down(hosts, budget - 1, rest, timed_out);
        assert(forall|i: int| 1 <= i < events.len() ==> #[trigger] events[i] == rest[i - 1]);
    }
}

/// A single host that never answers reachable, with `timeout` set to `T`,
/// is probed `T + 1` times; a one-second sleep follows each failure except
/// the last, the timeout fires exactly once, and the post-wait is skipped.
pub proof fn lemma_wait_unreachable_times_out(
    c: Config,
    events: Seq<ProbeEvent>,
    slept: Seq<u64>,
    timeouts: int,
    h: Seq<char>,
)
    requires
        wait_behavior(c, events, slept, timeouts),
        hosts_of(c.hosts@) == seq![h],
        forall|i: int| 0 <= i < events.len() ==> !(#[trigger] events[i]).1,
    ensures
        timeouts == 1,
        events.len() == c.timeout + 1,
        forall|i: int| 0 <= i < events.len() ==> #[trigger] events[i] == (h, false),
        slept == pre_sleeps(c) + unit_sleeps(c.timeout as int),
{
    let hosts = seq![h];
    assert(hosts[0] == h);
    lemma_run_first_host_down(hosts, c.timeout as int, events, timeouts == 1);
    lemma_num_failures_all_false(events);
    assert(expected_sleeps(c, c.timeout + 1, true) =~= pre_sleeps(c) + unit_sleeps(
        c.timeout as int,
    ));
}

/// The attempt budget is shared, not per host: with two hosts of which the
/// first never answers reachable, the first alone exhausts the budget, the
/// timeout fires, and the second host is never probed at all.
pub proof fn lemma_wait_shared_budget(
    c: Config,
    events: Seq<ProbeEvent>,
    slept: Seq<u64>,
    timeouts: int,
    first: Seq<char>,
    second: Seq<char>,
)
    requires
        wait_behavior(c, events, slept, timeouts),
        hosts_of(c.hosts@) == seq![first, second],
        forall|i: int|
            0 <= i < events.len() && (#[trigger] events[i]).0 == first ==> !events[i].1,
    ensures
        timeouts == 1,
        events.len() == c.timeout + 1,
        forall|i: int| 0 <= i < events.len() ==> #[trigger] events[i] == (first, false),
        first != second ==> forall|i: int| 0 <= i < events.len() ==> (#[trigger] events[i]).0
            != second,
        slept == pre_sleeps(c) + unit_sleeps(c.timeout as int),
{
    let hosts = seq![first, second];
    assert(hosts[0] == first);
    lemma_run_first_host_down(hosts, c.timeout as int, events, timeouts == 1);
    assert(forall|i: int| 0 <= i < events.len() ==> !(#[trigger] events[i]).1);
    lemma_num_failures_all_false(events);
    assert(expected_sleeps(c, c.timeout + 1, true) =~= pre_sleeps(c) + unit_sleeps(
        c.timeout as int,
    ));
}

/// Whether some probe call in `events` found host `h` reachable.
pub open spec fn answered_reachable(h: Seq<char>, events: Seq<ProbeEvent>) -> bool {
    exists|j: int| 0 <= j < events.len() && #[trigger] events[j] == (h, true)
}

/// A run that ends without a timeout saw every configured host answer
/// reachable at least once: success never skips a host.
pub proof fn lemma_run_success_reaches_every_host(
    hosts: Seq<Seq<char>>,
    budget: int,
    events: Seq<ProbeEvent>,
)
    requires
        valid_run(hosts, budget, events, false),
    ensures
        forall|k: int| 0 <= k < hosts.len() ==> answered_reachable(#[trigger] hosts[k], events),
    decreases events.len(),
{
    if hosts.len() > 0 {
        let ev = events[0];
        let rest = events.drop_first();
        assert(forall|j: int| 0 <= j < rest.len() ==> #[trigger] rest[j] == events[j + 1]);
        if ev.1 {
            assert(events[0] == (hosts[0], true));
            assert(answered_reachable(hosts[0], events));
            let tail = hosts.drop_first();
            lemma_run_success_reaches_every_host(tail, budget, rest);
            assert forall|k: int| 1 <= k < hosts.len() implies answered_reachable(
                hosts[k],
                events,
            ) by {
                assert(answered_reachable(tail[k - 1], rest));
                let j0 = choose|j: int| 0 <= j < rest.len() && #[trigger] rest[j] == (
                    tail[k - 1],
                    true,
                );
                assert(events[j0 + 1] == (hosts[k], true));
            }
        } else {
            lemma_run_success_reaches_every_host(hosts, budget - 1, rest);
            assert forall|k: int| 0 <= k < hosts.len() implies answered_reachable(
                hosts[k],
                events,
            ) by {
                assert(answered_reachable(hosts[k], rest));
                let j0 = choose|j: int| 0 <= j < rest.len() && #[trigger] rest[j] == (
                    hosts[k],
                    true,
                );
                assert(events[j0 + 1] == (hosts[k], true));
            }
        }
    }
}

/// Once every host has answered, the partial trace is a complete run
/// without a timeout.
pub proof fn lemma_extends_complete(
    hosts: Seq<Seq<char>>,
    timeout: int,
    count: int,
    events: Seq<ProbeEvent>,
)
    requires
        extends_run(hosts, timeout, count, hosts.len() as int, events),
    ensures
        valid_run(hosts, timeout, events, false),
{
    assert(hosts.skip(hosts.len() as int) =~= Seq::<Seq<char>>::empty());
    assert(valid_run(hosts.skip(hosts.len() as int), timeout - count, Seq::empty(), false));
    assert(valid_run(hosts, timeout, events + Seq::empty(), false));
    assert(events + Seq::<ProbeEvent>::empty() =~= events);
}

} // verus!
