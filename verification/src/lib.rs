//! Wait for a set of network hosts to become reachable before letting a
//! dependent process proceed.
//!
//! The library is the decision core of a startup gate: it holds the
//! configuration record, the numeric parsing of configuration values, and
//! the polling engine that probes each host in turn until every host answers
//! or a shared attempt budget runs out.  Sleeping, probing and the timeout
//! reaction are capabilities passed in by the caller, so the engine itself
//! is a pure function of its inputs.

pub mod engine;
pub mod handler;
pub mod parse;
pub mod probe;
pub mod sleeper;
pub mod strings;

use vstd::prelude::*;

use crate::engine::ProbeEvent;
use crate::engine::expected_sleeps;
use crate::engine::extends_run;
use crate::engine::lemma_extends_complete;
use crate::engine::lemma_extends_failure;
use crate::engine::lemma_extends_init;
use crate::engine::lemma_extends_success;
use crate::engine::lemma_extends_timeout;
use crate::engine::lemma_num_failures_push;
use crate::engine::num_failures;
use crate::engine::pre_sleeps;
use crate::engine::unit_sleeps;
use crate::engine::wait_behavior;
use crate::handler::TimeoutHandler;
use crate::parse::spec_to_int;
use crate::probe::Probe;
use crate::sleeper::Sleeper;
use crate::strings::host_views;
use crate::strings::hosts_of;
use crate::strings::split_hosts;

verus! {

/// The startup gate's configuration.
///
/// `hosts` is a comma-separated list of host identifiers (an empty or
/// all-whitespace string means there is nothing to check); `timeout` is the
/// number of failed probe attempts tolerated across all hosts before the
/// timeout reaction fires; `wait_before` and `wait_after` are fixed sleeps,
/// in seconds, taken before and after the polling phase.
pub struct Config {
    pub hosts: String,
    pub timeout: u64,
    pub wait_before: u64,
    pub wait_after: u64,
}

/// Wait until every configured host is reachable or the shared timeout
/// budget runs out.
///
/// The run has three phases.  First the pre-wait: one sleep of
/// `wait_before` seconds, if that is positive.  Then polling: the hosts of
/// the configured list, in order, are each probed until reachable; every
/// unreachable answer spends one unit of a budget of `timeout` failed
/// attempts shared by all hosts, followed by a one-second sleep — except
/// that the answer which finds the budget already spent invokes
/// `on_timeout` once and ends the run at once, later hosts never being
/// probed.  Last, only when no timeout fired, the post-wait: one sleep of
/// `wait_after` seconds, if that is positive.
///
/// The contract states exactly this over the records of the three
/// capabilities: see [`engine::wait_behavior`].
#[verifier::loop_isolation(false)]
pub fn wait<S: Sleeper, P: Probe, C: TimeoutHandler>(
    sleep: &mut S,
    probe: &mut P,
    config: &Config,
    on_timeout: &mut C,
)
    requires
        old(on_timeout).fired() < u64::MAX,
    ensures
        old(sleep).sleeps().is_prefix_of(final(sleep).sleeps()),
        old(probe).calls().is_prefix_of(final(probe).calls()),
        old(on_timeout).fired() <= final(on_timeout).fired(),
        wait_behavior(
            *config,
            final(probe).calls().skip(old(probe).calls().len() as int),
            final(sleep).sleeps().skip(old(sleep).sleeps().len() as int),
            final(on_timeout).fired() - old(on_timeout).fired(),
        ),
{
    let ghost sleeps0: Seq<u64> = sleep.sleeps();
    let ghost calls0: Seq<ProbeEvent> = probe.calls();
    if config.wait_before > 0 {
        sleep.sleep(config.wait_before);
    }
    proof {
        assert(sleep.sleeps() =~= sleeps0 + pre_sleeps(*config));
    }
    let hosts: Vec<String> = split_hosts(config.hosts.as_str());
    let ghost hs: Seq<Seq<char>> = hosts_of(config.hosts@);
    let ghost mut events: Seq<ProbeEvent> = Seq::empty();
    proof {
        lemma_extends_init(hs, config.timeout as int);
        assert(calls0 + events =~= calls0);
        assert(unit_sleeps(0) =~= Seq::<u64>::empty());
        assert(sleeps0 + pre_sleeps(*config) + unit_sleeps(0) =~= sleeps0 + pre_sleeps(*config));
    }
    let mut count: u64 = 0;
    let mut i: usize = 0;
    while i < hosts.len()
        invariant
            i <= hosts.len(),
            count <= config.timeout,
            probe.calls() == calls0 + events,
            num_failures(events) == count,
            extends_run(hs, config.timeout as int, count as int, i as int, events),
            sleep.sleeps() == sleeps0 + pre_sleeps(*config) + unit_sleeps(count as int),
            on_timeout.fired() == old(on_timeout).fired(),
        decreases hosts.len() - i,
    {
        let host: &String = &hosts[i];
        proof {
            assert(host@ == host_views(hosts@)[i as int]);
        }
        let mut host_up: bool = false;
        while !host_up
            invariant
                i < hosts.len(),
                count <= config.timeout,
                probe.calls() == calls0 + events,
                num_failures(events) == count,
                !host_up ==> extends_run(hs, config.timeout as int, count as int, i as int, events),
                host_up ==> extends_run(
                    hs,
                    config.timeout as int,
                    count as int,
                    i as int + 1,
                    events,
                ),
                sleep.sleeps() == sleeps0 + pre_sleeps(*config) + unit_sleeps(count as int),
                on_timeout.fired() == old(on_timeout).fired(),
            decreases config.timeout - count + if host_up {
                0int
            } else {
                1int
            },
        {
            let reachable: bool = probe.is_reachable(host.as_str());
            let ghost ev: ProbeEvent = (host@, reachable);
            proof {
                assert(probe.calls() =~= calls0 + events.push(ev));
                lemma_num_failures_push(events, ev);
            }
            if reachable {
                proof {
                    lemma_extends_success(hs, config.timeout as int, count as int, i as int, events);
                    events = events.push(ev);
                }
                host_up = true;
            } else if count >= config.timeout {
                proof {
                    lemma_extends_timeout(hs, config.timeout as int, count as int, i as int, events);
                    events = events.push(ev);
                }
                on_timeout.on_timeout();
                proof {
                    lemma_wait_return(calls0, sleeps0, *config, events, probe.calls(), sleep.sleeps(), count as int, true);
                }
                return ;
            } else {
                proof {
                    lemma_extends_failure(hs, config.timeout as int, count as int, i as int, events);
                    events = events.push(ev);
                }
                count = count + 1;
                sleep.sleep(1);
                proof {
                    assert(unit_sleeps(count as int) =~= unit_sleeps(count - 1).push(1u64));
                    assert(sleep.sleeps() =~= sleeps0 + pre_sleeps(*config) + unit_sleeps(
                        count as int,
                    ));
                }
            }
        }
        i = i + 1;
    }
    proof {
        lemma_extends_complete(hs, config.timeout as int, count as int, events);
    }
    if config.wait_after > 0 {
        sleep.sleep(config.wait_after);
    }
    proof {
        assert(sleep.sleeps() =~= sleeps0 + pre_sleeps(*config) + unit_sleeps(count as int)
            + crate::engine::post_sleeps(*config));
        lemma_wait_return(calls0, sleeps0, *config, events, probe.calls(), sleep.sleeps(), count as int, false);
    }
}

/// Gather the facts the engine's loop maintains into the shape of `wait`'s
/// postcondition.
proof fn lemma_wait_return(
    calls0: Seq<ProbeEvent>,
    sleeps0: Seq<u64>,
    c: Config,
    events: Seq<ProbeEvent>,
    calls: Seq<ProbeEvent>,
    sleeps: Seq<u64>,
    count: int,
    timed_out: bool,
)
    requires
        calls == calls0 + events,
        valid_run_of(c, events, timed_out),
        num_failures(events) == count + if timed_out {
            1int
        } else {
            0int
        },
        sleeps == if timed_out {
            sleeps0 + pre_sleeps(c) + unit_sleeps(count)
        } else {
            sleeps0 + pre_sleeps(c) + unit_sleeps(count) + crate::engine::post_sleeps(c)
        },
    ensures
        calls0.is_prefix_of(calls),
        sleeps0.is_prefix_of(sleeps),
        wait_behavior(
            c,
            calls.skip(calls0.len() as int),
            sleeps.skip(sleeps0.len() as int),
            if timed_out {
                1int
            } else {
                0int
            },
        ),
{
    assert(calls.skip(calls0.len() as int) =~= events);
    assert(calls.subrange(0, calls0.len() as int) =~= calls0);
    assert(sleeps.subrange(0, sleeps0.len() as int) =~= sleeps0);
    let slept = sleeps.skip(sleeps0.len() as int);
    if timed_out {
        assert(slept =~= pre_sleeps(c) + unit_sleeps(count));
        assert(expected_sleeps(c, count + 1, true) =~= pre_sleeps(c) + unit_sleeps(count));
    } else {
        assert(slept =~= pre_sleeps(c) + unit_sleeps(count) + crate::engine::post_sleeps(c));
        assert(expected_sleeps(c, count, false) =~= pre_sleeps(c) + unit_sleeps(count)
            + crate::engine::post_sleeps(c));
    }
}

/// Whether `events` is a complete probe trace for configuration `c`.
pub open spec fn valid_run_of(c: Config, events: Seq<ProbeEvent>, timed_out: bool) -> bool {
    crate::engine::valid_run(hosts_of(c.hosts@), c.timeout as int, events, timed_out)
}

/// The string value of an environment variable, with absence read as the
/// empty string.
pub open spec fn env_value(v: Option<String>) -> Seq<char> {
    match v {
        Some(s) => s@,
        None => Seq::empty(),
    }
}

/// Build a [`Config`] from the raw values of the four environment
/// variables, applying the documented defaults: an empty host list, a
/// timeout of 30 attempts, and no pre- or post-wait.
pub fn config_from_env(
    hosts: Option<String>,
    timeout: Option<String>,
    wait_before: Option<String>,
    wait_after: Option<String>,
) -> (config: Config)
    ensures
        config.hosts@ == env_value(hosts),
        config.timeout == spec_to_int(env_value(timeout), 30),
        config.wait_before == spec_to_int(env_value(wait_before), 0),
        config.wait_after == spec_to_int(env_value(wait_after), 0),
{
    Config {
        hosts: match hosts {
            Some(s) => s,
            None => String::new(),
        },
        timeout: to_int(
            match timeout {
                Some(s) => s,
                None => String::new(),
            },
            30,
        ),
        wait_before: to_int(
            match wait_before {
                Some(s) => s,
                None => String::new(),
            },
            0,
        ),
        wait_after: to_int(
            match wait_after {
                Some(s) => s,
                None => String::new(),
            },
            0,
        ),
    }
}

/// Parse `number` as a non-negative integer, yielding `default` when it is
/// empty, not numeric, negative, or too large.
pub fn to_int(number: String, default: u64) -> (value: u64)
    ensures
        value == spec_to_int(number@, default),
{
    crate::parse::parse_decimal(number.as_str(), default)
}

} // verus!
