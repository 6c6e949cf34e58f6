use wait::Config;
use wait::handler::CountingHandler;
use wait::probe::ScriptedProbe;
use wait::sleeper::RecordingSleeper;
use wait::wait;

fn config(hosts: &str, timeout: u64, wait_before: u64, wait_after: u64) -> Config {
    Config { hosts: hosts.to_string(), timeout, wait_before, wait_after }
}

#[test]
fn empty_host_list_only_sleeps_before_and_after() {
    let mut sleeper = RecordingSleeper::new();
    let mut probe = ScriptedProbe::new(vec![]);
    let mut handler = CountingHandler::new();
    let cfg = config("", 30, 2, 3);
    wait(&mut sleeper, &mut probe, &cfg, &mut handler);
    assert_eq!(vec![2, 3], sleeper.slept);
    assert!(probe.log.is_empty());
    assert_eq!(0, handler.count);
}

#[test]
fn whitespace_host_list_means_no_hosts() {
    let mut sleeper = RecordingSleeper::new();
    let mut probe = ScriptedProbe::new(vec![]);
    let mut handler = CountingHandler::new();
    let cfg = config("   ", 30, 5, 0);
    wait(&mut sleeper, &mut probe, &cfg, &mut handler);
    assert_eq!(vec![5], sleeper.slept);
    assert!(probe.log.is_empty());
    assert_eq!(0, handler.count);
}

#[test]
fn no_sleeps_at_all_when_waits_are_zero_and_no_hosts() {
    let mut sleeper = RecordingSleeper::new();
    let mut probe = ScriptedProbe::new(vec![]);
    let mut handler = CountingHandler::new();
    let cfg = config("", 30, 0, 0);
    wait(&mut sleeper, &mut probe, &cfg, &mut handler);
    assert!(sleeper.slept.is_empty());
    assert!(probe.log.is_empty());
    assert_eq!(0, handler.count);
}

#[test]
fn immediately_reachable_host_is_probed_once_without_sleeping() {
    let mut sleeper = RecordingSleeper::new();
    let mut probe = ScriptedProbe::new(vec![true]);
    let mut handler = CountingHandler::new();
    let cfg = config("localhost:1234", 30, 0, 0);
    wait(&mut sleeper, &mut probe, &cfg, &mut handler);
    assert_eq!(vec![("localhost:1234".to_string(), true)], probe.log);
    assert!(sleeper.slept.is_empty());
    assert_eq!(0, handler.count);
}

#[test]
fn unreachable_host_exhausts_the_budget_and_times_out() {
    let mut sleeper = RecordingSleeper::new();
    // an empty script: the host never answers reachable
    let mut probe = ScriptedProbe::new(vec![]);
    let mut handler = CountingHandler::new();
    let cfg = config("localhost:1234", 3, 0, 5);
    wait(&mut sleeper, &mut probe, &cfg, &mut handler);
    // timeout + 1 probes, a one-second sleep after each failure but the
    // last, the timeout fired once, and the post-wait was skipped
    assert_eq!(4, probe.log.len());
    for entry in &probe.log {
        assert_eq!(("localhost:1234".to_string(), false), *entry);
    }
    assert_eq!(vec![1, 1, 1], sleeper.slept);
    assert_eq!(1, handler.count);
}

#[test]
fn first_host_down_keeps_second_host_unprobed() {
    let mut sleeper = RecordingSleeper::new();
    let mut probe = ScriptedProbe::new(vec![]);
    let mut handler = CountingHandler::new();
    let cfg = config("alpha:1,beta:2", 3, 0, 0);
    wait(&mut sleeper, &mut probe, &cfg, &mut handler);
    assert_eq!(4, probe.log.len());
    for entry in &probe.log {
        assert_eq!(("alpha:1".to_string(), false), *entry);
    }
    assert_eq!(1, handler.count);
}

#[test]
fn later_hosts_inherit_the_spent_budget() {
    let mut sleeper = RecordingSleeper::new();
    // the first host fails twice before coming up; the second host then
    // has only one tolerated failure left out of three
    let mut probe = ScriptedProbe::new(vec![false, false, true]);
    let mut handler = CountingHandler::new();
    let cfg = config("alpha:1,beta:2", 3, 0, 0);
    wait(&mut sleeper, &mut probe, &cfg, &mut handler);
    assert_eq!(5, probe.log.len());
    assert_eq!(("alpha:1".to_string(), false), probe.log[0]);
    assert_eq!(("alpha:1".to_string(), false), probe.log[1]);
    assert_eq!(("alpha:1".to_string(), true), probe.log[2]);
    assert_eq!(("beta:2".to_string(), false), probe.log[3]);
    assert_eq!(("beta:2".to_string(), false), probe.log[4]);
    assert_eq!(vec![1, 1, 1], sleeper.slept);
    assert_eq!(1, handler.count);
}

#[test]
fn all_hosts_up_runs_every_phase() {
    let mut sleeper = RecordingSleeper::new();
    let mut probe = ScriptedProbe::new(vec![false, true, true]);
    let mut handler = CountingHandler::new();
    let cfg = config("alpha:1,beta:2", 30, 2, 3);
    wait(&mut sleeper, &mut probe, &cfg, &mut handler);
    assert_eq!(
        vec![
            ("alpha:1".to_string(), false),
            ("alpha:1".to_string(), true),
            ("beta:2".to_string(), true),
        ],
        probe.log
    );
    assert_eq!(vec![2, 1, 3], sleeper.slept);
    assert_eq!(0, handler.count);
}

#[test]
fn hosts_are_trimmed_before_probing() {
    let mut sleeper = RecordingSleeper::new();
    let mut probe = ScriptedProbe::new(vec![true, true]);
    let mut handler = CountingHandler::new();
    let cfg = config("  alpha:1 ,\tbeta:2  ", 30, 0, 0);
    wait(&mut sleeper, &mut probe, &cfg, &mut handler);
    assert_eq!(
        vec![("alpha:1".to_string(), true), ("beta:2".to_string(), true)],
        probe.log
    );
    assert_eq!(0, handler.count);
}

#[test]
fn empty_tokens_between_commas_are_probed_as_hosts() {
    let mut sleeper = RecordingSleeper::new();
    // the empty name is never reachable, so it exhausts the budget
    let mut probe = ScriptedProbe::new(vec![true]);
    let mut handler = CountingHandler::new();
    let cfg = config("alpha:1,,beta:2", 1, 0, 0);
    wait(&mut sleeper, &mut probe, &cfg, &mut handler);
    assert_eq!(
        vec![
            ("alpha:1".to_string(), true),
            ("".to_string(), false),
            ("".to_string(), false),
        ],
        probe.log
    );
    assert_eq!(vec![1], sleeper.slept);
    assert_eq!(1, handler.count);
}

#[test]
fn zero_timeout_tolerates_no_failure() {
    let mut sleeper = RecordingSleeper::new();
    let mut probe = ScriptedProbe::new(vec![]);
    let mut handler = CountingHandler::new();
    let cfg = config("alpha:1", 0, 0, 0);
    wait(&mut sleeper, &mut probe, &cfg, &mut handler);
    assert_eq!(vec![("alpha:1".to_string(), false)], probe.log);
    assert!(sleeper.slept.is_empty());
    assert_eq!(1, handler.count);
}
