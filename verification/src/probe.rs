//! The capability to ask whether a host accepts connections.

use vstd::prelude::*;

verus! {

/// Something that can check whether a host is reachable.
///
/// `calls()` is the record of every probe made so far: the host asked about
/// and the answer given.  Nothing constrains the answers themselves — a real
/// probe answers from the network, and two probes of the same host may
/// disagree — so everything proved about the engine holds whatever the
/// answers turn out to be.
pub trait Probe {
    /// Every probe call made so far: the host asked about and the answer.
    /// Implementations meant for reasoning override this; the default is
    /// for implementations that only run, which nothing is proved about.
    open spec fn calls(&self) -> Seq<(Seq<char>, bool)> {
        Seq::empty()
    }

    /// Whether `host` currently accepts connections.  A malformed host name
    /// is simply not reachable; the call never fails otherwise.
    fn is_reachable(&mut self, host: &str) -> (reachable: bool)
        ensures
            final(self).calls() == old(self).calls().push((host@, reachable)),
    ;
}

/// A probe that answers from a script instead of a network: the k-th call
/// gets the k-th scripted answer, and every call past the script's end is
/// answered unreachable.  An empty script is a host that never comes up.
pub struct ScriptedProbe {
    pub answers: Vec<bool>,
    pub consumed: usize,
    pub log: Vec<(String, bool)>,
}

impl ScriptedProbe {
    /// A scripted probe that will give the `answers` in order.
    pub fn new(answers: Vec<bool>) -> (probe: ScriptedProbe)
        ensures
            probe.calls() == Seq::<(Seq<char>, bool)>::empty(),
            probe.answers == answers,
    {
        ScriptedProbe { answers, consumed: 0, log: Vec::new() }
    }
}

impl Probe for ScriptedProbe {
    open spec fn calls(&self) -> Seq<(Seq<char>, bool)> {
        self.log@.map_values(|e: (String, bool)| (e.0@, e.1))
    }

    fn is_reachable(&mut self, host: &str) -> (reachable: bool) {
        let reachable: bool = if self.consumed < self.answers.len() {
            let a: bool = self.answers[self.consumed];
            self.consumed = self.consumed + 1;
            a
        } else {
            false
        };
        let owned: String = host.to_owned();
        self.log.push((owned, reachable));
        proof {
            assert(self.calls() =~= old(self).calls().push((host@, reachable)));
        }
        reachable
    }
}

} // verus!
