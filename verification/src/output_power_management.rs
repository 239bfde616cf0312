//! Output power management: one client at a time controls whether an
//! output is powered.
//!
//! Outputs and power control objects are named by integer handles.
use vstd::prelude::*;

use crate::keyed::{has_key, key_index, keys_distinct, lookup};

verus! {

/// The power control objects by the output they control.
#[derive(Debug)]
pub struct OutputPowerManagementState {
    clients: Vec<(u64, u64)>,
}

/// The answer to a request for power control of an output.
#[derive(Debug, Clone, Copy, PartialEq, Eq, Structural)]
pub enum PowerGrant {
    /// The control fails at once.
    Failed,
    /// The client controls the output; it is told whether the output is on.
    Granted { on: bool },
}

/// What a request to set an output's power mode does.
#[derive(Debug, Clone, Copy, PartialEq, Eq, Structural)]
pub enum PowerModeChange {
    /// The object controls no output: nothing happens.
    Ignore,
    /// A protocol error: the mode is neither off nor on.
    InvalidMode,
    /// The output is powered on or off.
    Apply { output: u64, powered: bool },
}

/// The entries whose control object is `power`, in order.
pub open spec fn only_power<K>(s: Seq<(K, u64)>, power: u64) -> Seq<(K, u64)>
    decreases s.len(),
{
    if s.len() == 0 {
        Seq::empty()
    } else {
        let rest = only_power(s.drop_last(), power);
        if s.last().1 == power {
            rest.push(s.last())
        } else {
            rest
        }
    }
}

/// Keeping the entries of one control object keeps keys distinct.
proof fn lemma_only_power(s: Seq<(u64, u64)>, power: u64)
    ensures
        forall|e: (u64, u64)| #[trigger] only_power(s, power).contains(e) ==> s.contains(e),
        keys_distinct(s) ==> keys_distinct(only_power(s, power)),
    decreases s.len(),
{
    if s.len() > 0 {
        let rest = s.drop_last();
        lemma_only_power(rest, power);
        let f = only_power(rest, power);
        assert forall|e: (u64, u64)| #[trigger] only_power(s, power).contains(e) implies s.contains(
            e,
        ) by {
            if f.contains(e) {
                let j = choose|j: int| 0 <= j < rest.len() && rest[j] == e;
                assert(s[j] == e);
            } else {
                assert(e == s.last());
                assert(s[s.len() - 1] == e);
            }
        }
        if keys_distinct(s) && s.last().1 == power {
            assert(keys_distinct(rest)) by {
                assert forall|a: int, b: int|
                    0 <= a < rest.len() && 0 <= b < rest.len() && a != b implies #[trigger] rest[a].0
                    != #[trigger] rest[b].0 by {
                    assert(rest[a] == s[a] && rest[b] == s[b]);
                }
            }
            if has_key(f, s.last().0) {
                let j = choose|j: int| 0 <= j < f.len() && #[trigger] f[j].0 == s.last().0;
                assert(f.contains(f[j]));
                let k = choose|k: int| 0 <= k < rest.len() && rest[k] == f[j];
                assert(s[k].0 == s[s.len() - 1].0);
            }
            crate::keyed::lemma_push_fresh(f, s.last().0, s.last().1);
        } else if keys_distinct(s) {
            assert(keys_distinct(rest)) by {
                assert forall|a: int, b: int|
                    0 <= a < rest.len() && 0 <= b < rest.len() && a != b implies #[trigger] rest[a].0
                    != #[trigger] rest[b].0 by {
                    assert(rest[a] == s[a] && rest[b] == s[b]);
                }
            }
        }
    }
}

impl OutputPowerManagementState {
    /// The control object of each controlled output, in the order they were
    /// granted.
    pub closed spec fn entries(&self) -> Seq<(u64, u64)> {
        self.clients@
    }

    /// Each output has at most one control object.
    pub open spec fn wf(&self) -> bool {
        keys_distinct(self.entries())
    }

    /// No output is controlled.
    pub fn new() -> (r: Self)
        ensures
            r.wf(),
            r.entries() == Seq::<(u64, u64)>::empty(),
    {
        OutputPowerManagementState { clients: Vec::new() }
    }

    fn find_output(&self, output: u64) -> (r: Option<usize>)
        requires
            self.wf(),
        ensures
            match r {
                Some(i) => has_key(self.entries(), output) && i == key_index(self.entries(), output)
                    && i < self.entries().len(),
                None => !has_key(self.entries(), output),
            },
    {
        let mut i: usize = 0;
        while i < self.clients.len()
            invariant
                keys_distinct(self.clients@),
                0 <= i <= self.clients@.len(),
                forall|j: int| 0 <= j < i ==> self.clients@[j].0 != output,
            decreases self.clients@.len() - i,
        {
            if self.clients[i].0 == output {
                proof {
                    crate::keyed::lemma_key_index_unique(self.clients@, i as int);
                }
                return Some(i);
            }
            i = i + 1;
        }
        None
    }

    /// A client asks to control the power of `output` (`None` where its
    /// output object names no output) with the new object `power`; the
    /// output is `powered` or not. The request fails where the output is
    /// unknown or already controlled.
    pub fn get_output_power(&mut self, output: Option<u64>, power: u64, powered: bool) -> (r:
        PowerGrant)
        requires
            old(self).wf(),
        ensures
            final(self).wf(),
            output is None ==> r == PowerGrant::Failed && final(self).entries() == old(
                self,
            ).entries(),
            output is Some && has_key(old(self).entries(), output->0) ==> r == PowerGrant::Failed
                && final(self).entries() == old(self).entries(),
            output is Some && !has_key(old(self).entries(), output->0) ==> r == (PowerGrant::Granted {
                on: powered,
            }) && final(self).entries() == old(self).entries().push((output->0, power)),
    {
        let output = match output {
            Some(o) => o,
            None => {
                return PowerGrant::Failed;
            },
        };
        if self.find_output(output).is_some() {
            return PowerGrant::Failed;
        }
        proof {
            crate::keyed::lemma_push_fresh(self.clients@, output, power);
        }
        self.clients.push((output, power));
        PowerGrant::Granted { on: powered }
    }

    /// A client sets the mode (by its protocol number: zero off, one on)
    /// through the object `power`.
    pub fn set_mode(&self, power: u64, mode: u32) -> (r: PowerModeChange)
        requires
            self.wf(),
        ensures
            (forall|j: int| 0 <= j < self.entries().len() ==> #[trigger] self.entries()[j].1 != power)
                ==> r == PowerModeChange::Ignore,
            (exists|j: int| 0 <= j < self.entries().len() && #[trigger] self.entries()[j].1 == power)
                ==> if mode > 1 {
                r == PowerModeChange::InvalidMode
            } else {
                exists|j: int|
                    0 <= j < self.entries().len() && #[trigger] self.entries()[j].1 == power && r
                        == (PowerModeChange::Apply { output: self.entries()[j].0, powered: mode == 1 })
            },
    {
        let mut i: usize = 0;
        while i < self.clients.len()
            invariant
                0 <= i <= self.clients@.len(),
                forall|j: int| 0 <= j < i ==> self.clients@[j].1 != power,
            decreases self.clients@.len() - i,
        {
            if self.clients[i].1 == power {
                let output = self.clients[i].0;
                assert(self.entries()[i as int].1 == power);
                return match mode {
                    0 => PowerModeChange::Apply { output, powered: false },
                    1 => PowerModeChange::Apply { output, powered: true },
                    _ => PowerModeChange::InvalidMode,
                };
            }
            i = i + 1;
        }
        PowerModeChange::Ignore
    }

    /// The control object `power` is destroyed: the entries whose object is
    /// `power` are kept and all others are dropped.
    pub fn destroyed(&mut self, power: u64)
        requires
            old(self).wf(),
        ensures
            final(self).wf(),
            final(self).entries() == only_power(old(self).entries(), power),
    {
        let mut kept: Vec<(u64, u64)> = Vec::new();
        let mut i: usize = 0;
        while i < self.clients.len()
            invariant
                0 <= i <= self.clients@.len(),
                kept@ == only_power(self.clients@.subrange(0, i as int), power),
            decreases self.clients@.len() - i,
        {
            proof {
                assert(self.clients@.subrange(0, i as int + 1).drop_last() =~= self.clients@.subrange(
                    0,
                    i as int,
                ));
            }
            let e = self.clients[i];
            if e.1 == power {
                kept.push(e);
            }
            i = i + 1;
        }
        proof {
            assert(self.clients@.subrange(0, i as int) =~= self.clients@);
            lemma_only_power(self.clients@, power);
        }
        self.clients = kept;
    }

    /// The output is gone: its control object, if any, is returned (its
    /// client is told the control failed) and dropped.
    pub fn output_removed(&mut self, output: u64) -> (r: Option<u64>)
        requires
            old(self).wf(),
        ensures
            final(self).wf(),
            r == lookup(old(self).entries(), output),
            has_key(old(self).entries(), output) ==> final(self).entries() == old(
                self,
            ).entries().remove(key_index(old(self).entries(), output)),
            !has_key(old(self).entries(), output) ==> final(self).entries() == old(self).entries(),
    {
        match self.find_output(output) {
            Some(i) => {
                proof {
                    crate::keyed::lemma_key_index_unique(self.clients@, i as int);
                    crate::keyed::lemma_remove_at(self.clients@, i as int);
                }
                let (_, power) = self.clients.remove(i);
                Some(power)
            },
            None => {
                proof {
                    assert(lookup(self.clients@, output) is None);
                }
                None
            },
        }
    }
}

} // verus!
