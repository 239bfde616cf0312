//! Gamma control: which client may set an output's gamma, and how a gamma
//! table splits into its channels.
use vstd::prelude::*;

use crate::keyed::{has_key, key_index, keys_distinct, lookup};

verus! {

/// The state of one gamma control object: the length of each channel of
/// its output's gamma table.
#[derive(Debug, Clone, Copy, PartialEq, Eq, Structural)]
pub struct GammaControlState {
    pub gamma_size: u32,
}

/// The answer to a request for gamma control of an output.
#[derive(Debug, Clone, Copy, PartialEq, Eq, Structural)]
pub enum GammaControlGrant {
    /// The control fails at once.
    Failed,
    /// The client controls the output's gamma, whose channels have this
    /// length.
    Granted { gamma_size: u32 },
}

/// Decides a request for gamma control: it fails where the output is not
/// known, where another client controls its gamma already, or where the
/// output's gamma size is not available (`gamma_size` is what the handler
/// reported).
pub fn grant_gamma_control(
    output_known: bool,
    already_controlled: bool,
    gamma_size: Option<u32>,
) -> (r: GammaControlGrant)
    ensures
        r == if !output_known || already_controlled || gamma_size is None {
            GammaControlGrant::Failed
        } else {
            GammaControlGrant::Granted { gamma_size: gamma_size->0 }
        },
{
    if !output_known || already_controlled {
        return GammaControlGrant::Failed;
    }
    match gamma_size {
        Some(gamma_size) => GammaControlGrant::Granted { gamma_size },
        None => GammaControlGrant::Failed,
    }
}

impl GammaControlState {
    /// The state of a control object; a failed one has size zero.
    pub fn of_grant(grant: GammaControlGrant) -> (r: Self)
        ensures
            r.gamma_size == match grant {
                GammaControlGrant::Failed => 0,
                GammaControlGrant::Granted { gamma_size } => gamma_size,
            },
    {
        match grant {
            GammaControlGrant::Failed => GammaControlState { gamma_size: 0 },
            GammaControlGrant::Granted { gamma_size } => GammaControlState { gamma_size },
        }
    }

    /// The number of entries a client sends: one table per channel.
    pub fn table_len(&self) -> (r: usize)
        requires
            3 * self.gamma_size <= usize::MAX,
        ensures
            r == 3 * self.gamma_size,
    {
        (self.gamma_size as usize) * 3
    }
}

/// The red, green and blue tables of a gamma table, one after another.
pub fn split_gamma(gammas: &Vec<u16>, gamma_size: usize) -> (r: (Vec<u16>, Vec<u16>, Vec<u16>))
    requires
        gamma_size > 0,
        gammas@.len() == 3 * gamma_size,
    ensures
        r.0@ == gammas@.subrange(0, gamma_size as int),
        r.1@ == gammas@.subrange(gamma_size as int, 2 * gamma_size),
        r.2@ == gammas@.subrange(2 * gamma_size, 3 * gamma_size),
{
    let mut red: Vec<u16> = Vec::new();
    let mut green: Vec<u16> = Vec::new();
    let mut blue: Vec<u16> = Vec::new();
    let n = gammas.len();
    let mut i: usize = 0;
    while i < gamma_size
        invariant
            n == gammas@.len(),
            0 <= i <= gamma_size,
            gammas@.len() == 3 * gamma_size,
            red@ == gammas@.subrange(0, i as int),
            green@ == gammas@.subrange(gamma_size as int, gamma_size + i),
            blue@ == gammas@.subrange(2 * gamma_size, 2 * gamma_size + i),
        decreases gamma_size - i,
    {
        red.push(gammas[i]);
        green.push(gammas[gamma_size + i]);
        blue.push(gammas[2 * gamma_size + i]);
        proof {
            assert(red@ =~= gammas@.subrange(0, i as int + 1));
            assert(green@ =~= gammas@.subrange(gamma_size as int, gamma_size + i + 1));
            assert(blue@ =~= gammas@.subrange(2 * gamma_size, 2 * gamma_size + i + 1));
        }
        i = i + 1;
    }
    (red, green, blue)
}

/// The gamma control objects (by handle) of the outputs (by handle) whose
/// gamma a client controls.
#[derive(Debug)]
pub struct GammaControlManagerState {
    gamma_controls: Vec<(u64, u64)>,
}

impl GammaControlManagerState {
    /// The control of each controlled output, in the order they were
    /// granted.
    pub closed spec fn entries(&self) -> Seq<(u64, u64)> {
        self.gamma_controls@
    }

    /// Each output has at most one gamma control.
    pub open spec fn wf(&self) -> bool {
        keys_distinct(self.entries())
    }

    /// No output's gamma is controlled.
    pub fn new() -> (r: Self)
        ensures
            r.wf(),
            r.entries() == Seq::<(u64, u64)>::empty(),
    {
        GammaControlManagerState { gamma_controls: Vec::new() }
    }

    fn find_output(&self, output: u64) -> (r: Option<usize>)
        requires
            self.wf(),
        ensures
            match r {
                Some(i) => has_key(self.entries(), output) && i == key_index(self.entries(), output)
                    && i < self.entries().len(),
                None => !has_key(self.entries(), output),
            },
    {
        let mut i: usize = 0;
        while i < self.gamma_controls.len()
            invariant
                keys_distinct(self.gamma_controls@),
                0 <= i <= self.gamma_controls@.len(),
                forall|j: int| 0 <= j < i ==> self.gamma_controls@[j].0 != output,
            decreases self.gamma_controls@.len() - i,
        {
            if self.gamma_controls[i].0 == output {
                proof {
                    crate::keyed::lemma_key_index_unique(self.gamma_controls@, i as int);
                }
                return Some(i);
            }
            i = i + 1;
        }
        None
    }

    /// Whether a client controls the gamma of `output`.
    pub fn controls_output(&self, output: u64) -> (r: bool)
        requires
            self.wf(),
        ensures
            r == has_key(self.entries(), output),
    {
        self.find_output(output).is_some()
    }

    /// Records that `control` now controls the gamma of `output`, which no
    /// control had.
    pub fn insert(&mut self, output: u64, control: u64)
        requires
            old(self).wf(),
            !has_key(old(self).entries(), output),
        ensures
            final(self).wf(),
            final(self).entries() == old(self).entries().push((output, control)),
    {
        proof {
            crate::keyed::lemma_push_fresh(self.gamma_controls@, output, control);
        }
        self.gamma_controls.push((output, control));
    }

    /// The output whose gamma `control` controls, if any.
    pub fn output_of(&self, control: u64) -> (r: Option<u64>)
        ensures
            r is None ==> forall|j: int|
                0 <= j < self.entries().len() ==> #[trigger] self.entries()[j].1 != control,
            r is Some ==> exists|j: int|
                0 <= j < self.entries().len() && #[trigger] self.entries()[j].1 == control
                    && self.entries()[j].0 == r->0,
    {
        let mut i: usize = 0;
        while i < self.gamma_controls.len()
            invariant
                0 <= i <= self.gamma_controls@.len(),
                forall|j: int| 0 <= j < i ==> self.gamma_controls@[j].1 != control,
            decreases self.gamma_controls@.len() - i,
        {
            if self.gamma_controls[i].1 == control {
                assert(self.entries()[i as int].1 == control);
                return Some(self.gamma_controls[i].0);
            }
            i = i + 1;
        }
        None
    }

    /// Drops the control of `output`, if any, and returns it. Where the
    /// output is gone or setting its gamma failed, its client is told the
    /// control failed; where the client destroyed the control, it is not.
    pub fn remove_output(&mut self, output: u64) -> (r: Option<u64>)
        requires
            old(self).wf(),
        ensures
            final(self).wf(),
            r == lookup(old(self).entries(), output),
            has_key(old(self).entries(), output) ==> final(self).entries() == old(
                self,
            ).entries().remove(key_index(old(self).entries(), output)),
            !has_key(old(self).entries(), output) ==> final(self).entries() == old(self).entries(),
    {
        match self.find_output(output) {
            Some(i) => {
                proof {
                    crate::keyed::lemma_key_index_unique(self.gamma_controls@, i as int);
                    crate::keyed::lemma_remove_at(self.gamma_controls@, i as int);
                }
                let (_, control) = self.gamma_controls.remove(i);
                Some(control)
            },
            None => {
                proof {
                    assert(lookup(self.gamma_controls@, output) is None);
                }
                None
            },
        }
    }
}

} // verus!
