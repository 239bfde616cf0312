//! Workspace requests of the ext-workspace protocol, applied on commit.
use vstd::prelude::*;

use crate::tag::TagId;

pub mod refresh;

verus! {

/// A request on a workspace (a tag), held until the client commits.
#[derive(Debug, Clone, Copy, PartialEq, Eq, Structural)]
pub enum Action {
    Activate(TagId),
    Deactivate(TagId),
    Remove(TagId),
}

impl Action {
    /// The rank of the action on commit: removals first, then
    /// deactivations, then activations.
    pub open spec fn spec_order(self) -> u8 {
        match self {
            Action::Activate(_) => 2,
            Action::Deactivate(_) => 1,
            Action::Remove(_) => 0,
        }
    }

    pub fn order(&self) -> (r: u8)
        ensures
            r == self.spec_order(),
    {
        match self {
            Action::Activate(_) => 2,
            Action::Deactivate(_) => 1,
            Action::Remove(_) => 0,
        }
    }
}

/// The actions of rank `rank`, in the order they were requested.
pub open spec fn of_rank(actions: Seq<Action>, rank: u8) -> Seq<Action>
    decreases actions.len(),
{
    if actions.len() == 0 {
        Seq::empty()
    } else {
        let rest = of_rank(actions.drop_last(), rank);
        if actions.last().spec_order() == rank {
            rest.push(actions.last())
        } else {
            rest
        }
    }
}

/// The actions sorted by rank, keeping the request order within a rank.
pub open spec fn commit_sequence(actions: Seq<Action>) -> Seq<Action> {
    of_rank(actions, 0) + of_rank(actions, 1) + of_rank(actions, 2)
}

fn push_of_rank(actions: &Vec<Action>, rank: u8, out: &mut Vec<Action>)
    ensures
        final(out)@ == old(out)@ + of_rank(actions@, rank),
{
    let ghost start = out@;
    let mut i: usize = 0;
    while i < actions.len()
        invariant
            i <= actions.len(),
            out@ == start + of_rank(actions@.take(i as int), rank),
        decreases actions.len() - i,
    {
        assert(actions@.take(i + 1).drop_last() =~= actions@.take(i as int));
        if actions[i].order() == rank {
            out.push(actions[i]);
        }
        i = i + 1;
        assert(out@ =~= start + of_rank(actions@.take(i as int), rank));
    }
    assert(actions@.take(i as int) =~= actions@);
}

/// The order in which the committed actions are applied: a stable sort by rank.
pub fn commit_order(actions: Vec<Action>) -> (r: Vec<Action>)
    ensures
        r@ == commit_sequence(actions@),
{
    let mut out: Vec<Action> = Vec::new();
    push_of_rank(&actions, 0, &mut out);
    push_of_rank(&actions, 1, &mut out);
    push_of_rank(&actions, 2, &mut out);
    assert(out@ =~= commit_sequence(actions@));
    out
}

proof fn lemma_of_rank(actions: Seq<Action>, rank: u8)
    ensures
        forall|i: int|
            0 <= i < of_rank(actions, rank).len() ==> (#[trigger] of_rank(actions, rank)[i]).spec_order()
                == rank,
        of_rank(actions, 0).len() + of_rank(actions, 1).len() + of_rank(actions, 2).len()
            == actions.len(),
    decreases actions.len(),
{
    if actions.len() > 0 {
        lemma_of_rank(actions.drop_last(), rank);
        lemma_of_rank(actions.drop_last(), 0);
        lemma_of_rank(actions.drop_last(), 1);
        lemma_of_rank(actions.drop_last(), 2);
        let r = of_rank(actions, rank);
        assert forall|i: int| 0 <= i < r.len() implies (#[trigger] r[i]).spec_order() == rank by {
            let prev = of_rank(actions.drop_last(), rank);
            if i < prev.len() {
                assert(r[i] == prev[i]);
            }
        }
    }
}

/// Committing applies every requested action exactly as often as it was
/// requested, removals before deactivations before activations.
pub proof fn law_commit_is_sorted_by_rank(actions: Seq<Action>)
    ensures
        commit_sequence(actions).len() == actions.len(),
        forall|i: int, j: int|
            0 <= i <= j < commit_sequence(actions).len() ==> (#[trigger] commit_sequence(
                actions,
            )[i]).spec_order() <= (#[trigger] commit_sequence(actions)[j]).spec_order(),
{
    lemma_of_rank(actions, 0);
    lemma_of_rank(actions, 1);
    lemma_of_rank(actions, 2);
    let a = of_rank(actions, 0);
    let b = of_rank(actions, 1);
    let c = of_rank(actions, 2);
    let s = commit_sequence(actions);
    assert forall|i: int| 0 <= i < s.len() implies (#[trigger] s[i]).spec_order() == (if i
        < a.len() {
        0u8
    } else if i < a.len() + b.len() {
        1u8
    } else {
        2u8
    }) by {
        if i < a.len() {
            assert(s[i] == a[i]);
        } else if i < a.len() + b.len() {
            assert(s[i] == b[i - a.len()]);
        } else {
            assert(s[i] == c[i - a.len() - b.len()]);
        }
    }
}

/// What the workspace protocol last told clients of a tag: whether it is
/// active, and the output (by handle) whose group it belongs to.
#[derive(Debug, Clone, Copy, PartialEq, Eq, Structural)]
pub struct WorkspaceRecord {
    pub active: bool,
    pub output: u64,
}

/// What refreshing one tag's workspace sends: a new workspace, or for a
/// known one, its new state and a move between groups.
#[derive(Debug, Clone, Copy, PartialEq, Eq, Structural)]
pub struct WorkspaceRefresh {
    pub created: bool,
    pub state_changed: bool,
    pub output_changed: bool,
}

impl WorkspaceRefresh {
    /// Whether clients were told anything.
    pub open spec fn spec_changed(self) -> bool {
        self.created || self.state_changed || self.output_changed
    }

    /// Whether clients were told anything.
    pub fn changed(&self) -> (r: bool)
        ensures
            r == self.spec_changed(),
    {
        self.created || self.state_changed || self.output_changed
    }
}

/// What refreshing a tag on `output`, `active` or not, tells clients where
/// `record` is what they were last told of it.
pub open spec fn spec_refresh(record: Option<WorkspaceRecord>, output: u64, active: bool) -> WorkspaceRefresh {
    WorkspaceRefresh {
        created: record is None,
        state_changed: record is Some && record->0.active != active,
        output_changed: record is Some && record->0.output != output,
    }
}

/// Refreshes the workspace of a tag that is on `output` and `active` or
/// not, where `record` is what clients were last told of it (if anything):
/// afterwards the record matches the tag, and the result says what changed.
pub fn refresh_workspace(record: &mut Option<WorkspaceRecord>, output: u64, active: bool) -> (r:
    WorkspaceRefresh)
    ensures
        *final(record) == Some(WorkspaceRecord { active, output }),
        r == spec_refresh(*old(record), output, active),
{
    match record {
        Some(data) => {
            let state_changed = data.active != active;
            if state_changed {
                data.active = active;
            }
            let output_changed = data.output != output;
            if output_changed {
                data.output = output;
            }
            WorkspaceRefresh { created: false, state_changed, output_changed }
        },
        None => {
            *record = Some(WorkspaceRecord { active, output });
            WorkspaceRefresh { created: true, state_changed: false, output_changed: false }
        },
    }
}

/// Refreshing a workspace a second time with the same tag tells clients
/// nothing new: the record the first refresh leaves matches the tag.
pub proof fn law_refresh_workspace_settles(record: Option<WorkspaceRecord>, output: u64, active: bool)
    ensures
        spec_refresh(record, output, active).spec_changed() == (record != Some(
            WorkspaceRecord { active, output },
        )),
        !spec_refresh(Some(WorkspaceRecord { active, output }), output, active).spec_changed(),
{
}

} // verus!
