//! Keeping workspace clients in step with the tags: which workspaces and
//! workspace groups appear, change and go away.
use vstd::prelude::*;

use crate::ext_workspace::{refresh_workspace, spec_refresh, WorkspaceRecord, WorkspaceRefresh};
use crate::keyed::{has_key, key_index, keys_distinct, lookup};
use crate::tag::TagId;

verus! {

/// A tag as the workspace protocol reads it: the output (by handle) it is
/// on, its id, and whether it is active.
#[derive(Debug, Clone, Copy, PartialEq, Eq, Structural)]
pub struct TagSnapshot {
    pub output: u64,
    pub id: TagId,
    pub active: bool,
}

/// The last snapshot of the tag `id` among `tags`, if any.
pub open spec fn last_snapshot(tags: Seq<TagSnapshot>, id: TagId) -> Option<TagSnapshot>
    decreases tags.len(),
{
    if tags.len() == 0 {
        None
    } else if tags.last().id == id {
        Some(tags.last())
    } else {
        last_snapshot(tags.drop_last(), id)
    }
}

/// The record of a tag's snapshot.
pub open spec fn record_of(t: TagSnapshot) -> WorkspaceRecord {
    WorkspaceRecord { active: t.active, output: t.output }
}

/// The outputs of `outputs` that are not `known` and not seen earlier, in
/// order.
pub open spec fn fresh_outputs(known: Seq<u64>, outputs: Seq<u64>) -> Seq<u64>
    decreases outputs.len(),
{
    if outputs.len() == 0 {
        Seq::empty()
    } else {
        let earlier = fresh_outputs(known, outputs.drop_last());
        let o = outputs.last();
        if known.contains(o) || earlier.contains(o) {
            earlier
        } else {
            earlier.push(o)
        }
    }
}

/// What clients were last told: a record per tag, and the outputs that have
/// a workspace group.
#[derive(Debug)]
pub struct WorkspaceRecords {
    pub records: Vec<(TagId, WorkspaceRecord)>,
    pub groups: Vec<u64>,
}

/// What a refresh tells clients: the workspaces and groups that went away
/// (with what they were), how each tag's workspace was refreshed (in the
/// tags' order), the groups that appeared, and whether anything changed.
#[derive(Debug)]
pub struct WorkspaceReport {
    pub removed_workspaces: Vec<(TagId, WorkspaceRecord)>,
    pub removed_groups: Vec<u64>,
    pub refreshed: Vec<(TagId, WorkspaceRefresh)>,
    pub added_groups: Vec<u64>,
    pub changed: bool,
}

/// Whether `t` is the id of one of the tags.
pub open spec fn has_tag(tags: Seq<TagSnapshot>, id: TagId) -> bool {
    exists|k: int| 0 <= k < tags.len() && #[trigger] tags[k].id == id
}

proof fn lemma_last_snapshot(tags: Seq<TagSnapshot>, id: TagId)
    ensures
        last_snapshot(tags, id) is Some <==> has_tag(tags, id),
        last_snapshot(tags, id) is Some ==> last_snapshot(tags, id)->0.id == id,
    decreases tags.len(),
{
    if tags.len() > 0 {
        lemma_last_snapshot(tags.drop_last(), id);
        if has_tag(tags, id) && tags.last().id != id {
            let k = choose|k: int| 0 <= k < tags.len() && #[trigger] tags[k].id == id;
            assert(tags.drop_last()[k].id == id);
        }
        if has_tag(tags.drop_last(), id) {
            let k = choose|k: int| 0 <= k < tags.len() - 1 && #[trigger] tags.drop_last()[k].id == id;
            assert(tags[k].id == id);
        }
        if tags.last().id == id {
            assert(tags[tags.len() - 1].id == id);
        }
    }
}

/// The records of the tags among `tags` (`keep`), or of the others
/// (`!keep`), in order.
pub open spec fn records_split(
    entries: Seq<(TagId, WorkspaceRecord)>,
    tags: Seq<TagSnapshot>,
    keep: bool,
) -> Seq<(TagId, WorkspaceRecord)>
    decreases entries.len(),
{
    if entries.len() == 0 {
        Seq::empty()
    } else {
        let rest = records_split(entries.drop_last(), tags, keep);
        if has_tag(tags, entries.last().0) == keep {
            rest.push(entries.last())
        } else {
            rest
        }
    }
}

/// The outputs of `groups` among `outputs` (`keep`), or the others
/// (`!keep`), in order.
pub open spec fn groups_split(groups: Seq<u64>, outputs: Seq<u64>, keep: bool) -> Seq<u64>
    decreases groups.len(),
{
    if groups.len() == 0 {
        Seq::empty()
    } else {
        let rest = groups_split(groups.drop_last(), outputs, keep);
        if outputs.contains(groups.last()) == keep {
            rest.push(groups.last())
        } else {
            rest
        }
    }
}

/// Keeping the records of the current tags keeps one record per tag, and
/// the record of each current tag.
proof fn lemma_records_kept(entries: Seq<(TagId, WorkspaceRecord)>, tags: Seq<TagSnapshot>)
    requires
        keys_distinct(entries),
    ensures
        keys_distinct(records_split(entries, tags, true)),
        forall|id: TagId| #[trigger]
            lookup(records_split(entries, tags, true), id) == if has_tag(tags, id) {
                lookup(entries, id)
            } else {
                None
            },
    decreases entries.len(),
{
    if entries.len() == 0 {
        assert forall|id: TagId| #[trigger]
            lookup(records_split(entries, tags, true), id) == if has_tag(tags, id) {
                lookup(entries, id)
            } else {
                None
            } by {
            assert(!has_key(entries, id));
        }
    } else {
        let rest = entries.drop_last();
        let last = entries.last();
        assert(keys_distinct(rest)) by {
            assert forall|a: int, b: int|
                0 <= a < rest.len() && 0 <= b < rest.len() && a != b implies #[trigger] rest[a].0
                != #[trigger] rest[b].0 by {
                assert(rest[a] == entries[a] && rest[b] == entries[b]);
            }
        }
        lemma_records_kept(rest, tags);
        assert(!has_key(rest, last.0)) by {
            if has_key(rest, last.0) {
                let k = choose|k: int| 0 <= k < rest.len() && #[trigger] rest[k].0 == last.0;
                assert(entries[k].0 == entries[entries.len() - 1].0);
            }
        }
        assert(entries =~= rest.push(last));
        crate::keyed::lemma_push_fresh(rest, last.0, last.1);
        let kept_rest = records_split(rest, tags, true);
        if has_tag(tags, last.0) {
            assert(!has_key(kept_rest, last.0)) by {
                if has_key(kept_rest, last.0) {
                    crate::keyed::lemma_key_index_unique(kept_rest, key_index(kept_rest, last.0));
                    assert(lookup(kept_rest, last.0) is Some);
                    assert(lookup(rest, last.0) is None);
                }
            }
            crate::keyed::lemma_push_fresh(kept_rest, last.0, last.1);
        }
    }
}

impl WorkspaceRecords {
    /// Each tag has at most one record, each output at most one group.
    pub open spec fn wf(&self) -> bool {
        &&& keys_distinct(self.records@)
        &&& self.groups@.no_duplicates()
    }

    /// Nothing was told yet.
    pub fn new() -> (r: Self)
        ensures
            r.wf(),
            r.records@.len() == 0,
            r.groups@.len() == 0,
    {
        WorkspaceRecords { records: Vec::new(), groups: Vec::new() }
    }
}

/// The record of tag `id` after the first `k` tags were refreshed: that of
/// its last snapshot among them, else what was told before where it is a
/// current tag, else none.
pub open spec fn record_before(
    records: Seq<(TagId, WorkspaceRecord)>,
    tags: Seq<TagSnapshot>,
    k: int,
    id: TagId,
) -> Option<WorkspaceRecord> {
    match last_snapshot(tags.subrange(0, k), id) {
        Some(t) => Some(record_of(t)),
        None => if has_tag(tags, id) {
            lookup(records, id)
        } else {
            None
        },
    }
}

proof fn lemma_groups_split(groups: Seq<u64>, outputs: Seq<u64>)
    requires
        groups.no_duplicates(),
    ensures
        groups_split(groups, outputs, true).no_duplicates(),
        forall|o: u64| #[trigger]
            groups_split(groups, outputs, true).contains(o) <==> groups.contains(o)
                && outputs.contains(o),
    decreases groups.len(),
{
    if groups.len() > 0 {
        let rest = groups.drop_last();
        let last = groups.last();
        assert(rest.no_duplicates()) by {
            assert forall|a: int, b: int| 0 <= a < rest.len() && 0 <= b < rest.len() && a != b implies rest[a]
                != rest[b] by {
                assert(rest[a] == groups[a] && rest[b] == groups[b]);
            }
        }
        lemma_groups_split(rest, outputs);
        let kr = groups_split(rest, outputs, true);
        assert forall|o: u64| #[trigger] groups.contains(o) <==> rest.contains(o) || o == last by {
            if groups.contains(o) {
                let k = choose|k: int| 0 <= k < groups.len() && groups[k] == o;
                if k < rest.len() {
                    assert(rest[k] == o);
                }
            }
            if rest.contains(o) {
                let k = choose|k: int| 0 <= k < rest.len() && rest[k] == o;
                assert(groups[k] == o);
            }
            if o == last {
                assert(groups[groups.len() - 1] == o);
            }
        }
        assert(!rest.contains(last)) by {
            if rest.contains(last) {
                let k = choose|k: int| 0 <= k < rest.len() && rest[k] == last;
                assert(groups[k] == groups[groups.len() - 1]);
            }
        }
        if outputs.contains(last) {
            let kg = kr.push(last);
            assert forall|o: u64| #[trigger] kg.contains(o) <==> kr.contains(o) || o == last by {
                if kg.contains(o) {
                    let k = choose|k: int| 0 <= k < kg.len() && kg[k] == o;
                    if k < kr.len() {
                        assert(kr[k] == o);
                    }
                }
                if kr.contains(o) {
                    let k = choose|k: int| 0 <= k < kr.len() && kr[k] == o;
                    assert(kg[k] == o);
                }
                if o == last {
                    assert(kg[kr.len() as int] == o);
                }
            }
            assert(kg.no_duplicates()) by {
                assert forall|a: int, b: int| 0 <= a < kg.len() && 0 <= b < kg.len() && a != b implies kg[a]
                    != kg[b] by {
                    if a == kr.len() {
                        assert(kr.contains(kg[b]));
                    } else if b == kr.len() {
                        assert(kr.contains(kg[a]));
                    }
                }
            }
        }
    }
}

proof fn lemma_fresh_outputs(known: Seq<u64>, outputs: Seq<u64>)
    ensures
        fresh_outputs(known, outputs).no_duplicates(),
        forall|o: u64| #[trigger]
            fresh_outputs(known, outputs).contains(o) ==> outputs.contains(o) && !known.contains(o),
        forall|o: u64| #[trigger]
            outputs.contains(o) ==> known.contains(o) || fresh_outputs(known, outputs).contains(o),
    decreases outputs.len(),
{
    if outputs.len() > 0 {
        let rest = outputs.drop_last();
        lemma_fresh_outputs(known, rest);
        let earlier = fresh_outputs(known, rest);
        let last = outputs.last();
        let pushed = !known.contains(last) && !earlier.contains(last);
        if pushed {
            assert(earlier.push(last)[earlier.len() as int] == last);
            assert forall|x: u64| earlier.contains(x) implies earlier.push(last).contains(x) by {
                let k = choose|k: int| 0 <= k < earlier.len() && earlier[k] == x;
                assert(earlier.push(last)[k] == x);
            }
            assert(earlier.push(last).no_duplicates()) by {
                let g = earlier.push(last);
                assert forall|a: int, b: int| 0 <= a < g.len() && 0 <= b < g.len() && a != b implies g[a]
                    != g[b] by {
                    if a == earlier.len() {
                        assert(earlier.contains(g[b]));
                    } else if b == earlier.len() {
                        assert(earlier.contains(g[a]));
                    }
                }
            }
        }
        assert forall|o: u64| #[trigger] outputs.contains(o) implies known.contains(o)
            || fresh_outputs(known, outputs).contains(o) by {
            let j = choose|j: int| 0 <= j < outputs.len() && outputs[j] == o;
            if j < outputs.len() - 1 {
                assert(rest[j] == o);
                assert(rest.contains(o));
            }
        }
        assert forall|o: u64| #[trigger]
            fresh_outputs(known, outputs).contains(o) implies outputs.contains(o) && !known.contains(o) by {
            if earlier.contains(o) {
                let j = choose|j: int| 0 <= j < rest.len() && rest[j] == o;
                assert(outputs[j] == o);
            } else {
                let g = earlier.push(last);
                let k = choose|k: int| 0 <= k < g.len() && g[k] == o;
                if k < earlier.len() {
                    assert(earlier[k] == o);
                }
                assert(outputs[outputs.len() - 1] == o);
            }
        }
    }
}

/// Whether one of the tags has id `id`.
fn has_tag_exec(tags: &Vec<TagSnapshot>, id: TagId) -> (r: bool)
    ensures
        r == has_tag(tags@, id),
{
    let mut k: usize = 0;
    while k < tags.len()
        invariant
            0 <= k <= tags@.len(),
            forall|j: int| 0 <= j < k ==> #[trigger] tags@[j].id != id,
        decreases tags@.len() - k,
    {
        if tags[k].id == id {
            assert(tags@[k as int].id == id);
            return true;
        }
        k = k + 1;
    }
    false
}

/// Whether `o` is among `outputs`.
fn contains_output(outputs: &Vec<u64>, o: u64) -> (r: bool)
    ensures
        r == outputs@.contains(o),
{
    let mut k: usize = 0;
    while k < outputs.len()
        invariant
            0 <= k <= outputs@.len(),
            forall|j: int| 0 <= j < k ==> outputs@[j] != o,
        decreases outputs@.len() - k,
    {
        if outputs[k] == o {
            assert(outputs@[k as int] == o);
            return true;
        }
        k = k + 1;
    }
    false
}

/// The position of the record of `id`, if there is one.
fn find_record(records: &Vec<(TagId, WorkspaceRecord)>, id: TagId) -> (r: Option<usize>)
    requires
        keys_distinct(records@),
    ensures
        match r {
            Some(i) => i < records@.len() && records@[i as int].0 == id && lookup(records@, id) == Some(
                records@[i as int].1,
            ),
            None => !has_key(records@, id) && lookup(records@, id) is None,
        },
{
    let mut i: usize = 0;
    while i < records.len()
        invariant
            keys_distinct(records@),
            0 <= i <= records@.len(),
            forall|j: int| 0 <= j < i ==> records@[j].0 != id,
        decreases records@.len() - i,
    {
        if records[i].0 == id {
            proof {
                crate::keyed::lemma_key_index_unique(records@, i as int);
            }
            return Some(i);
        }
        i = i + 1;
    }
    None
}

impl WorkspaceRecords {
    /// Brings what clients were told in line with the current `outputs` and
    /// their `tags` (in order): workspaces of tags that are gone go away, as
    /// do groups of outputs that are gone; each tag's workspace is refreshed
    /// (created where new); each output without a group gets one.
    pub fn refresh(&mut self, outputs: &Vec<u64>, tags: &Vec<TagSnapshot>) -> (r: WorkspaceReport)
        requires
            old(self).wf(),
        ensures
            final(self).wf(),
            forall|id: TagId| #[trigger]
                lookup(final(self).records@, id) == match last_snapshot(tags@, id) {
                    Some(t) => Some(record_of(t)),
                    None => None,
                },
            r.removed_workspaces@ == records_split(old(self).records@, tags@, false),
            r.refreshed@.len() == tags@.len(),
            forall|k: int|
                0 <= k < tags@.len() ==> #[trigger] r.refreshed@[k] == (
                    tags@[k].id,
                    spec_refresh(
                        record_before(old(self).records@, tags@, k, tags@[k].id),
                        tags@[k].output,
                        tags@[k].active,
                    ),
                ),
            r.removed_groups@ == groups_split(old(self).groups@, outputs@, false),
            r.added_groups@ == fresh_outputs(groups_split(old(self).groups@, outputs@, true), outputs@),
            final(self).groups@ == groups_split(old(self).groups@, outputs@, true) + r.added_groups@,
            r.changed == (r.removed_workspaces@.len() > 0 || r.removed_groups@.len() > 0 || (exists|
                k: int,
            | 0 <= k < r.refreshed@.len() && #[trigger] r.refreshed@[k].1.spec_changed())
                || r.added_groups@.len() > 0),
    {
        let ghost old_records = self.records@;
        let ghost old_groups = self.groups@;
        let mut kept: Vec<(TagId, WorkspaceRecord)> = Vec::new();
        let mut removed: Vec<(TagId, WorkspaceRecord)> = Vec::new();
        let mut i: usize = 0;
        while i < self.records.len()
            invariant
                self.records@ == old_records,
                0 <= i <= old_records.len(),
                kept@ == records_split(old_records.subrange(0, i as int), tags@, true),
                removed@ == records_split(old_records.subrange(0, i as int), tags@, false),
            decreases old_records.len() - i,
        {
            proof {
                assert(old_records.subrange(0, i as int + 1).drop_last() =~= old_records.subrange(
                    0,
                    i as int,
                ));
            }
            let e = self.records[i];
            if has_tag_exec(tags, e.0) {
                kept.push(e);
            } else {
                removed.push(e);
            }
            i = i + 1;
        }
        proof {
            assert(old_records.subrange(0, i as int) =~= old_records);
            lemma_records_kept(old_records, tags@);
            assert(tags@.subrange(0, 0) =~= Seq::<TagSnapshot>::empty());
            assert forall|id: TagId| #[trigger] lookup(kept@, id) == record_before(
                old_records,
                tags@,
                0,
                id,
            ) by {
                assert(last_snapshot(tags@.subrange(0, 0), id) is None);
            }
        }

        let mut refreshed: Vec<(TagId, WorkspaceRefresh)> = Vec::new();
        let mut any_changed = false;
        let mut k: usize = 0;
        while k < tags.len()
            invariant
                0 <= k <= tags@.len(),
                keys_distinct(kept@),
                forall|id: TagId| #[trigger] lookup(kept@, id) == record_before(
                    old_records,
                    tags@,
                    k as int,
                    id,
                ),
                refreshed@.len() == k,
                forall|j: int|
                    0 <= j < k ==> #[trigger] refreshed@[j] == (
                        tags@[j].id,
                        spec_refresh(
                            record_before(old_records, tags@, j, tags@[j].id),
                            tags@[j].output,
                            tags@[j].active,
                        ),
                    ),
                any_changed == exists|j: int|
                    0 <= j < k && #[trigger] refreshed@[j].1.spec_changed(),
            decreases tags@.len() - k,
        {
            let t = tags[k];
            let ghost before = kept@;
            let r = match find_record(&kept, t.id) {
                Some(idx) => {
                    let mut rec = Some(kept[idx].1);
                    let r = refresh_workspace(&mut rec, t.output, t.active);
                    let new_rec = WorkspaceRecord { active: t.active, output: t.output };
                    proof {
                        crate::keyed::lemma_key_index_unique(kept@, idx as int);
                        crate::keyed::lemma_update_value(kept@, idx as int, new_rec);
                    }
                    kept.set(idx, (t.id, new_rec));
                    proof {
                        assert(kept@ == before.update(idx as int, (before[idx as int].0, new_rec)));
                    }
                    r
                },
                None => {
                    let mut rec = None;
                    let r = refresh_workspace(&mut rec, t.output, t.active);
                    let new_rec = WorkspaceRecord { active: t.active, output: t.output };
                    proof {
                        crate::keyed::lemma_push_fresh(kept@, t.id, new_rec);
                    }
                    kept.push((t.id, new_rec));
                    r
                },
            };
            proof {
                let sub = tags@.subrange(0, k as int + 1);
                assert(sub.drop_last() =~= tags@.subrange(0, k as int));
                assert(sub.last() == t);
                assert(has_tag(tags@, t.id)) by {
                    assert(tags@[k as int].id == t.id);
                }
                assert forall|id: TagId| #[trigger] lookup(kept@, id) == record_before(
                    old_records,
                    tags@,
                    k as int + 1,
                    id,
                ) by {
                    if id == t.id {
                        assert(last_snapshot(sub, id) == Some(t));
                    } else {
                        assert(last_snapshot(sub, id) == last_snapshot(tags@.subrange(0, k as int), id));
                    }
                }
            }
            let ghost prev = refreshed@;
            refreshed.push((t.id, r));
            let c = r.changed();
            proof {
                assert(refreshed@[k as int] == (t.id, r));
                assert forall|j: int| 0 <= j < k implies refreshed@[j] == prev[j] by {}
                if any_changed {
                    let j = choose|j: int| 0 <= j < k && #[trigger] prev[j].1.spec_changed();
                    assert(refreshed@[j].1.spec_changed());
                }
                if c {
                    assert(refreshed@[k as int].1.spec_changed());
                }
                if exists|j: int| 0 <= j < k + 1 && #[trigger] refreshed@[j].1.spec_changed() {
                    let j = choose|j: int| 0 <= j < k + 1 && #[trigger] refreshed@[j].1.spec_changed();
                    if j < k {
                        assert(prev[j].1.spec_changed());
                    }
                }
            }
            any_changed = any_changed || c;
            k = k + 1;
        }
        proof {
            assert(any_changed == exists|j: int|
                0 <= j < refreshed@.len() && #[trigger] refreshed@[j].1.spec_changed());
            assert(tags@.subrange(0, k as int) =~= tags@);
            assert forall|id: TagId| #[trigger] lookup(kept@, id) == match last_snapshot(tags@, id) {
                Some(t) => Some(record_of(t)),
                None => None,
            } by {
                lemma_last_snapshot(tags@, id);
            }
        }

        let mut kept_groups: Vec<u64> = Vec::new();
        let mut removed_groups: Vec<u64> = Vec::new();
        let mut g: usize = 0;
        while g < self.groups.len()
            invariant
                self.groups@ == old_groups,
                0 <= g <= old_groups.len(),
                kept_groups@ == groups_split(old_groups.subrange(0, g as int), outputs@, true),
                removed_groups@ == groups_split(old_groups.subrange(0, g as int), outputs@, false),
            decreases old_groups.len() - g,
        {
            proof {
                assert(old_groups.subrange(0, g as int + 1).drop_last() =~= old_groups.subrange(
                    0,
                    g as int,
                ));
            }
            let o = self.groups[g];
            if contains_output(outputs, o) {
                kept_groups.push(o);
            } else {
                removed_groups.push(o);
            }
            g = g + 1;
        }
        proof {
            assert(old_groups.subrange(0, g as int) =~= old_groups);
            lemma_groups_split(old_groups, outputs@);
        }

        let mut added: Vec<u64> = Vec::new();
        let mut n: usize = 0;
        while n < outputs.len()
            invariant
                0 <= n <= outputs@.len(),
                added@ == fresh_outputs(kept_groups@, outputs@.subrange(0, n as int)),
            decreases outputs@.len() - n,
        {
            let o = outputs[n];
            proof {
                let p = outputs@.subrange(0, n as int + 1);
                assert(p.drop_last() =~= outputs@.subrange(0, n as int));
                assert(p.last() == o);
            }
            if !contains_output(&kept_groups, o) && !contains_output(&added, o) {
                added.push(o);
            }
            n = n + 1;
        }
        proof {
            assert(outputs@.subrange(0, n as int) =~= outputs@);
            lemma_fresh_outputs(kept_groups@, outputs@);
        }

        let mut groups = kept_groups;
        let ghost kept_view = groups@;
        let mut a: usize = 0;
        while a < added.len()
            invariant
                0 <= a <= added@.len(),
                groups@ == kept_view + added@.subrange(0, a as int),
            decreases added@.len() - a,
        {
            groups.push(added[a]);
            proof {
                assert(groups@ =~= kept_view + added@.subrange(0, a as int + 1));
            }
            a = a + 1;
        }
        proof {
            assert(added@.subrange(0, a as int) =~= added@);
            let all = kept_view + added@;
            assert(all.no_duplicates()) by {
                assert forall|x: int, y: int| 0 <= x < all.len() && 0 <= y < all.len() && x != y implies all[x]
                    != all[y] by {
                    if x < kept_view.len() && y >= kept_view.len() {
                        assert(added@.contains(all[y]));
                        assert(kept_view.contains(all[x]));
                    } else if y < kept_view.len() && x >= kept_view.len() {
                        assert(added@.contains(all[x]));
                        assert(kept_view.contains(all[y]));
                    }
                }
            }
        }

        self.records = kept;
        self.groups = groups;
        let changed = removed.len() > 0 || removed_groups.len() > 0 || any_changed || added.len() > 0;
        assert(any_changed == exists|j: int|
            0 <= j < refreshed@.len() && #[trigger] refreshed@[j].1.spec_changed());
        assert(changed == (removed@.len() > 0 || removed_groups@.len() > 0 || any_changed || added@.len() > 0));
        let report = WorkspaceReport {
            removed_workspaces: removed,
            removed_groups,
            refreshed,
            added_groups: added,
            changed,
        };
        assert(report.refreshed@ == refreshed@);
        assert(report.changed == changed);
        assert(report.changed == (report.removed_workspaces@.len() > 0 || report.removed_groups@.len() > 0 || (exists|
                j: int,
            | 0 <= j < report.refreshed@.len() && #[trigger] report.refreshed@[j].1.spec_changed())
                || report.added_groups@.len() > 0));
        report
    }
}

proof fn lemma_records_none_removed(entries: Seq<(TagId, WorkspaceRecord)>, tags: Seq<TagSnapshot>)
    requires
        forall|i: int| 0 <= i < entries.len() ==> has_tag(tags, #[trigger] entries[i].0),
    ensures
        records_split(entries, tags, false) == Seq::<(TagId, WorkspaceRecord)>::empty(),
    decreases entries.len(),
{
    if entries.len() > 0 {
        let rest = entries.drop_last();
        assert forall|i: int| 0 <= i < rest.len() implies has_tag(tags, #[trigger] rest[i].0) by {
            assert(rest[i] == entries[i]);
        }
        lemma_records_none_removed(rest, tags);
        assert(has_tag(tags, entries[entries.len() - 1].0));
    }
}

proof fn lemma_groups_none_removed(groups: Seq<u64>, outputs: Seq<u64>)
    requires
        forall|i: int| 0 <= i < groups.len() ==> outputs.contains(#[trigger] groups[i]),
    ensures
        groups_split(groups, outputs, false) == Seq::<u64>::empty(),
    decreases groups.len(),
{
    if groups.len() > 0 {
        let rest = groups.drop_last();
        assert forall|i: int| 0 <= i < rest.len() implies outputs.contains(#[trigger] rest[i]) by {
            assert(rest[i] == groups[i]);
        }
        lemma_groups_none_removed(rest, outputs);
        assert(outputs.contains(groups[groups.len() - 1]));
    }
}

/// Where only the `k`-th tag has its id, its last snapshot is that tag, and
/// no earlier tag has the id.
proof fn lemma_unique_snapshot(tags: Seq<TagSnapshot>, k: int)
    requires
        0 <= k < tags.len(),
        forall|a: int, b: int|
            0 <= a < tags.len() && 0 <= b < tags.len() && a != b ==> #[trigger] tags[a].id
                != #[trigger] tags[b].id,
    ensures
        last_snapshot(tags, tags[k].id) == Some(tags[k]),
        last_snapshot(tags.subrange(0, k), tags[k].id) is None,
    decreases tags.len(),
{
    let id = tags[k].id;
    let pre = tags.subrange(0, k);
    lemma_last_snapshot(pre, id);
    if has_tag(pre, id) {
        let j = choose|j: int| 0 <= j < pre.len() && #[trigger] pre[j].id == id;
        assert(tags[j].id == tags[k].id);
    }
    if k < tags.len() - 1 {
        let rest = tags.drop_last();
        assert forall|a: int, b: int|
            0 <= a < rest.len() && 0 <= b < rest.len() && a != b implies #[trigger] rest[a].id
            != #[trigger] rest[b].id by {
            assert(rest[a] == tags[a] && rest[b] == tags[b]);
        }
        lemma_unique_snapshot(rest, k);
        assert(rest[k] == tags[k]);
        assert(tags.last().id != id);
    }
}

/// Refreshing again with the same outputs and tags tells clients nothing,
/// where no two tags share an id: no workspace or group goes away or
/// appears, and no workspace changes.
pub proof fn law_refresh_settles(
    records: Seq<(TagId, WorkspaceRecord)>,
    groups: Seq<u64>,
    outputs: Seq<u64>,
    tags: Seq<TagSnapshot>,
)
    requires
        keys_distinct(records),
        groups.no_duplicates(),
        forall|a: int, b: int|
            0 <= a < tags.len() && 0 <= b < tags.len() && a != b ==> #[trigger] tags[a].id
                != #[trigger] tags[b].id,
        forall|id: TagId| #[trigger]
            lookup(records, id) == match last_snapshot(tags, id) {
                Some(t) => Some(record_of(t)),
                None => None,
            },
        forall|o: u64| #[trigger] groups.contains(o) <==> outputs.contains(o),
    ensures
        records_split(records, tags, false) == Seq::<(TagId, WorkspaceRecord)>::empty(),
        forall|k: int|
            0 <= k < tags.len() ==> !(#[trigger] spec_refresh(
                record_before(records, tags, k, tags[k].id),
                tags[k].output,
                tags[k].active,
            )).spec_changed(),
        groups_split(groups, outputs, false) == Seq::<u64>::empty(),
        fresh_outputs(groups_split(groups, outputs, true), outputs) == Seq::<u64>::empty(),
{
    assert forall|i: int| 0 <= i < records.len() implies has_tag(tags, #[trigger] records[i].0) by {
        crate::keyed::lemma_key_index_unique(records, i);
        lemma_last_snapshot(tags, records[i].0);
    }
    lemma_records_none_removed(records, tags);
    assert forall|k: int| 0 <= k < tags.len() implies !(#[trigger] spec_refresh(
        record_before(records, tags, k, tags[k].id),
        tags[k].output,
        tags[k].active,
    )).spec_changed() by {
        lemma_unique_snapshot(tags, k);
        assert(has_tag(tags, tags[k].id));
    }
    assert forall|i: int| 0 <= i < groups.len() implies outputs.contains(#[trigger] groups[i]) by {
        assert(groups.contains(groups[i]));
    }
    lemma_groups_none_removed(groups, outputs);
    lemma_groups_split(groups, outputs);
    let kept = groups_split(groups, outputs, true);
    lemma_fresh_outputs(kept, outputs);
    let f = fresh_outputs(kept, outputs);
    if f.len() > 0 {
        assert(f.contains(f[0]));
    }
    assert(f =~= Seq::<u64>::empty());
}

} // verus!
