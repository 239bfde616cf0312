//! Outputs: their names, blanking state, and the tags they display.
use vstd::prelude::*;

use crate::output_management::Mode;
use crate::tag::{all_held, held, tag_state, Tag, TagId, TagState, TagTable};

verus! {

/// A unique identifier for an output.
///
/// An empty string represents an invalid output.
#[derive(Debug, Hash, Clone, PartialEq, Eq)]
pub struct OutputName(pub String);

/// State of an output's blanking status for session lock.
#[derive(Debug, Copy, Clone, PartialEq, Eq, Structural)]
pub enum BlankingState {
    /// The output is not blanked and is displaying normal content.
    NotBlanked,
    /// A blank frame has been queued up.
    Blanking,
    /// A blank frame has been displayed.
    Blanked,
}

impl Default for BlankingState {
    fn default() -> (r: Self)
        ensures
            r == BlankingState::NotBlanked,
    {
        BlankingState::NotBlanked
    }
}

/// The tags of `tags` that are active in `table`, in order.
pub open spec fn active_tags(table: TagTable, tags: Seq<Tag>) -> Seq<Tag>
    decreases tags.len(),
{
    if tags.len() == 0 {
        Seq::empty()
    } else {
        let rest = active_tags(table, tags.drop_last());
        if tag_state(table, tags.last()).active {
            rest.push(tags.last())
        } else {
            rest
        }
    }
}

/// Adding `new_tags` to an output's `tags`, from position `i` on, with the
/// tags' states `states`: each defunct tag in turn takes the place of the
/// next new tag while new tags remain. Gives the states afterwards and the
/// new tags left over, which are appended to the output's tags.
pub open spec fn adding_from(
    tags: Seq<Tag>,
    states: Seq<TagState>,
    new_tags: Seq<Tag>,
    i: int,
) -> (Seq<TagState>, Seq<Tag>)
    decreases tags.len() - i,
{
    if i < 0 || i >= tags.len() || new_tags.len() == 0 {
        (states, new_tags)
    } else {
        let s = tags[i].slot();
        if states[s].defunct {
            adding_from(
                tags,
                states.update(s, states[new_tags[0].slot()]),
                new_tags.drop_first(),
                i + 1,
            )
        } else {
            adding_from(tags, states, new_tags, i + 1)
        }
    }
}

/// Adding `new_tags` to an output's `tags` from position `i` on never asks a
/// tag to take its own place: each defunct tag differs from the new tag that
/// replaces it.
pub open spec fn adding_meets(
    tags: Seq<Tag>,
    states: Seq<TagState>,
    new_tags: Seq<Tag>,
    i: int,
) -> bool
    decreases tags.len() - i,
{
    if i < 0 || i >= tags.len() || new_tags.len() == 0 {
        true
    } else {
        let s = tags[i].slot();
        if states[s].defunct {
            &&& tags[i] != new_tags[0]
            &&& adding_meets(
                tags,
                states.update(s, states[new_tags[0].slot()]),
                new_tags.drop_first(),
                i + 1,
            )
        } else {
            adding_meets(tags, states, new_tags, i + 1)
        }
    }
}

/// New tags that are none of the output's own tags never take their own
/// places.
pub proof fn lemma_adding_meets_when_apart(
    tags: Seq<Tag>,
    states: Seq<TagState>,
    new_tags: Seq<Tag>,
    i: int,
)
    requires
        forall|a: int, b: int|
            0 <= a < tags.len() && 0 <= b < new_tags.len() ==> #[trigger] tags[a] != #[trigger] new_tags[b],
    ensures
        adding_meets(tags, states, new_tags, i),
    decreases tags.len() - i,
{
    if !(i < 0 || i >= tags.len() || new_tags.len() == 0) {
        let s = tags[i].slot();
        let rest = new_tags.drop_first();
        assert forall|a: int, b: int|
            0 <= a < tags.len() && 0 <= b < rest.len() implies #[trigger] tags[a] != #[trigger] rest[b] by {
            assert(rest[b] == new_tags[b + 1]);
        }
        assert(tags[i] != new_tags[0]);
        lemma_adding_meets_when_apart(tags, states.update(s, states[new_tags[0].slot()]), rest, i + 1);
        lemma_adding_meets_when_apart(tags, states, new_tags, i + 1);
    }
}

/// The state of an output that the compositor's logic reads: the tags it
/// displays, its serial, its blanking state, and whether it is powered.
#[derive(Debug)]
pub struct OutputState {
    /// The tags on this output (handles on their entries in the tag table).
    pub tags: Vec<Tag>,
    /// This monitor's edid serial. "Unknown" if it doesn't have one.
    pub serial: String,
    /// The modes the output supports.
    pub modes: Vec<Mode>,
    pub blanking_state: BlankingState,
    /// Whether the monitor is powered.
    ///
    /// Unpowered monitors aren't drawn to but their tags and windows
    /// still exist and can be interacted with.
    pub powered: bool,
}

impl Default for OutputState {
    fn default() -> (r: Self)
        ensures
            r.tags@.len() == 0,
            r.serial@ == Seq::<char>::empty(),
            r.modes@.len() == 0,
            r.blanking_state == BlankingState::NotBlanked,
            r.powered,
    {
        Self {
            tags: Vec::new(),
            serial: String::new(),
            modes: Vec::new(),
            blanking_state: BlankingState::NotBlanked,
            powered: true,
        }
    }
}

impl OutputState {
    /// The active tags of this output, in order.
    pub fn focused_tags(&self, table: &TagTable) -> (r: Vec<Tag>)
        requires
            all_held(*table, self.tags@),
        ensures
            r@ == active_tags(*table, self.tags@),
    {
        let mut r: Vec<Tag> = Vec::new();
        let mut i: usize = 0;
        while i < self.tags.len()
            invariant
                i <= self.tags.len(),
                all_held(*table, self.tags@),
                r@ == active_tags(*table, self.tags@.take(i as int)),
            decreases self.tags.len() - i,
        {
            assert(self.tags@.take(i + 1).drop_last() =~= self.tags@.take(i as int));
            let t = self.tags[i];
            assert(held(*table, self.tags@[i as int]));
            if t.active(table) {
                r.push(t);
            }
            i = i + 1;
        }
        assert(self.tags@.take(i as int) =~= self.tags@);
        r
    }

    /// Adds tags to this output, replacing defunct ones first: each defunct
    /// tag, in order, takes the place of the next new tag (it gets all of
    /// that tag's fields); the new tags left over are appended.
    pub fn add_tags(&mut self, table: &mut TagTable, tags: Vec<Tag>)
        requires
            all_held(*old(table), old(self).tags@),
            all_held(*old(table), tags@),
            adding_meets(old(self).tags@, old(table).states(), tags@, 0),
        ensures
            final(table).states() == adding_from(old(self).tags@, old(table).states(), tags@, 0).0,
            final(self).tags@ == old(self).tags@ + adding_from(
                old(self).tags@,
                old(table).states(),
                tags@,
                0,
            ).1,
            final(self).serial == old(self).serial,
            final(self).modes == old(self).modes,
            final(self).blanking_state == old(self).blanking_state,
            final(self).powered == old(self).powered,
    {
        let ghost old_tags = self.tags@;
        let ghost whole = adding_from(old_tags, table.states(), tags@, 0);
        let mut new_tags_left = tags;
        let mut i: usize = 0;
        while i < self.tags.len() && new_tags_left.len() > 0
            invariant
                self.tags@ == old_tags,
                0 <= i <= old_tags.len(),
                table.states().len() == old(table).states().len(),
                all_held(*table, old_tags),
                all_held(*table, new_tags_left@),
                whole == adding_from(old_tags, table.states(), new_tags_left@, i as int),
                adding_meets(old_tags, table.states(), new_tags_left@, i as int),
            decreases old_tags.len() - i,
        {
            let t = self.tags[i];
            assert(held(*table, old_tags[i as int]));
            if t.defunct(table) {
                let ghost left = new_tags_left@;
                let new_tag = new_tags_left.remove(0);
                proof {
                    assert(left[0] == new_tag);
                    assert(held(*table, left[0]));
                    assert(new_tags_left@ =~= left.drop_first());
                    assert forall|k: int| 0 <= k < new_tags_left@.len() implies held(
                        *table,
                        #[trigger] new_tags_left@[k],
                    ) by {
                        assert(new_tags_left@[k] == left[k + 1]);
                    }
                }
                t.replace(table, new_tag);
            }
            i = i + 1;
        }
        proof {
            assert(whole == (table.states(), new_tags_left@));
        }
        let mut rest = new_tags_left;
        self.tags.append(&mut rest);
    }
}

/// Every tag of every output has an entry in `table`.
pub open spec fn outputs_held(table: TagTable, outputs: Seq<OutputState>) -> bool {
    forall|o: int| 0 <= o < outputs.len() ==> all_held(table, #[trigger] outputs[o].tags@)
}

/// `tag` is live (not defunct) in `table` and has id `id`.
pub open spec fn live_with_id(table: TagTable, tag: Tag, id: TagId) -> bool {
    tag_state(table, tag).id == id && !tag_state(table, tag).defunct
}

/// The tag at position `k` of output `o` is the first live tag with `id`,
/// searching the outputs in order and each output's tags in order.
pub open spec fn is_first_live(outputs: Seq<OutputState>, table: TagTable, id: TagId, o: int, k: int) -> bool {
    &&& 0 <= o < outputs.len()
    &&& 0 <= k < outputs[o].tags@.len()
    &&& live_with_id(table, outputs[o].tags@[k], id)
    &&& forall|a: int, j: int|
        0 <= a < outputs.len() && 0 <= j < outputs[a].tags@.len() && (a < o || (a == o && j < k))
            ==> !live_with_id(table, #[trigger] outputs[a].tags@[j], id)
}

/// Some output holds a live tag with `id`.
pub open spec fn has_live(outputs: Seq<OutputState>, table: TagTable, id: TagId) -> bool {
    exists|o: int, k: int|
        0 <= o < outputs.len() && 0 <= k < outputs[o].tags@.len() && live_with_id(
            table,
            #[trigger] outputs[o].tags@[k],
            id,
        )
}

/// There is at most one first live tag.
pub proof fn lemma_first_live_unique(
    outputs: Seq<OutputState>,
    table: TagTable,
    id: TagId,
    o: int,
    k: int,
    o2: int,
    k2: int,
)
    requires
        is_first_live(outputs, table, id, o, k),
        is_first_live(outputs, table, id, o2, k2),
    ensures
        o == o2 && k == k2,
{
    if o < o2 || (o == o2 && k < k2) {
        assert(!live_with_id(table, outputs[o].tags@[k], id));
    } else if o2 < o || (o == o2 && k2 < k) {
        assert(!live_with_id(table, outputs[o2].tags@[k2], id));
    }
}

/// Where some output holds a live tag with `id`, one of them is the first.
pub proof fn lemma_first_live_exists(outputs: Seq<OutputState>, table: TagTable, id: TagId)
    requires
        has_live(outputs, table, id),
    ensures
        exists|o: int, k: int| is_first_live(outputs, table, id, o, k),
{
    let (o, k) = choose|o: int, k: int|
        0 <= o < outputs.len() && 0 <= k < outputs[o].tags@.len() && live_with_id(
            table,
            #[trigger] outputs[o].tags@[k],
            id,
        );
    lemma_first_live_from(outputs, table, id, o, k);
}

proof fn lemma_first_live_from(outputs: Seq<OutputState>, table: TagTable, id: TagId, o: int, k: int)
    requires
        0 <= o < outputs.len(),
        0 <= k < outputs[o].tags@.len(),
        live_with_id(table, outputs[o].tags@[k], id),
    ensures
        exists|a: int, j: int| is_first_live(outputs, table, id, a, j),
    decreases o, k,
{
    if !is_first_live(outputs, table, id, o, k) {
        let (a, j) = choose|a: int, j: int|
            0 <= a < outputs.len() && 0 <= j < outputs[a].tags@.len() && (a < o || (a == o && j < k))
                && live_with_id(table, #[trigger] outputs[a].tags@[j], id);
        lemma_first_live_from(outputs, table, id, a, j);
    } else {
        assert(is_first_live(outputs, table, id, o, k));
    }
}

impl TagId {
    /// The first live (not defunct) tag with this id, searching the outputs in order.
    pub fn tag(&self, outputs: &Vec<OutputState>, table: &TagTable) -> (r: Option<Tag>)
        requires
            outputs_held(*table, outputs@),
        ensures
            match r {
                Some(t) => exists|o: int, k: int|
                    is_first_live(outputs@, *table, *self, o, k) && #[trigger] outputs@[o].tags@[k] == t,
                None => !has_live(outputs@, *table, *self),
            },
    {
        let mut o: usize = 0;
        while o < outputs.len()
            invariant
                o <= outputs.len(),
                outputs_held(*table, outputs@),
                forall|a: int, k: int|
                    0 <= a < o && 0 <= k < outputs@[a].tags@.len() ==> !live_with_id(
                        *table,
                        #[trigger] outputs@[a].tags@[k],
                        *self,
                    ),
            decreases outputs.len() - o,
        {
            let tags = &outputs[o].tags;
            assert(all_held(*table, outputs@[o as int].tags@));
            let mut k: usize = 0;
            while k < tags.len()
                invariant
                    o < outputs.len(),
                    tags@ == outputs@[o as int].tags@,
                    all_held(*table, tags@),
                    k <= tags.len(),
                    forall|a: int, j: int|
                        0 <= a < o && 0 <= j < outputs@[a].tags@.len() ==> !live_with_id(
                            *table,
                            #[trigger] outputs@[a].tags@[j],
                            *self,
                        ),
                    forall|j: int| 0 <= j < k ==> !live_with_id(*table, #[trigger] tags@[j], *self),
                decreases tags.len() - k,
            {
                let t = tags[k];
                assert(held(*table, tags@[k as int]));
                if !t.defunct(table) && t.id(table) == *self {
                    assert(outputs@[o as int].tags@[k as int] == t);
                    assert(is_first_live(outputs@, *table, *self, o as int, k as int));
                    return Some(t);
                }
                k = k + 1;
            }
            o = o + 1;
        }
        None
    }
}

impl Tag {
    /// The position of the first output that holds this tag.
    pub fn output(&self, outputs: &Vec<OutputState>) -> (r: Option<usize>)
        ensures
            match r {
                Some(o) => o < outputs@.len() && outputs@[o as int].tags@.contains(*self) && forall|
                    a: int,
                | 0 <= a < o ==> !(#[trigger] outputs@[a]).tags@.contains(*self),
                None => forall|a: int|
                    0 <= a < outputs@.len() ==> !(#[trigger] outputs@[a]).tags@.contains(*self),
            },
    {
        let mut o: usize = 0;
        while o < outputs.len()
            invariant
                o <= outputs.len(),
                forall|a: int| 0 <= a < o ==> !(#[trigger] outputs@[a]).tags@.contains(*self),
            decreases outputs.len() - o,
        {
            let tags = &outputs[o].tags;
            let mut k: usize = 0;
            while k < tags.len()
                invariant
                    o < outputs.len(),
                    tags@ == outputs@[o as int].tags@,
                    k <= tags.len(),
                    forall|a: int| 0 <= a < o ==> !(#[trigger] outputs@[a]).tags@.contains(*self),
                    forall|j: int| 0 <= j < k ==> tags@[j] != *self,
                decreases tags.len() - k,
            {
                if tags[k] == *self {
                    assert(tags@[k as int] == *self);
                    assert(outputs@[o as int].tags@.contains(*self));
                    return Some(o);
                }
                k = k + 1;
            }
            o = o + 1;
        }
        None
    }
}

/// Output `a` is the first output that holds `tag`.
pub open spec fn first_holder(outputs: Seq<OutputState>, tag: Tag, a: int) -> bool {
    &&& 0 <= a < outputs.len()
    &&& outputs[a].tags@.contains(tag)
    &&& forall|b: int| 0 <= b < a ==> !(#[trigger] outputs[b]).tags@.contains(tag)
}

/// The tags' states after each of `tags` is made inactive.
pub open spec fn deactivated(states: Seq<TagState>, tags: Seq<Tag>) -> Seq<TagState>
    decreases tags.len(),
{
    if tags.len() == 0 {
        states
    } else {
        let d = deactivated(states, tags.drop_last());
        let s = tags.last().slot();
        d.update(s, TagState { active: false, ..d[s] })
    }
}

/// Toggles the tag with `tag_id` (the first live one, searching the outputs
/// in order): it becomes active if it was inactive, and inactive if it was
/// active. Returns the first output that holds it, whose windows are to be
/// updated; nothing where no output holds a live tag with that id.
pub fn toggle_tag(outputs: &Vec<OutputState>, table: &mut TagTable, tag_id: TagId) -> (r: Option<usize>)
    requires
        outputs_held(*old(table), outputs@),
    ensures
        !has_live(outputs@, *old(table), tag_id) ==> r is None && final(table).states() == old(
            table,
        ).states(),
        has_live(outputs@, *old(table), tag_id) ==> r is Some,
        forall|o: int, k: int| #[trigger]
            is_first_live(outputs@, *old(table), tag_id, o, k) ==> {
                let t = outputs@[o].tags@[k];
                let st = tag_state(*old(table), t);
                &&& final(table).states() == old(table).states().update(
                    t.slot(),
                    TagState { active: !st.active, ..st },
                )
                &&& r matches Some(a) && first_holder(outputs@, t, a as int)
            },
{
    proof {
        if has_live(outputs@, *table, tag_id) {
            lemma_first_live_exists(outputs@, *table, tag_id);
        }
    }
    let t = match tag_id.tag(outputs, table) {
        Some(t) => t,
        None => {
            return None;
        },
    };
    let ghost (o0, k0) = choose|o: int, k: int|
        is_first_live(outputs@, *table, tag_id, o, k) && #[trigger] outputs@[o].tags@[k] == t;
    proof {
        assert(all_held(*table, outputs@[o0].tags@));
        assert(held(*table, outputs@[o0].tags@[k0]));
        assert(outputs@[o0].tags@.contains(t));
    }
    let active = t.active(table);
    t.set_active(table, !active);
    let r = t.output(outputs);
    proof {
        assert forall|o: int, k: int| #[trigger]
            is_first_live(outputs@, *old(table), tag_id, o, k) implies outputs@[o].tags@[k] == t by {
            lemma_first_live_unique(outputs@, *old(table), tag_id, o, k, o0, k0);
        }
    }
    r
}

/// Switches to the tag with `tag_id` (the first live one, searching the
/// outputs in order): every tag of the first output that holds it is made
/// inactive, and then it is made active. Returns that output, whose windows
/// are to be updated; nothing where no output holds a live tag with that id.
pub fn switch_to_tag(outputs: &Vec<OutputState>, table: &mut TagTable, tag_id: TagId) -> (r: Option<usize>)
    requires
        outputs_held(*old(table), outputs@),
    ensures
        !has_live(outputs@, *old(table), tag_id) ==> r is None && final(table).states() == old(
            table,
        ).states(),
        has_live(outputs@, *old(table), tag_id) ==> r is Some,
        forall|o: int, k: int| #[trigger]
            is_first_live(outputs@, *old(table), tag_id, o, k) ==> {
                let t = outputs@[o].tags@[k];
                &&& r matches Some(a) && first_holder(outputs@, t, a as int) && {
                    let d = deactivated(old(table).states(), outputs@[a as int].tags@);
                    final(table).states() == d.update(t.slot(), TagState { active: true, ..d[t.slot()] })
                }
            },
{
    proof {
        if has_live(outputs@, *table, tag_id) {
            lemma_first_live_exists(outputs@, *table, tag_id);
        }
    }
    let t = match tag_id.tag(outputs, table) {
        Some(t) => t,
        None => {
            return None;
        },
    };
    let ghost (o0, k0) = choose|o: int, k: int|
        is_first_live(outputs@, *table, tag_id, o, k) && #[trigger] outputs@[o].tags@[k] == t;
    proof {
        assert(all_held(*table, outputs@[o0].tags@));
        assert(held(*table, outputs@[o0].tags@[k0]));
        assert(outputs@[o0].tags@.contains(t));
        assert forall|o: int, k: int| #[trigger]
            is_first_live(outputs@, *old(table), tag_id, o, k) implies outputs@[o].tags@[k] == t by {
            lemma_first_live_unique(outputs@, *old(table), tag_id, o, k, o0, k0);
        }
    }
    let a = match t.output(outputs) {
        Some(a) => a,
        None => {
            return None;
        },
    };
    let tags = &outputs[a].tags;
    let ghost before = table.states();
    proof {
        assert(all_held(*table, tags@));
    }
    let mut i: usize = 0;
    while i < tags.len()
        invariant
            i <= tags.len(),
            tags@ == outputs@[a as int].tags@,
            all_held(*old(table), tags@),
            held(*old(table), t),
            before == old(table).states(),
            table.states() == deactivated(before, tags@.take(i as int)),
            table.states().len() == before.len(),
        decreases tags.len() - i,
    {
        assert(tags@.take(i + 1).drop_last() =~= tags@.take(i as int));
        assert(held(*old(table), tags@[i as int]));
        tags[i].set_active(table, false);
        i = i + 1;
    }
    assert(tags@.take(i as int) =~= tags@);
    t.set_active(table, true);
    Some(a)
}

/// Deactivating `tags` leaves each of them inactive and every other entry as
/// it was.
proof fn lemma_deactivated(states: Seq<TagState>, tags: Seq<Tag>)
    requires
        forall|a: int| 0 <= a < tags.len() ==> 0 <= #[trigger] tags[a].slot() < states.len(),
    ensures
        deactivated(states, tags).len() == states.len(),
        forall|a: int| 0 <= a < tags.len() ==> !deactivated(states, tags)[#[trigger] tags[a].slot()].active,
        forall|s: int|
            0 <= s < states.len() && (forall|a: int| 0 <= a < tags.len() ==> #[trigger] tags[a].slot() != s)
                ==> #[trigger] deactivated(states, tags)[s] == states[s],
    decreases tags.len(),
{
    if tags.len() > 0 {
        let rest = tags.drop_last();
        assert forall|a: int| 0 <= a < rest.len() implies 0 <= #[trigger] rest[a].slot() < states.len() by {
            assert(rest[a] == tags[a]);
        }
        lemma_deactivated(states, rest);
        let d = deactivated(states, tags);
        assert forall|a: int| 0 <= a < tags.len() implies !d[#[trigger] tags[a].slot()].active by {
            if a < tags.len() - 1 {
                assert(rest[a] == tags[a]);
            }
        }
        assert forall|s: int|
            0 <= s < states.len() && (forall|a: int| 0 <= a < tags.len() ==> #[trigger] tags[a].slot() != s)
                implies #[trigger] d[s] == states[s] by {
            assert(tags[tags.len() - 1].slot() != s);
            assert forall|a: int| 0 <= a < rest.len() implies #[trigger] rest[a].slot() != s by {
                assert(rest[a] == tags[a]);
            }
        }
    }
}

/// Switching to a tag leaves it the one active tag of its output: afterwards
/// each of the output's tags is active exactly when it is that tag, and tags
/// of no other output change.
pub proof fn law_switch_leaves_one_active(states: Seq<TagState>, tags: Seq<Tag>, tag: Tag)
    requires
        forall|a: int| 0 <= a < tags.len() ==> 0 <= #[trigger] tags[a].slot() < states.len(),
        0 <= tag.slot() < states.len(),
    ensures
        ({
            let d = deactivated(states, tags);
            let after = d.update(tag.slot(), TagState { active: true, ..d[tag.slot()] });
            &&& forall|a: int|
                0 <= a < tags.len() ==> after[#[trigger] tags[a].slot()].active == (tags[a] == tag)
            &&& forall|s: int|
                0 <= s < states.len() && s != tag.slot() && (forall|a: int|
                    0 <= a < tags.len() ==> #[trigger] tags[a].slot() != s) ==> #[trigger] after[s]
                    == states[s]
        }),
{
    lemma_deactivated(states, tags);
    let d = deactivated(states, tags);
    let after = d.update(tag.slot(), TagState { active: true, ..d[tag.slot()] });
    assert forall|a: int| 0 <= a < tags.len() implies after[#[trigger] tags[a].slot()].active == (tags[a]
        == tag) by {
        Tag::lemma_same_tag(tags[a], tag);
    }
}

/// After adding tags, the tags that were not defunct are unchanged, where
/// the new tags are distinct from the output's tags: only defunct tags take
/// new tags' places.
pub proof fn law_add_tags_keeps_live_tags(
    tags: Seq<Tag>,
    states: Seq<TagState>,
    new_tags: Seq<Tag>,
    i: int,
    k: int,
)
    requires
        0 <= i,
        0 <= k < tags.len(),
        forall|a: int| 0 <= a < tags.len() ==> 0 <= #[trigger] tags[a].slot() < states.len(),
        !states[tags[k].slot()].defunct,
        forall|a: int, b: int|
            0 <= a < tags.len() && 0 <= b < tags.len() && a != b ==> #[trigger] tags[a].slot()
                != #[trigger] tags[b].slot(),
    ensures
        adding_from(tags, states, new_tags, i).0[tags[k].slot()] == states[tags[k].slot()],
        adding_from(tags, states, new_tags, i).0.len() == states.len(),
    decreases tags.len() - i,
{
    if !(i < 0 || i >= tags.len() || new_tags.len() == 0) {
        let s = tags[i].slot();
        if states[s].defunct {
            assert(s != tags[k].slot());
            law_add_tags_keeps_live_tags(
                tags,
                states.update(s, states[new_tags[0].slot()]),
                new_tags.drop_first(),
                i + 1,
                k,
            );
        } else {
            law_add_tags_keeps_live_tags(tags, states, new_tags, i + 1, k);
        }
    }
}

/// Adding enough new live tags, none of them the output's own, revives every
/// defunct tag of the output (given distinct tag entries): afterwards none of
/// the output's tags from position `i` on is defunct.
pub proof fn law_add_tags_replaces_defunct(
    tags: Seq<Tag>,
    states: Seq<TagState>,
    new_tags: Seq<Tag>,
    i: int,
    k: int,
)
    requires
        0 <= i <= k < tags.len(),
        forall|a: int| 0 <= a < tags.len() ==> 0 <= #[trigger] tags[a].slot() < states.len(),
        forall|a: int| 0 <= a < new_tags.len() ==> 0 <= #[trigger] new_tags[a].slot() < states.len(),
        forall|a: int, b: int|
            0 <= a < tags.len() && 0 <= b < tags.len() && a != b ==> #[trigger] tags[a].slot()
                != #[trigger] tags[b].slot(),
        new_tags.len() >= tags.len() - i,
        forall|a: int| 0 <= a < new_tags.len() ==> !states[#[trigger] new_tags[a].slot()].defunct,
        forall|a: int, b: int|
            0 <= a < tags.len() && 0 <= b < new_tags.len() ==> #[trigger] tags[a].slot()
                != #[trigger] new_tags[b].slot(),
    ensures
        !adding_from(tags, states, new_tags, i).0[tags[k].slot()].defunct,
    decreases tags.len() - i,
{
    let s = tags[i].slot();
    if states[s].defunct {
        let st2 = states.update(s, states[new_tags[0].slot()]);
        if i == k {
            assert(!st2[s].defunct);
            if i + 1 < tags.len() {
                law_add_tags_keeps_live_tags(tags, st2, new_tags.drop_first(), i + 1, k);
            }
        } else {
            let rest = new_tags.drop_first();
            assert forall|a: int| 0 <= a < rest.len() implies 0 <= #[trigger] rest[a].slot() < st2.len()
                && !st2[rest[a].slot()].defunct by {
                assert(rest[a] == new_tags[a + 1]);
                assert(tags[i].slot() != new_tags[a + 1].slot());
            }
            assert forall|a: int, b: int|
                0 <= a < tags.len() && 0 <= b < rest.len() implies #[trigger] tags[a].slot()
                != #[trigger] rest[b].slot() by {
                assert(rest[b] == new_tags[b + 1]);
            }
            law_add_tags_replaces_defunct(tags, st2, new_tags.drop_first(), i + 1, k);
        }
    } else {
        if i == k {
            law_add_tags_keeps_live_tags(tags, states, new_tags, i, k);
        } else {
            law_add_tags_replaces_defunct(tags, states, new_tags, i + 1, k);
        }
    }
}

/// Whether a mode has the given size, and the given refresh rate if there
/// is one.
pub open spec fn mode_fits(m: Mode, width: u32, height: u32, refresh_rate_mhz: Option<u32>) -> bool {
    &&& m.width == width as i32
    &&& m.height == height as i32
    &&& (refresh_rate_mhz is None || refresh_rate_mhz->0 as i32 == m.refresh)
}

/// The mode at `i` is the pick among `modes`: it fits, no fitting mode has a
/// higher refresh rate, and none after it has the same.
pub open spec fn is_picked_mode(
    modes: Seq<Mode>,
    i: int,
    width: u32,
    height: u32,
    refresh_rate_mhz: Option<u32>,
) -> bool {
    &&& 0 <= i < modes.len()
    &&& mode_fits(modes[i], width, height, refresh_rate_mhz)
    &&& forall|j: int|
        0 <= j < modes.len() && mode_fits(modes[j], width, height, refresh_rate_mhz) ==> {
            &&& modes[j].refresh <= modes[i].refresh
            &&& (j > i ==> modes[j].refresh < modes[i].refresh)
        }
}

/// Picks a known mode of the output with the given size. Without a refresh
/// rate, the mode with the highest refresh rate is picked (the last such one
/// where several share it); with one, only modes of that rate fit.
pub fn try_pick_mode(
    output: &OutputState,
    width: u32,
    height: u32,
    refresh_rate_mhz: Option<u32>,
) -> (r: Option<Mode>)
    ensures
        r is None <==> forall|j: int|
            0 <= j < output.modes@.len() ==> !mode_fits(
                #[trigger] output.modes@[j],
                width,
                height,
                refresh_rate_mhz,
            ),
        r is Some ==> exists|i: int|
            is_picked_mode(output.modes@, i, width, height, refresh_rate_mhz) && r->0
                == output.modes@[i],
{
    let modes = &output.modes;
    let w = width as i32;
    let h = height as i32;
    let mut best: Option<usize> = None;
    let mut i: usize = 0;
    while i < modes.len()
        invariant
            0 <= i <= modes@.len(),
            w == width as i32,
            h == height as i32,
            best is None ==> forall|j: int|
                0 <= j < i ==> !mode_fits(#[trigger] modes@[j], width, height, refresh_rate_mhz),
            best is Some ==> {
                &&& best->0 < i
                &&& mode_fits(modes@[best->0 as int], width, height, refresh_rate_mhz)
                &&& forall|j: int|
                    0 <= j < i && mode_fits(modes@[j], width, height, refresh_rate_mhz) ==> {
                        &&& modes@[j].refresh <= modes@[best->0 as int].refresh
                        &&& (j > best->0 ==> modes@[j].refresh < modes@[best->0 as int].refresh)
                    }
            },
        decreases modes@.len() - i,
    {
        let m = modes[i];
        let fits = m.width == w && m.height == h && match refresh_rate_mhz {
            None => true,
            Some(refresh) => refresh as i32 == m.refresh,
        };
        if fits {
            match best {
                None => {
                    best = Some(i);
                },
                Some(b) => {
                    if modes[b].refresh <= m.refresh {
                        best = Some(i);
                    }
                },
            }
        }
        i = i + 1;
    }
    match best {
        None => None,
        Some(b) => {
            assert(is_picked_mode(modes@, b as int, width, height, refresh_rate_mhz));
            Some(modes[b])
        },
    }
}

} // verus!
