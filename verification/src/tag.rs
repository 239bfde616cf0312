//! Tags: markers that windows carry and outputs display.
use vstd::prelude::*;

verus! {

/// The source of fresh tag ids: the value the next `TagId::next` hands out.
///
/// It wraps around after `u32::MAX`, like an atomic counter that is incremented
/// with `fetch_add`.
#[derive(Debug, Clone, Copy, PartialEq, Eq, Structural, Default)]
pub struct TagIdCounter {
    pub next: u32,
}

/// The value that follows `v` on a wrapping `u32` counter.
pub open spec fn wrapping_succ(v: u32) -> u32 {
    if v == u32::MAX { 0 } else { (v + 1) as u32 }
}

/// A unique id for a [`Tag`].
#[derive(Debug, Hash, PartialEq, Eq, Clone, Copy, Structural)]
pub struct TagId(u32);

impl TagId {
    /// The numeric value of this id.
    pub closed spec fn value(self) -> u32 {
        self.0
    }

    /// Two ids are the same exactly when their values are.
    pub proof fn lemma_value_determines(a: TagId, b: TagId)
        ensures
            (a == b) == (a.value() == b.value()),
    {
    }

    /// Creates a new tag ID.
    pub fn new(id: u32) -> (r: Self)
        ensures
            r.value() == id,
    {
        Self(id)
    }

    /// Gets the next available `TagId` from `counter`.
    pub fn next(counter: &mut TagIdCounter) -> (r: Self)
        ensures
            r.value() == old(counter).next,
            final(counter).next == wrapping_succ(old(counter).next),
    {
        let id = counter.next;
        counter.next = counter.next.wrapping_add(1);
        Self(id)
    }

    /// Resets the tag id counter, so that the next id handed out is 0.
    ///
    /// This is used, for example, when a config is reloaded and you want to keep
    /// windows on the same tags.
    pub fn reset(counter: &mut TagIdCounter)
        ensures
            final(counter).next == 0,
    {
        counter.next = 0;
    }

    /// Gets the inner numeric ID.
    pub fn to_inner(self) -> (r: u32)
        ensures
            r == self.value(),
    {
        self.0
    }
}

/// What a tag holds: its id, its name, whether it is active, and whether it
/// is defunct (left over from a config reload, to be replaced by the next
/// added tag).
pub struct TagState {
    pub id: TagId,
    pub name: Seq<char>,
    pub active: bool,
    pub defunct: bool,
}

/// The inner state of one tag, shared by all copies of the tag.
#[derive(Debug)]
struct TagInner {
    id: TagId,
    name: String,
    active: bool,
    defunct: bool,
}

spec fn inner_state(t: TagInner) -> TagState {
    TagState { id: t.id, name: t.name@, active: t.active, defunct: t.defunct }
}

/// The state of every tag. A `Tag` names one entry of this table, and all
/// copies of a tag name the same entry, so that what is done through one
/// copy is seen through all of them.
#[derive(Debug)]
pub struct TagTable {
    inner: Vec<TagInner>,
}

impl TagTable {
    /// The tags' states, by entry.
    pub closed spec fn states(&self) -> Seq<TagState> {
        self.inner@.map_values(|t: TagInner| inner_state(t))
    }

    /// No tags yet.
    pub fn new() -> (r: Self)
        ensures
            r.states() == Seq::<TagState>::empty(),
    {
        let r = TagTable { inner: Vec::new() };
        assert(r.states() =~= Seq::<TagState>::empty());
        r
    }
}

/// A marker for windows.
///
/// A window may have 0 or more tags, and you can display 0 or more tags
/// on each output at a time. A tag is a shared handle on its entry in the
/// `TagTable`: copies of a tag are the same tag, and two tags are equal
/// only when they are the same tag.
#[derive(Debug, Clone, Copy, PartialEq, Eq, Hash, Structural)]
pub struct Tag {
    slot: usize,
}

/// The state that `table` holds for `tag`.
pub open spec fn tag_state(table: TagTable, tag: Tag) -> TagState {
    table.states()[tag.slot()]
}

/// `table` holds an entry for `tag`.
pub open spec fn held(table: TagTable, tag: Tag) -> bool {
    0 <= tag.slot() < table.states().len()
}

/// `table` holds an entry for each of `tags`.
pub open spec fn all_held(table: TagTable, tags: Seq<Tag>) -> bool {
    forall|i: int| 0 <= i < tags.len() ==> held(table, #[trigger] tags[i])
}

impl Tag {
    /// The table entry this tag names.
    pub closed spec fn slot(self) -> int {
        self.slot as int
    }

    /// Two tags are the same tag exactly when they name the same entry.
    pub proof fn lemma_same_tag(a: Tag, b: Tag)
        ensures
            (a == b) == (a.slot() == b.slot()),
    {
    }

    /// Creates a new, inactive tag with a fresh id taken from `counter`, as
    /// a new entry of `table`.
    pub fn new(name: String, counter: &mut TagIdCounter, table: &mut TagTable) -> (r: Self)
        requires
            old(table).states().len() < usize::MAX,
        ensures
            r.slot() == old(table).states().len(),
            final(table).states().len() == old(table).states().len() + 1,
            final(table).states().drop_last() == old(table).states(),
            tag_state(*final(table), r).id.value() == old(counter).next,
            tag_state(*final(table), r).name == name@,
            !tag_state(*final(table), r).active,
            !tag_state(*final(table), r).defunct,
            final(counter).next == wrapping_succ(old(counter).next),
    {
        let slot = table.inner.len();
        let id = TagId::next(counter);
        table.inner.push(TagInner { id, name, active: false, defunct: false });
        proof {
            assert(table.states().drop_last() =~= old(table).states());
        }
        Tag { slot }
    }

    /// Replaces all inner fields of this tag with the ones from `new_tag`:
    /// its id, name, active state and whether it is defunct.
    ///
    /// `new_tag` must be another tag than this one.
    pub fn replace(&self, table: &mut TagTable, new_tag: Tag)
        requires
            held(*old(table), *self),
            held(*old(table), new_tag),
            new_tag != *self,
        ensures
            final(table).states() == old(table).states().update(
                self.slot(),
                tag_state(*old(table), new_tag),
            ),
    {
        let n = &table.inner[new_tag.slot];
        let inner = TagInner { id: n.id, name: n.name.clone(), active: n.active, defunct: n.defunct };
        table.inner.set(self.slot, inner);
        proof {
            assert(table.states() =~= old(table).states().update(
                self.slot(),
                tag_state(*old(table), new_tag),
            ));
        }
    }

    /// Gets this tag's unique numeric ID.
    pub fn id(&self, table: &TagTable) -> (r: TagId)
        requires
            held(*table, *self),
        ensures
            r == tag_state(*table, *self).id,
    {
        table.inner[self.slot].id
    }

    /// Gets this tag's name.
    pub fn name(&self, table: &TagTable) -> (r: String)
        requires
            held(*table, *self),
        ensures
            r@ == tag_state(*table, *self).name,
    {
        table.inner[self.slot].name.clone()
    }

    /// Gets whether this tag is active.
    pub fn active(&self, table: &TagTable) -> (r: bool)
        requires
            held(*table, *self),
        ensures
            r == tag_state(*table, *self).active,
    {
        table.inner[self.slot].active
    }

    /// Sets this tag's active state.
    ///
    /// Returns whether the new state is different from the old one.
    pub fn set_active(&self, table: &mut TagTable, active: bool) -> (changed: bool)
        requires
            held(*old(table), *self),
        ensures
            changed == (tag_state(*old(table), *self).active != active),
            final(table).states() == old(table).states().update(
                self.slot(),
                TagState { active, ..tag_state(*old(table), *self) },
            ),
    {
        let t = &table.inner[self.slot];
        let previous = t.active;
        let inner = TagInner { id: t.id, name: t.name.clone(), active, defunct: t.defunct };
        table.inner.set(self.slot, inner);
        proof {
            assert(table.states() =~= old(table).states().update(
                self.slot(),
                TagState { active, ..tag_state(*old(table), *self) },
            ));
        }
        previous != active
    }

    /// Gets whether this tag is defunct as a result of a config reload.
    pub fn defunct(&self, table: &TagTable) -> (r: bool)
        requires
            held(*table, *self),
        ensures
            r == tag_state(*table, *self).defunct,
    {
        table.inner[self.slot].defunct
    }

    /// Makes this tag defunct.
    pub fn make_defunct(&self, table: &mut TagTable)
        requires
            held(*old(table), *self),
        ensures
            final(table).states() == old(table).states().update(
                self.slot(),
                TagState { defunct: true, ..tag_state(*old(table), *self) },
            ),
    {
        let t = &table.inner[self.slot];
        let inner = TagInner { id: t.id, name: t.name.clone(), active: t.active, defunct: true };
        table.inner.set(self.slot, inner);
        proof {
            assert(table.states() =~= old(table).states().update(
                self.slot(),
                TagState { defunct: true, ..tag_state(*old(table), *self) },
            ));
        }
    }
}

/// `tags` without any copy of `tag`, in order.
pub open spec fn without_tag(tags: Seq<Tag>, tag: Tag) -> Seq<Tag>
    decreases tags.len(),
{
    if tags.len() == 0 {
        Seq::empty()
    } else {
        let rest = without_tag(tags.drop_last(), tag);
        if tags.last() == tag {
            rest
        } else {
            rest.push(tags.last())
        }
    }
}

/// Toggles `tag` on a window whose tags are `window_tags`: a window that has
/// the tag loses it (every copy), and one that does not gets it last.
pub fn toggle_tag_on_window(window_tags: &mut Vec<Tag>, tag: Tag)
    ensures
        old(window_tags)@.contains(tag) ==> final(window_tags)@ == without_tag(old(window_tags)@, tag),
        !old(window_tags)@.contains(tag) ==> final(window_tags)@ == old(window_tags)@.push(tag),
{
    let mut found = false;
    let mut kept: Vec<Tag> = Vec::new();
    let mut i: usize = 0;
    while i < window_tags.len()
        invariant
            i <= window_tags.len(),
            window_tags@ == old(window_tags)@,
            kept@ == without_tag(window_tags@.take(i as int), tag),
            found == window_tags@.take(i as int).contains(tag),
        decreases window_tags.len() - i,
    {
        let ghost prefix = window_tags@.take(i as int);
        let ghost next = window_tags@.take(i + 1);
        assert(next.drop_last() =~= prefix);
        assert(next.last() == window_tags@[i as int]);
        let t = window_tags[i];
        if t == tag {
            found = true;
            assert(next.contains(tag));
        } else {
            kept.push(t);
            assert(next.contains(tag) == prefix.contains(tag)) by {
                if next.contains(tag) {
                    let j = choose|j: int| 0 <= j < next.len() && next[j] == tag;
                    assert(prefix[j] == tag);
                }
                if prefix.contains(tag) {
                    let j = choose|j: int| 0 <= j < prefix.len() && prefix[j] == tag;
                    assert(next[j] == tag);
                }
            }
        }
        i = i + 1;
    }
    assert(window_tags@.take(i as int) =~= window_tags@);
    if found {
        *window_tags = kept;
    } else {
        window_tags.push(tag);
    }
}

/// A tag and its copies are one tag: a change made through any copy is
/// what every copy reads, and tags made apart are never equal.
pub proof fn law_copies_share_one_state(table: TagTable, tag: Tag, copy: Tag, other: Tag)
    requires
        copy == tag,
        other.slot() != tag.slot(),
    ensures
        tag_state(table, copy) == tag_state(table, tag),
        other != tag,
{
}

/// The ids that `count` successive calls of `TagId::next` hand out,
/// starting from a counter at `start`.
pub open spec fn ids_from(start: u32, count: nat) -> Seq<u32>
    decreases count,
{
    if count == 0 {
        Seq::empty()
    } else {
        ids_from(start, (count - 1) as nat).push(((start + count - 1) % 0x1_0000_0000) as u32)
    }
}

/// The counter after `count` successive calls of `TagId::next` from `start`.
pub open spec fn counter_after(start: u32, count: nat) -> u32 {
    ((start + count) % 0x1_0000_0000) as u32
}

/// One more id: the next call hands out the counter's value and advances it.
pub proof fn lemma_ids_from_step(start: u32, count: nat)
    ensures
        ids_from(start, count + 1) == ids_from(start, count).push(counter_after(start, count)),
        counter_after(start, count + 1) == wrapping_succ(counter_after(start, count)),
        ids_from(start, count).len() == count,
    decreases count,
{
    if count > 0 {
        lemma_ids_from_step(start, (count - 1) as nat);
    }
}

/// Tag ids are unique until the counter wraps: up to 2^32 successive ids
/// handed out by `TagId::next` are pairwise distinct.
pub proof fn law_tag_ids_distinct(start: u32, count: nat, i: int, j: int)
    requires
        count <= 0x1_0000_0000,
        0 <= i < j < count,
    ensures
        ids_from(start, count)[i] != ids_from(start, count)[j],
{
    lemma_ids_from_index(start, count, i);
    lemma_ids_from_index(start, count, j);
    assert(((start + i) % 0x1_0000_0000) != ((start + j) % 0x1_0000_0000)) by (nonlinear_arith)
        requires
            0 <= i < j < 0x1_0000_0000,
            0 <= start < 0x1_0000_0000,
    ;
}

/// The id at position `i` is the counter's start advanced `i` times.
pub proof fn lemma_ids_from_index(start: u32, count: nat, i: int)
    requires
        0 <= i < count,
    ensures
        ids_from(start, count).len() == count,
        ids_from(start, count)[i] == ((start + i) % 0x1_0000_0000) as u32,
    decreases count,
{
    lemma_ids_from_step(start, (count - 1) as nat);
    if i < count - 1 {
        lemma_ids_from_index(start, (count - 1) as nat, i);
    }
}

/// After a reset, the first id handed out is 0 and the next ones follow in
/// order, so a reloaded config gets the same tag ids as before.
pub proof fn law_reset_restarts_ids(count: nat, i: int)
    requires
        count <= 0x1_0000_0000,
        0 <= i < count,
    ensures
        ids_from(0, count)[i] == i,
{
    lemma_ids_from_index(0, count, i);
}

} // verus!
