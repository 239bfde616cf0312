//! Work that waits for an output's next layout: queued per output, taken in
//! the order it was added.
use vstd::prelude::*;

verus! {

/// The items queued for `output` among `entries`, in order.
pub open spec fn items_for<T>(entries: Seq<(u64, T)>, output: u64) -> Seq<T>
    decreases entries.len(),
{
    if entries.len() == 0 {
        Seq::empty()
    } else {
        let rest = items_for(entries.drop_last(), output);
        if entries.last().0 == output {
            rest.push(entries.last().1)
        } else {
            rest
        }
    }
}

/// The position of the first entry for `output`, or the number of entries
/// if there is none.
pub open spec fn first_index<T>(entries: Seq<(u64, T)>, output: u64) -> int
    decreases entries.len(),
{
    if entries.len() == 0 {
        0
    } else if entries[0].0 == output {
        0
    } else {
        1 + first_index(entries.drop_first(), output)
    }
}

proof fn lemma_items_for_empty<T>(entries: Seq<(u64, T)>, output: u64)
    ensures
        first_index(entries, output) == entries.len() <==> items_for(entries, output).len() == 0,
        0 <= first_index(entries, output) <= entries.len(),
        first_index(entries, output) < entries.len() ==> entries[first_index(entries, output)].0
            == output,
        forall|j: int| 0 <= j < first_index(entries, output) ==> entries[j].0 != output,
    decreases entries.len(),
{
    if entries.len() > 0 {
        let rest = entries.drop_first();
        lemma_items_for_empty(rest, output);
        lemma_items_for_front(entries, output);
        assert forall|j: int| 0 <= j < first_index(entries, output) implies entries[j].0
            != output by {
            if j > 0 {
                assert(entries[j] == rest[j - 1]);
            }
        }
    }
}

/// Reading the entries from the front.
proof fn lemma_items_for_front<T>(entries: Seq<(u64, T)>, output: u64)
    requires
        entries.len() > 0,
    ensures
        items_for(entries, output) == if entries[0].0 == output {
            seq![entries[0].1] + items_for(entries.drop_first(), output)
        } else {
            items_for(entries.drop_first(), output)
        },
    decreases entries.len(),
{
    let rest = entries.drop_first();
    assert(rest.len() == entries.len() - 1);
    if entries.len() == 1 {
        assert(entries.drop_last().len() == 0);
        assert(items_for(entries.drop_last(), output) =~= Seq::<T>::empty());
        assert(items_for(rest, output) =~= Seq::<T>::empty());
        assert(entries.last() == entries[0]);
        if entries[0].0 == output {
            assert(items_for(entries, output) =~= seq![entries[0].1]);
            assert(seq![entries[0].1] + items_for(rest, output) =~= seq![entries[0].1]);
        }
    } else {
        let d = entries.drop_last();
        lemma_items_for_front(d, output);
        assert(d.drop_first() =~= rest.drop_last());
        assert(d[0] == entries[0]);
        assert(rest.last() == entries.last());
        let x = items_for(rest.drop_last(), output);
        if entries[0].0 == output {
            if entries.last().0 == output {
                assert(items_for(entries, output) =~= (seq![entries[0].1] + x).push(entries.last().1));
                assert(items_for(rest, output) =~= x.push(entries.last().1));
                assert((seq![entries[0].1] + x).push(entries.last().1) =~= seq![entries[0].1] + x.push(
                    entries.last().1,
                ));
            } else {
                assert(items_for(entries, output) =~= seq![entries[0].1] + x);
                assert(items_for(rest, output) =~= x);
            }
        } else {
            if entries.last().0 == output {
                assert(items_for(entries, output) =~= x.push(entries.last().1));
                assert(items_for(rest, output) =~= x.push(entries.last().1));
            } else {
                assert(items_for(entries, output) =~= x);
                assert(items_for(rest, output) =~= x);
            }
        }
    }
}

/// Removing the first entry for `output` drops the first of its items and
/// leaves every other output's items as they are.
proof fn lemma_items_for_remove_first<T>(entries: Seq<(u64, T)>, output: u64)
    requires
        first_index(entries, output) < entries.len(),
    ensures
        items_for(entries.remove(first_index(entries, output)), output) == items_for(
            entries,
            output,
        ).drop_first(),
        items_for(entries, output).len() > 0,
        items_for(entries, output)[0] == entries[first_index(entries, output)].1,
        forall|o: u64|
            o != output ==> #[trigger] items_for(entries.remove(first_index(entries, output)), o)
                == items_for(entries, o),
    decreases entries.len(),
{
    let i = first_index(entries, output);
    let rest = entries.drop_first();
    assert(rest.len() == entries.len() - 1);
    lemma_items_for_front(entries, output);
    lemma_items_for_empty(rest, output);
    if entries[0].0 == output {
        assert(i == 0);
        assert(entries.remove(0) =~= rest);
        assert forall|o: u64| o != output implies #[trigger] items_for(entries.remove(i), o)
            == items_for(entries, o) by {
            lemma_items_for_front(entries, o);
        }
        assert(items_for(entries, output).drop_first() =~= items_for(rest, output));
    } else {
        assert(i == 1 + first_index(rest, output));
        lemma_items_for_remove_first(rest, output);
        let removed = entries.remove(i);
        assert(removed.len() == entries.len() - 1);
        assert(removed.drop_first() =~= rest.remove(i - 1));
        assert(removed[0] == entries[0]);
        lemma_items_for_front(removed, output);
        assert forall|o: u64| o != output implies #[trigger] items_for(entries.remove(i), o)
            == items_for(entries, o) by {
            lemma_items_for_front(removed, o);
            lemma_items_for_front(entries, o);
        }
    }
}

/// Items queued per output (by an output's handle), taken first in, first
/// out.
#[derive(Debug)]
pub struct PendingQueues<T> {
    entries: Vec<(u64, T)>,
}

impl<T> PendingQueues<T> {
    /// The items queued for `output`, oldest first.
    pub closed spec fn queue(&self, output: u64) -> Seq<T> {
        items_for(self.entries@, output)
    }

    /// No queue holds anything.
    pub fn new() -> (r: Self)
        ensures
            forall|o: u64| #[trigger] r.queue(o) == Seq::<T>::empty(),
    {
        let r = PendingQueues { entries: Vec::new() };
        assert forall|o: u64| #[trigger] r.queue(o) == Seq::<T>::empty() by {
            assert(items_for(r.entries@, o) =~= Seq::<T>::empty());
        }
        r
    }

    /// Adds an item at the back of `output`'s queue.
    pub fn add_for_output(&mut self, output: u64, pending: T)
        ensures
            final(self).queue(output) == old(self).queue(output).push(pending),
            forall|o: u64| o != output ==> #[trigger] final(self).queue(o) == old(self).queue(o),
    {
        self.entries.push((output, pending));
        proof {
            assert(self.entries@.drop_last() =~= old(self).entries@);
        }
    }

    /// The position of the first entry for `output`.
    fn find_first(&self, output: u64) -> (r: usize)
        ensures
            r == first_index(self.entries@, output),
    {
        proof {
            lemma_items_for_empty(self.entries@, output);
        }
        let mut i: usize = 0;
        while i < self.entries.len()
            invariant
                0 <= i <= self.entries@.len(),
                forall|j: int| 0 <= j < i ==> self.entries@[j].0 != output,
                0 <= first_index(self.entries@, output) <= self.entries@.len(),
                first_index(self.entries@, output) < self.entries@.len() ==> self.entries@[first_index(
                    self.entries@,
                    output,
                )].0 == output,
                forall|j: int|
                    0 <= j < first_index(self.entries@, output) ==> self.entries@[j].0 != output,
            decreases self.entries@.len() - i,
        {
            if self.entries[i].0 == output {
                return i;
            }
            i = i + 1;
        }
        i
    }

    /// The oldest item queued for `output`, if any.
    pub fn first_for_output(&self, output: u64) -> (r: Option<&T>)
        ensures
            self.queue(output).len() == 0 ==> r is None,
            self.queue(output).len() > 0 ==> r == Some(&self.queue(output)[0]),
    {
        let i = self.find_first(output);
        proof {
            lemma_items_for_empty(self.entries@, output);
        }
        if i < self.entries.len() {
            proof {
                lemma_items_for_remove_first(self.entries@, output);
            }
            Some(&self.entries[i].1)
        } else {
            None
        }
    }

    /// Takes the oldest item queued for `output`, if any.
    pub fn take_next_for_output(&mut self, output: u64) -> (r: Option<T>)
        ensures
            old(self).queue(output).len() == 0 ==> r is None && final(self).queue(output) == old(
                self,
            ).queue(output),
            old(self).queue(output).len() > 0 ==> r == Some(old(self).queue(output)[0])
                && final(self).queue(output) == old(self).queue(output).drop_first(),
            forall|o: u64| o != output ==> #[trigger] final(self).queue(o) == old(self).queue(o),
    {
        let i = self.find_first(output);
        proof {
            lemma_items_for_empty(self.entries@, output);
        }
        if i < self.entries.len() {
            proof {
                lemma_items_for_remove_first(self.entries@, output);
            }
            let (_, item) = self.entries.remove(i);
            Some(item)
        } else {
            None
        }
    }

    /// Takes the oldest item queued for `output` only where it is finished:
    /// `head_finished` says whether that item (as `first_for_output` shows
    /// it) is completed or cancelled. An unfinished oldest item blocks the
    /// queue, as pending transactions do.
    pub fn take_next_finished(&mut self, output: u64, head_finished: bool) -> (r: Option<T>)
        ensures
            old(self).queue(output).len() == 0 || !head_finished ==> r is None && forall|o: u64|
                #[trigger] final(self).queue(o) == old(self).queue(o),
            old(self).queue(output).len() > 0 && head_finished ==> r == Some(old(self).queue(output)[0])
                && final(self).queue(output) == old(self).queue(output).drop_first(),
            forall|o: u64| o != output ==> #[trigger] final(self).queue(o) == old(self).queue(o),
    {
        if !head_finished {
            return None;
        }
        self.take_next_for_output(output)
    }

    /// Drops everything queued for `output`.
    pub fn remove_output(&mut self, output: u64)
        ensures
            final(self).queue(output) == Seq::<T>::empty(),
            forall|o: u64| o != output ==> #[trigger] final(self).queue(o) == old(self).queue(o),
    {
        let mut i = self.find_first(output);
        while i < self.entries.len()
            invariant
                i == first_index(self.entries@, output),
                forall|o: u64|
                    o != output ==> #[trigger] items_for(self.entries@, o) == old(self).queue(o),
            decreases self.entries@.len(),
        {
            proof {
                lemma_items_for_remove_first(self.entries@, output);
            }
            let _ = self.entries.remove(i);
            i = self.find_first(output);
        }
        proof {
            lemma_items_for_empty(self.entries@, output);
            assert(self.queue(output) =~= Seq::<T>::empty());
        }
    }

    /// Whether no queue holds anything.
    pub fn is_empty(&self) -> (r: bool)
        ensures
            r == forall|o: u64| #[trigger] self.queue(o).len() == 0,
    {
        let r = self.entries.len() == 0;
        proof {
            if r {
                assert forall|o: u64| #[trigger] self.queue(o).len() == 0 by {}
            } else {
                let o = self.entries@.last().0;
                assert(self.queue(o).len() > 0);
            }
        }
        r
    }
}

/// Items leave a queue in the order they came: adding an item to a queue
/// leaves its oldest item first (or makes the new item first of an empty
/// queue), and taking the oldest item of the longer queue leaves the rest in
/// order with the new item last.
pub proof fn law_queue_first_in_first_out<T>(q: Seq<T>, item: T)
    ensures
        q.len() == 0 ==> q.push(item)[0] == item && q.push(item).drop_first() == Seq::<T>::empty(),
        q.len() > 0 ==> q.push(item)[0] == q[0] && q.push(item).drop_first() == q.drop_first().push(
            item,
        ),
{
    if q.len() == 0 {
        assert(q.push(item).drop_first() =~= Seq::<T>::empty());
    } else {
        assert(q.push(item).drop_first() =~= q.drop_first().push(item));
    }
}

} // verus!
