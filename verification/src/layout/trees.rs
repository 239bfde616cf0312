//! The layout trees of each output, by tree id, and which of them is
//! current.
use vstd::prelude::*;

use crate::keyed::{has_key, key_index, keys_distinct, lookup};

verus! {

/// A tree of an output (by handle), by its id.
#[derive(Debug, Clone, Copy, PartialEq, Eq, Structural)]
pub struct TreeKey {
    pub output: u64,
    pub tree_id: u32,
}

/// The trees of the outputs and the current tree id of each output.
#[derive(Debug)]
pub struct LayoutTrees<T> {
    current_layout_tree_ids: Vec<(u64, u32)>,
    layout_trees: Vec<(TreeKey, T)>,
}

impl<T> LayoutTrees<T> {
    /// The current tree id of each output that has one.
    pub closed spec fn current_ids(&self) -> Seq<(u64, u32)> {
        self.current_layout_tree_ids@
    }

    /// The trees, by output and id.
    pub closed spec fn trees(&self) -> Seq<(TreeKey, T)> {
        self.layout_trees@
    }

    /// One current id per output, one tree per output and id.
    pub open spec fn wf(&self) -> bool {
        keys_distinct(self.current_ids()) && keys_distinct(self.trees())
    }

    /// The tree that is current for `output`, if it has one.
    pub open spec fn spec_current_tree(&self, output: u64) -> Option<T> {
        match lookup(self.current_ids(), output) {
            Some(id) => lookup(self.trees(), TreeKey { output, tree_id: id }),
            None => None,
        }
    }

    /// No trees.
    pub fn new() -> (r: Self)
        ensures
            r.wf(),
            r.current_ids().len() == 0,
            r.trees().len() == 0,
    {
        LayoutTrees { current_layout_tree_ids: Vec::new(), layout_trees: Vec::new() }
    }

    fn find_current(&self, output: u64) -> (r: Option<usize>)
        requires
            self.wf(),
        ensures
            match r {
                Some(i) => i < self.current_ids().len() && has_key(self.current_ids(), output)
                    && key_index(self.current_ids(), output) == i,
                None => !has_key(self.current_ids(), output),
            },
    {
        let mut i: usize = 0;
        while i < self.current_layout_tree_ids.len()
            invariant
                keys_distinct(self.current_layout_tree_ids@),
                0 <= i <= self.current_layout_tree_ids@.len(),
                forall|j: int| 0 <= j < i ==> self.current_layout_tree_ids@[j].0 != output,
            decreases self.current_layout_tree_ids@.len() - i,
        {
            if self.current_layout_tree_ids[i].0 == output {
                proof {
                    crate::keyed::lemma_key_index_unique(self.current_layout_tree_ids@, i as int);
                }
                return Some(i);
            }
            i = i + 1;
        }
        None
    }

    fn find_tree(&self, key: TreeKey) -> (r: Option<usize>)
        requires
            self.wf(),
        ensures
            match r {
                Some(i) => i < self.trees().len() && has_key(self.trees(), key) && key_index(
                    self.trees(),
                    key,
                ) == i,
                None => !has_key(self.trees(), key),
            },
    {
        let mut i: usize = 0;
        while i < self.layout_trees.len()
            invariant
                keys_distinct(self.layout_trees@),
                0 <= i <= self.layout_trees@.len(),
                forall|j: int| 0 <= j < i ==> self.layout_trees@[j].0 != key,
            decreases self.layout_trees@.len() - i,
        {
            if self.layout_trees[i].0 == key {
                proof {
                    crate::keyed::lemma_key_index_unique(self.layout_trees@, i as int);
                }
                return Some(i);
            }
            i = i + 1;
        }
        None
    }

    /// Takes the tree of `output` with id `tree_id` out, if there is one,
    /// so that it can be brought up to date and put back.
    pub fn take_tree(&mut self, output: u64, tree_id: u32) -> (r: Option<T>)
        requires
            old(self).wf(),
        ensures
            final(self).wf(),
            r == lookup(old(self).trees(), TreeKey { output, tree_id }),
            final(self).current_ids() == old(self).current_ids(),
            forall|k: TreeKey| #[trigger]
                lookup(final(self).trees(), k) == if k == (TreeKey { output, tree_id }) {
                    None
                } else {
                    lookup(old(self).trees(), k)
                },
    {
        let key = TreeKey { output, tree_id };
        match self.find_tree(key) {
            Some(i) => {
                proof {
                    crate::keyed::lemma_key_index_unique(self.layout_trees@, i as int);
                    crate::keyed::lemma_remove_at(self.layout_trees@, i as int);
                }
                let (_, tree) = self.layout_trees.remove(i);
                Some(tree)
            },
            None => {
                proof {
                    assert(lookup(self.layout_trees@, key) is None);
                }
                None
            },
        }
    }

    /// Puts a tree under `output` and `tree_id`, where none is.
    pub fn put_tree(&mut self, output: u64, tree_id: u32, tree: T)
        requires
            old(self).wf(),
            !has_key(old(self).trees(), TreeKey { output, tree_id }),
        ensures
            final(self).wf(),
            final(self).current_ids() == old(self).current_ids(),
            forall|k: TreeKey| #[trigger]
                lookup(final(self).trees(), k) == if k == (TreeKey { output, tree_id }) {
                    Some(tree)
                } else {
                    lookup(old(self).trees(), k)
                },
    {
        let key = TreeKey { output, tree_id };
        proof {
            crate::keyed::lemma_push_fresh(self.layout_trees@, key, tree);
        }
        self.layout_trees.push((key, tree));
    }

    /// Makes the tree with id `tree_id` the current one of `output`.
    pub fn set_current(&mut self, output: u64, tree_id: u32)
        requires
            old(self).wf(),
        ensures
            final(self).wf(),
            final(self).trees() == old(self).trees(),
            forall|o: u64| #[trigger]
                lookup(final(self).current_ids(), o) == if o == output {
                    Some(tree_id)
                } else {
                    lookup(old(self).current_ids(), o)
                },
    {
        match self.find_current(output) {
            Some(i) => {
                proof {
                    crate::keyed::lemma_key_index_unique(self.current_layout_tree_ids@, i as int);
                    crate::keyed::lemma_update_value(self.current_layout_tree_ids@, i as int, tree_id);
                }
                self.current_layout_tree_ids.set(i, (output, tree_id));
            },
            None => {
                proof {
                    crate::keyed::lemma_push_fresh(self.current_layout_tree_ids@, output, tree_id);
                }
                self.current_layout_tree_ids.push((output, tree_id));
            },
        }
    }

    /// The tree that is current for `output`, if it has one.
    pub fn current_tree_for_output(&self, output: u64) -> (r: Option<&T>)
        requires
            self.wf(),
        ensures
            match r {
                Some(t) => self.spec_current_tree(output) == Some(*t),
                None => self.spec_current_tree(output) is None,
            },
    {
        let id = match self.find_current(output) {
            Some(i) => {
                proof {
                    crate::keyed::lemma_key_index_unique(self.current_layout_tree_ids@, i as int);
                }
                self.current_layout_tree_ids[i].1
            },
            None => {
                proof {
                    assert(lookup(self.current_layout_tree_ids@, output) is None);
                }
                return None;
            },
        };
        match self.find_tree(TreeKey { output, tree_id: id }) {
            Some(j) => {
                proof {
                    crate::keyed::lemma_key_index_unique(self.layout_trees@, j as int);
                }
                Some(&self.layout_trees[j].1)
            },
            None => {
                proof {
                    assert(lookup(self.layout_trees@, TreeKey { output, tree_id: id }) is None);
                }
                None
            },
        }
    }

    /// Forgets every tree of `output`; its current tree id stays.
    pub fn remove_output(&mut self, output: u64)
        requires
            old(self).wf(),
        ensures
            final(self).wf(),
            final(self).current_ids() == old(self).current_ids(),
            forall|k: TreeKey| #[trigger]
                lookup(final(self).trees(), k) == if k.output == output {
                    None
                } else {
                    lookup(old(self).trees(), k)
                },
    {
        let mut i: usize = 0;
        while i < self.layout_trees.len()
            invariant
                keys_distinct(self.layout_trees@),
                self.current_layout_tree_ids@ == old(self).current_layout_tree_ids@,
                0 <= i <= self.layout_trees@.len(),
                forall|j: int| 0 <= j < i ==> self.layout_trees@[j].0.output != output,
                forall|k: TreeKey|
                    k.output != output ==> #[trigger] lookup(self.layout_trees@, k) == lookup(
                        old(self).layout_trees@,
                        k,
                    ),
            decreases self.layout_trees@.len() - i,
        {
            if self.layout_trees[i].0.output == output {
                proof {
                    crate::keyed::lemma_remove_at(self.layout_trees@, i as int);
                }
                let _ = self.layout_trees.remove(i);
            } else {
                i = i + 1;
            }
        }
        proof {
            assert forall|k: TreeKey| #[trigger] lookup(self.layout_trees@, k) == if k.output == output {
                None
            } else {
                lookup(old(self).layout_trees@, k)
            } by {
                if k.output == output && has_key(self.layout_trees@, k) {
                    let j = key_index(self.layout_trees@, k);
                    assert(self.layout_trees@[j].0 == k);
                }
            }
        }
    }
}

} // verus!
