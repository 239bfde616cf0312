//! Render elements of a window, split into its own surfaces and its popups.
use vstd::prelude::*;

verus! {

/// The render elements of a surface tree: the surfaces' own, and those of
/// their popups.
#[derive(Debug)]
pub struct SplitRenderElements<E> {
    pub surface_elements: Vec<E>,
    pub popup_elements: Vec<E>,
}

impl<E> Default for SplitRenderElements<E> {
    fn default() -> (r: Self)
        ensures
            r.surface_elements@.len() == 0,
            r.popup_elements@.len() == 0,
    {
        SplitRenderElements { surface_elements: Vec::new(), popup_elements: Vec::new() }
    }
}

impl<E> SplitRenderElements<E> {
    /// All elements, front to back: the popups above the surfaces.
    pub fn into_stacked(self) -> (r: Vec<E>)
        ensures
            r@ == self.popup_elements@ + self.surface_elements@,
    {
        let SplitRenderElements { surface_elements, popup_elements } = self;
        let mut r = popup_elements;
        let mut rest = surface_elements;
        r.append(&mut rest);
        r
    }
}

} // verus!
