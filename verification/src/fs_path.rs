//! Paths as a base plus components, joined the way `Path::join` joins them.

use vstd::prelude::*;

verus! {

/// A filesystem path: `base` joined with each of `components` in turn.
#[derive(Debug)]
pub struct FsPath {
    pub base: String,
    pub components: Vec<String>,
}

pub struct FsPathView {
    pub base: Seq<char>,
    pub components: Seq<Seq<char>>,
}

impl View for FsPath {
    type V = FsPathView;

    open spec fn view(&self) -> FsPathView {
        FsPathView { base: self.base@, components: self.components@.map_values(|c: String| c@) }
    }
}

impl FsPath {
    pub fn new(base: String) -> (r: Self)
        ensures
            r@.base == base@,
            r@.components == Seq::<Seq<char>>::empty(),
    {
        let r = FsPath { base, components: Vec::new() };
        assert(r@.components =~= Seq::<Seq<char>>::empty());
        r
    }

    /// Appends one component.
    pub fn join(self, component: String) -> (r: Self)
        ensures
            r@.base == self@.base,
            r@.components == self@.components.push(component@),
    {
        let FsPath { base, mut components } = self;
        let ghost before = components@;
        components.push(component);
        let r = FsPath { base, components };
        assert(r@.components =~= self@.components.push(component@));
        r
    }

    /// Appends one component given as a string slice.
    pub fn join_str(self, component: &str) -> (r: Self)
        ensures
            r@.base == self@.base,
            r@.components == self@.components.push(component@),
    {
        self.join(component.to_string())
    }

    /// A copy of the path.
    pub fn duplicate(&self) -> (r: Self)
        ensures
            r@ == self@,
    {
        let mut components: Vec<String> = Vec::new();
        let mut i: usize = 0;
        while i < self.components.len()
            invariant
                i <= self.components@.len(),
                components@.len() == i,
                forall|j: int| 0 <= j < i ==> #[trigger] components@[j]@ == self.components@[j]@,
            decreases self.components@.len() - i,
        {
            components.push(self.components[i].clone());
            i = i + 1;
        }
        let r = FsPath { base: self.base.clone(), components };
        assert(r@.components =~= self@.components);
        r
    }
}

} // verus!
