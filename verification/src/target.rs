use vstd::prelude::*;

verus! {

/// One downloadable item of the listing page: where it links to and what it is called.
#[derive(Debug, PartialEq, Eq)]
pub struct Target {
    pub href: String,
    pub title: String,
}

/// The mathematical value of a [`Target`].
pub ghost struct TargetView {
    pub href: Seq<char>,
    pub title: Seq<char>,
}

impl View for Target {
    type V = TargetView;

    open spec fn view(&self) -> TargetView {
        TargetView { href: self.href@, title: self.title@ }
    }
}

impl DeepView for Target {
    type V = TargetView;

    open spec fn deep_view(&self) -> TargetView {
        self@
    }
}

impl Clone for Target {
    /// A copy with the same link and title.
    fn clone(&self) -> (copy: Target)
        ensures
            copy@ == self@,
    {
        Target { href: self.href.clone(), title: self.title.clone() }
    }
}

} // verus!
