//! The mathematical model of a two-layer value: what a cell holds, and how
//! each operation changes it, stated without any storage detail.

use vstd::multiset::Multiset;
use vstd::prelude::*;

verus! {

/// What a key owns at one moment: its current value and, below it, the value
/// that the current one most recently replaced.
pub struct Layers<T> {
    /// The foreground: the current value.
    pub fg: Option<T>,
    /// The background: the value most recently superseded.
    pub bg: Option<T>,
}

impl<T> Layers<T> {
    /// Nothing in either layer.
    pub open spec fn empty() -> Self {
        Layers { fg: None, bg: None }
    }

    /// A foreground alone.
    pub open spec fn single(v: T) -> Self {
        Layers { fg: Some(v), bg: None }
    }

    /// A foreground with a background below it.
    pub open spec fn both(fg: T, bg: T) -> Self {
        Layers { fg: Some(fg), bg: Some(bg) }
    }

    /// Neither layer holds a value.
    pub open spec fn is_empty(self) -> bool {
        self.fg is None && self.bg is None
    }

    /// A background is present only below a foreground.
    pub open spec fn stacked(self) -> bool {
        self.bg is Some ==> self.fg is Some
    }

    /// The layers after `v` is installed as the foreground: the former
    /// foreground becomes the background, the former background is gone.
    pub open spec fn push(self, v: T) -> Self {
        Layers { fg: Some(v), bg: self.fg }
    }

    /// The layers after the foreground is taken away: the background, if
    /// any, is promoted; nothing remains below it.
    pub open spec fn pull(self) -> Self {
        Layers { fg: self.bg, bg: None }
    }

    /// The number of values held.
    pub open spec fn count(self) -> nat {
        (if self.fg is Some { 1nat } else { 0nat }) + (if self.bg is Some { 1nat } else { 0nat })
    }

    /// The values held, each as often as it is held.
    pub open spec fn values(self) -> Multiset<T> {
        bag(self.fg).add(bag(self.bg))
    }
}

/// The values in an optional value: one or none.
pub open spec fn bag<T>(o: Option<T>) -> Multiset<T> {
    match o {
        Some(v) => Multiset::singleton(v),
        None => Multiset::empty(),
    }
}

/// A shared reference to what an optional value holds.
pub open spec fn borrowed<'a, T>(o: &'a Option<T>) -> Option<&'a T> {
    match o {
        Some(v) => Some(v),
        None => None,
    }
}

} // verus!
