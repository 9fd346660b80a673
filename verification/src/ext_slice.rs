//! Leftmost-window search and splitting on slices.

use vstd::prelude::*;
use vstd::std_specs::cmp::PartialEqSpec;

verus! {

/// `window` occurs in `items` at offset `at`, element by element.
pub open spec fn window_at<T: PartialEq>(items: Seq<T>, window: Seq<T>, at: int) -> bool {
    &&& 0 <= at
    &&& at + window.len() <= items.len()
    &&& forall|j: int| 0 <= j < window.len() ==> (#[trigger] items[at + j]).eq_spec(&window[j])
}

/// `at` is the offset of the leftmost occurrence of `window` in `items`.
pub open spec fn first_window_at<T: PartialEq>(items: Seq<T>, window: Seq<T>, at: int) -> bool {
    &&& window_at(items, window, at)
    &&& forall|k: int| 0 <= k < at ==> !window_at(items, window, k)
}

/// `window` occurs nowhere in `items`.
pub open spec fn no_window<T: PartialEq>(items: Seq<T>, window: Seq<T>) -> bool {
    forall|k: int| !window_at(items, window, k)
}

/// Whether `window` occurs in `items` at offset `at`.
fn window_matches<T: PartialEq>(items: &[T], window: &[T], at: usize) -> (same: bool)
    requires
        at + window@.len() <= items@.len(),
    ensures
        T::obeys_eq_spec() ==> (same <==> window_at(items@, window@, at as int)),
{
    let mut j: usize = 0;
    while j < window.len()
        invariant
            j <= window@.len(),
            at + window@.len() <= items@.len() == items.len(),
            T::obeys_eq_spec() ==> forall|i: int|
                0 <= i < j ==> (#[trigger] items@[at + i]).eq_spec(&window@[i]),
        decreases window@.len() - j,
    {
        if items[at + j] != window[j] {
            return false;
        }
        j += 1;
    }
    true
}

/// Searching a slice for a run of items.
pub trait ExtSlice {
    type Item;

    /// The elements that are searched.
    spec fn items(&self) -> Seq<Self::Item>;

    fn _ext_slice(&self) -> (slice: &[Self::Item])
        ensures
            slice@ == self.items(),
    ;

    /// Offset of the leftmost occurrence of `window`.
    fn find_window(&self, window: &[Self::Item]) -> (found: Option<usize>) where
        Self::Item: PartialEq,

        requires
            window@.len() > 0,
        ensures
            found matches Some(offset) ==> offset + window@.len() <= self.items().len(),
            <Self::Item as PartialEqSpec>::obeys_eq_spec() ==> match found {
                Some(offset) => first_window_at(self.items(), window@, offset as int),
                None => no_window(self.items(), window@),
            },
    {
        let items = self._ext_slice();
        let mut offset: usize = 0;
        while items.len() - offset >= window.len()
            invariant
                items@ == self.items(),
                window@.len() > 0,
                offset <= items@.len(),
                <Self::Item as PartialEqSpec>::obeys_eq_spec() ==> forall|k: int|
                    0 <= k < offset ==> !window_at(items@, window@, k),
            decreases items@.len() - offset,
        {
            if window_matches(items, window, offset) {
                return Some(offset);
            }
            offset += 1;
        }
        None
    }

    /// Splits once at the leftmost occurrence of `window`, which is left out.
    fn split_once<'a>(&'a self, window: &[Self::Item]) -> (halves: Option<
        (&'a [Self::Item], &'a [Self::Item]),
    >) where Self::Item: PartialEq
        requires
            window@.len() > 0,
        ensures
            halves matches Some((before, after)) ==> {
                &&& before@.len() + window@.len() + after@.len() == self.items().len()
                &&& before@ == self.items().subrange(0, before@.len() as int)
                &&& after@ == self.items().subrange(
                    (before@.len() + window@.len()) as int,
                    self.items().len() as int,
                )
            },
            <Self::Item as PartialEqSpec>::obeys_eq_spec() ==> match halves {
                Some((before, after)) => first_window_at(
                    self.items(),
                    window@,
                    before@.len() as int,
                ),
                None => no_window(self.items(), window@),
            },
    {
        let o = self.find_window(window)?;
        let (a, b) = self._ext_slice().split_at(o);
        let (_, b) = b.split_at(window.len());
        Some((a, b))
    }
}

impl<T> ExtSlice for [T] {
    type Item = T;

    open spec fn items(&self) -> Seq<T> {
        self@
    }

    fn _ext_slice(&self) -> (slice: &[T]) {
        self
    }
}

} // verus!
