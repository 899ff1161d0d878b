//! The custom boundaries of the bucket fill, as the fill tool's menu keeps them.
use vstd::prelude::*;

use crate::text::{str_equal, views_of};
use crate::tool::FillMode;

verus! {

/// The type path a custom fill stops at until other boundaries are chosen.
pub open spec fn default_boundary() -> Seq<char> {
    "/turf/closed/wall"@
}

pub fn default_custom_fill_boundary() -> (path: String)
    ensures
        path@ == default_boundary(),
{
    "/turf/closed/wall".to_string()
}

/// No two texts of `texts` are the same.
pub open spec fn distinct_texts(texts: Seq<Seq<char>>) -> bool {
    forall|i: int, j: int| 0 <= i < j < texts.len() ==> texts[i] != texts[j]
}

/// The type paths a custom fill stops at, each listed once, in the order they were added.
#[derive(Debug)]
pub struct CustomFillBoundaries {
    pub paths: Vec<String>,
}

impl CustomFillBoundaries {
    pub open spec fn view(&self) -> Seq<Seq<char>> {
        views_of(self.paths@)
    }

    /// No path is listed twice.
    pub open spec fn well_formed(&self) -> bool {
        distinct_texts(self.view())
    }

    /// The list holding only the default boundary.
    pub fn new() -> (boundaries: Self)
        ensures
            boundaries.view() == seq![default_boundary()],
            boundaries.well_formed(),
    {
        let mut paths: Vec<String> = Vec::new();
        paths.push(default_custom_fill_boundary());
        let boundaries = CustomFillBoundaries { paths };
        assert(boundaries.view() =~= seq![default_boundary()]);
        boundaries
    }

    pub fn len(&self) -> (count: usize)
        ensures
            count == self.view().len(),
    {
        self.paths.len()
    }

    pub fn contains(&self, path: &str) -> (listed: bool)
        ensures
            listed == self.view().contains(path@),
    {
        let mut i: usize = 0;
        while i < self.paths.len()
            invariant
                i <= self.paths@.len(),
                forall|k: int| 0 <= k < i ==> self.view()[k] != path@,
            decreases self.paths.len() - i,
        {
            if str_equal(self.paths[i].as_str(), path) {
                assert(self.view()[i as int] == path@);
                return true;
            }
            i = i + 1;
        }
        false
    }

    /// Whether the menu offers to add the type picked in the palette: one is picked and it is not
    /// listed yet.
    pub fn can_add(&self, selected: Option<&str>) -> (offered: bool)
        ensures
            offered == match selected {
                Some(path) => !self.view().contains(path@),
                None => false,
            },
    {
        match selected {
            Some(path) => !self.contains(path),
            None => false,
        }
    }

    /// Adds `path` as a boundary and switches the fill to custom boundaries, unless the path is
    /// listed already, which changes nothing. Returns whether it was added.
    pub fn add(&mut self, path: String, fill_mode: &mut FillMode) -> (added: bool)
        requires
            old(self).well_formed(),
        ensures
            final(self).well_formed(),
            added == !old(self).view().contains(path@),
            added ==> final(self).view() == old(self).view().push(path@) && *final(fill_mode)
                == FillMode::Custom,
            !added ==> final(self).view() == old(self).view() && *final(fill_mode) == *old(fill_mode),
    {
        if self.contains(path.as_str()) {
            return false;
        }
        let ghost before = self.view();
        self.paths.push(path);
        assert(self.view() =~= before.push(path@));
        *fill_mode = FillMode::Custom;
        true
    }

    /// Takes the boundary at `index` off the list.
    pub fn remove(&mut self, index: usize)
        requires
            old(self).well_formed(),
            index < old(self).view().len(),
        ensures
            final(self).well_formed(),
            final(self).view() == old(self).view().remove(index as int),
    {
        let ghost before = self.view();
        self.paths.remove(index);
        assert(self.view() =~= before.remove(index as int));
        assert forall|i: int, j: int| 0 <= i < j < self.view().len() implies self.view()[i]
            != self.view()[j] by {
            let a = if i < index { i } else { i + 1 };
            let b = if j < index { j } else { j + 1 };
            assert(self.view()[i] == before[a]);
            assert(self.view()[j] == before[b]);
        }
    }

    /// Whether the list is the default one, which the reset item is greyed out for.
    pub fn is_default(&self) -> (default: bool)
        ensures
            default == (self.view() == seq![default_boundary()]),
    {
        if self.paths.len() != 1 {
            proof {
                if self.view() == seq![default_boundary()] {
                    assert(self.view().len() == 1);
                }
            }
            return false;
        }
        let wall = default_custom_fill_boundary();
        let same = str_equal(self.paths[0].as_str(), wall.as_str());
        proof {
            if same {
                assert(self.view() =~= seq![default_boundary()]);
            } else if self.view() == seq![default_boundary()] {
                assert(self.view()[0] == default_boundary());
            }
        }
        same
    }

    /// Puts the list back to the default boundary alone.
    pub fn reset(&mut self)
        ensures
            final(self).view() == seq![default_boundary()],
            final(self).well_formed(),
    {
        *self = CustomFillBoundaries::new();
    }
}

} // verus!
