//! The names the map's context menu gives the atoms on a tile.
use vstd::prelude::*;

use crate::geometry::Coord;
use crate::text::{chars_of, string_of};

verus! {

/// The part of a type path after its last `/`: the whole path when it holds none.
pub open spec fn last_segment(path: Seq<char>) -> Seq<char>
    decreases path.len(),
{
    if path.len() == 0 {
        path
    } else if path.last() == '/' {
        seq![]
    } else {
        last_segment(path.drop_last()).push(path.last())
    }
}

/// What the menu calls an atom: its `name` when that is a non-empty text, else the last segment
/// of its type path.
pub open spec fn spec_display_name(name: Option<Seq<char>>, path: Seq<char>) -> Seq<char> {
    match name {
        Some(text) => if text.len() > 0 {
            text
        } else {
            last_segment(path)
        },
        None => last_segment(path),
    }
}

proof fn lemma_last_segment_after(path: Seq<char>, slash: int)
    requires
        -1 <= slash < path.len(),
        slash >= 0 ==> path[slash] == '/',
        forall|k: int| slash < k < path.len() ==> path[k] != '/',
    ensures
        last_segment(path) == path.subrange(slash + 1, path.len() as int),
    decreases path.len(),
{
    if path.len() > 0 && path.last() != '/' {
        let front = path.drop_last();
        assert forall|k: int| slash < k < front.len() implies front[k] != '/' by {
            assert(front[k] == path[k]);
        }
        if slash >= 0 {
            assert(front[slash] == path[slash]);
        }
        lemma_last_segment_after(front, slash);
        assert(path.subrange(slash + 1, path.len() as int) =~= front.subrange(
            slash + 1,
            front.len() as int,
        ).push(path.last()));
    } else if path.len() > 0 {
        assert(slash == path.len() - 1);
        assert(path.subrange(slash + 1, path.len() as int) =~= Seq::<char>::empty());
    }
}

/// The name of an atom in the context menu. `name` is the text of the atom's `name` variable,
/// its own or inherited from its type, when it is a text.
pub fn display_name(name: Option<&str>, path: &str) -> (shown: String)
    ensures
        shown@ == spec_display_name(
            match name {
                Some(text) => Some(text@),
                None => None,
            },
            path@,
        ),
{
    if let Some(text) = name {
        if text.unicode_len() > 0 {
            return text.to_string();
        }
    }
    let chars = chars_of(path);
    let mut start: usize = chars.len();
    while start > 0 && chars[start - 1] != '/'
        invariant
            start <= chars@.len(),
            forall|k: int| start <= k < chars@.len() ==> chars@[k] != '/',
        decreases start,
    {
        start = start - 1;
    }
    proof {
        lemma_last_segment_after(chars@, start - 1);
    }
    let mut segment: Vec<char> = Vec::new();
    let mut i: usize = start;
    while i < chars.len()
        invariant
            start <= i <= chars@.len(),
            segment@ == chars@.subrange(start as int, i as int),
        decreases chars.len() - i,
    {
        segment.push(chars[i]);
        i = i + 1;
    }
    string_of(&segment)
}

/// The tiles a context-menu item acts on: the clicked tile, or the tiles of the block selection
/// when the click was inside it, kept where `applies` holds (the tile has a change to restore,
/// or a conflict to resolve), in order.
pub fn menu_targets(candidates: &Vec<Coord>, applies: &Vec<bool>) -> (targets: Vec<Coord>)
    requires
        applies@.len() == candidates@.len(),
    ensures
        targets@ == kept_targets(candidates@, applies@),
{
    let mut targets: Vec<Coord> = Vec::new();
    let mut i: usize = 0;
    while i < candidates.len()
        invariant
            applies@.len() == candidates@.len(),
            i <= candidates@.len(),
            targets@ == kept_targets(candidates@.take(i as int), applies@),
        decreases candidates.len() - i,
    {
        proof {
            assert(candidates@.take(i + 1).drop_last() =~= candidates@.take(i as int));
        }
        if applies[i] {
            targets.push(candidates[i]);
        }
        i = i + 1;
    }
    proof {
        assert(candidates@.take(i as int) =~= candidates@);
    }
    targets
}

/// The candidates whose flag (by position) is set, in order.
pub open spec fn kept_targets(candidates: Seq<Coord>, applies: Seq<bool>) -> Seq<Coord>
    decreases candidates.len(),
{
    if candidates.len() == 0 {
        seq![]
    } else {
        let earlier = kept_targets(candidates.drop_last(), applies);
        if applies[candidates.len() - 1] {
            earlier.push(candidates.last())
        } else {
            earlier
        }
    }
}

/// The label of the undo or redo item: the verb alone, or followed by what it undoes or redoes.
pub open spec fn spec_history_label(verb: Seq<char>, what: Option<Seq<char>>) -> Seq<char> {
    match what {
        Some(label) => verb + seq![' '] + label,
        None => verb,
    }
}

pub fn history_label(verb: &str, what: Option<&str>) -> (label: String)
    ensures
        label@ == spec_history_label(
            verb@,
            match what {
                Some(w) => Some(w@),
                None => None,
            },
        ),
{
    let mut label = verb.to_string();
    if let Some(w) = what {
        label.push(' ');
        label.append(w);
    }
    label
}

/// Which items of an atom's submenu can be used: moving it to the top or bottom of its tile (an
/// object the map lets you edit), deleting and replacing it (an editable atom), and resetting it
/// (an editable atom with variables set on the map).
#[derive(Debug, Clone, Copy, PartialEq, Eq, Structural)]
pub struct AtomMenu {
    pub reorder: bool,
    pub delete: bool,
    pub replace: bool,
    pub reset: bool,
}

pub fn atom_menu(editable: bool, object: bool, has_vars: bool) -> (menu: AtomMenu)
    ensures
        menu == (AtomMenu {
            reorder: editable && object,
            delete: editable,
            replace: editable,
            reset: editable && has_vars,
        }),
{
    AtomMenu { reorder: editable && object, delete: editable, replace: editable, reset: editable && has_vars }
}

/// The "Use selected type" item of the replace menu: shown when the palette's type belongs to
/// the atom's placement group (`same_group`), and usable unless it would change nothing (the
/// same type with no variables set on the map).
pub fn use_selected_item(same_group: bool, same_path: bool, has_vars: bool) -> (item: Option<bool>)
    ensures
        item == if same_group {
            Some(!same_path || has_vars)
        } else {
            None
        },
{
    if same_group {
        Some(!same_path || has_vars)
    } else {
        None
    }
}

/// What a node entry of the context menu is about.
#[derive(Debug, Clone, Copy, PartialEq, Eq, Structural)]
pub enum NodeContextKind {
    Standalone,
    Connection,
    Pick,
}

impl NodeContextKind {
    pub fn label(self) -> (label: &'static str)
        ensures
            label@ == match self {
                NodeContextKind::Standalone => "Delete standalone node"@,
                NodeContextKind::Connection => "Delete connection"@,
                NodeContextKind::Pick => "Delete node or connection"@,
            },
    {
        match self {
            NodeContextKind::Standalone => "Delete standalone node",
            NodeContextKind::Connection => "Delete connection",
            NodeContextKind::Pick => "Delete node or connection",
        }
    }
}

} // verus!
