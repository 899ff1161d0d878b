//! The state of the modal dialogs: new Z level, resize, go to, large fills, new maps and the
//! queue of maps waiting to close, and the decisions they make on what the user typed.
use vstd::prelude::*;

use crate::fill::count_set;
use crate::geometry::{Coord, Size};
use crate::text::{chars_of, decimal, decimal_digits, lower_seq, str_equal, string_of, to_ascii_lowercase, views_of};
use crate::tool::{FillMode, SelectionMask, Tool};
use crate::ui::MapFormat;

verus! {

/// The turf and area types new tiles are filled with, by type path.
#[derive(Debug, Clone, PartialEq, Eq)]
pub struct TileFillPaths {
    pub turf: String,
    pub area: String,
}

impl Default for TileFillPaths {
    fn default() -> (paths: Self)
        ensures
            paths.turf@.len() == 0,
            paths.area@.len() == 0,
    {
        TileFillPaths { turf: String::new(), area: String::new() }
    }
}

/// Whether two fills name the same turf and area.
pub open spec fn same_paths(a: TileFillPaths, b: TileFillPaths) -> bool {
    a.turf@ == b.turf@ && a.area@ == b.area@
}

#[derive(Debug, Clone, Copy, PartialEq, Eq, Structural)]
pub enum TileFillField {
    Turf,
    Area,
}

impl TileFillPaths {
    /// The codebase's default turf and area, or nothing when it has none.
    pub fn defaults(default_fill: Option<(String, String)>) -> (paths: Self)
        ensures
            match default_fill {
                Some((turf, area)) => paths.turf@ == turf@ && paths.area@ == area@,
                None => paths.turf@.len() == 0 && paths.area@.len() == 0,
            },
    {
        match default_fill {
            Some((turf, area)) => TileFillPaths { turf, area },
            None => TileFillPaths::default(),
        }
    }

    /// The field the user is editing.
    pub fn get_mut(&mut self, field: TileFillField) -> (path: &mut String)
        ensures
            field == TileFillField::Turf ==> *path == old(self).turf && final(self).turf
                == *final(path) && final(self).area == old(self).area,
            field == TileFillField::Area ==> *path == old(self).area && final(self).area
                == *final(path) && final(self).turf == old(self).turf,
    {
        match field {
            TileFillField::Turf => &mut self.turf,
            TileFillField::Area => &mut self.area,
        }
    }

    /// A copy with the same paths.
    pub fn copy(&self) -> (copy: Self)
        ensures
            copy == *self,
    {
        TileFillPaths { turf: self.turf.clone(), area: self.area.clone() }
    }

    pub fn same(&self, other: &TileFillPaths) -> (same: bool)
        ensures
            same == same_paths(*self, *other),
    {
        str_equal(self.turf.as_str(), other.turf.as_str()) && str_equal(
            self.area.as_str(),
            other.area.as_str(),
        )
    }
}

/// The turf and area pickers of a dialog, with the search typed into the open one.
#[derive(Debug, Clone, PartialEq, Eq)]
pub struct TileFillSearch {
    pub paths: TileFillPaths,
    pub query: String,
    pub searching: bool,
    pub was_searching: bool,
}

impl Default for TileFillSearch {
    fn default() -> (search: Self)
        ensures
            search.paths.turf@.len() == 0,
            search.paths.area@.len() == 0,
            search.query@.len() == 0,
            !search.searching,
            !search.was_searching,
    {
        TileFillSearch {
            paths: TileFillPaths::default(),
            query: String::new(),
            searching: false,
            was_searching: false,
        }
    }
}

impl TileFillSearch {
    /// Pickers starting from the fill remembered from the last dialog, or else the codebase's
    /// default fill.
    pub fn new(default_fill: Option<(String, String)>, remembered: Option<&TileFillPaths>) -> (search:
        Self)
        ensures
            match remembered {
                Some(paths) => search.paths == *paths,
                None => match default_fill {
                    Some((turf, area)) => search.paths.turf@ == turf@ && search.paths.area@
                        == area@,
                    None => search.paths.turf@.len() == 0 && search.paths.area@.len() == 0,
                },
            },
            search.query@.len() == 0,
            !search.searching,
            !search.was_searching,
    {
        let paths = match remembered {
            Some(paths) => paths.copy(),
            None => TileFillPaths::defaults(default_fill),
        };
        TileFillSearch { paths, query: String::new(), searching: false, was_searching: false }
    }

    /// Whether a picker is open (this frame or the last), so Enter and Escape belong to it.
    pub fn captures_keys(&self) -> (captures: bool)
        ensures
            captures == (self.searching || self.was_searching),
    {
        self.searching || self.was_searching
    }

    /// Remembers the chosen fill for the next dialog, unless it is the codebase's default.
    pub fn remember(&self, default_fill: Option<(String, String)>, remembered: &mut Option<TileFillPaths>)
        ensures
            ({
                let defaults = match default_fill {
                    Some((turf, area)) => turf@ == self.paths.turf@ && area@ == self.paths.area@,
                    None => self.paths.turf@.len() == 0 && self.paths.area@.len() == 0,
                };
                if defaults {
                    *final(remembered) is None
                } else {
                    *final(remembered) == Some(self.paths)
                }
            }),
    {
        let defaults = TileFillPaths::defaults(default_fill);
        proof {
            if default_fill is None {
                assert(self.paths.turf@.len() == 0 ==> self.paths.turf@ =~= defaults.turf@);
                assert(self.paths.area@.len() == 0 ==> self.paths.area@ =~= defaults.area@);
            }
        }
        *remembered = if self.paths.same(&defaults) {
            None
        } else {
            Some(self.paths.copy())
        };
    }
}

/// The dialog that adds a Z level to a map document.
#[derive(Debug, Clone, PartialEq, Eq)]
pub struct NewLevelDialog {
    pub document: u64,
    pub fill: TileFillSearch,
    pub error: Option<String>,
    pub open: bool,
}

impl NewLevelDialog {
    /// The dialog for `document`, about to open.
    pub fn new(document: u64) -> (dialog: Self)
        ensures
            dialog.document == document,
            dialog.fill.paths.turf@.len() == 0,
            dialog.fill.paths.area@.len() == 0,
            !dialog.fill.searching,
            !dialog.fill.was_searching,
            dialog.error is None,
            dialog.open,
    {
        NewLevelDialog { document, fill: TileFillSearch::default(), error: None, open: true }
    }
}

/// A request to go up or down a level: when it asks for a level past the top, the dialog that
/// creates one opens for the active document.
pub fn request_level_change(
    new_level_requested: bool,
    active: Option<u64>,
    dialog: &mut Option<NewLevelDialog>,
)
    ensures
        new_level_requested && active is Some ==> (*final(dialog) matches Some(d) && d.document
            == active->0 && d.open && d.error is None && d.fill.paths.turf@.len() == 0
            && d.fill.paths.area@.len() == 0),
        !(new_level_requested && active is Some) ==> *final(dialog) == *old(dialog),
{
    if !new_level_requested {
        return ;
    }
    if let Some(document) = active {
        *dialog = Some(NewLevelDialog::new(document));
    }
}

/// The dialog that resizes the map: the size typed, the fill for new tiles, the tiles the last
/// size typed would delete (with the size and fill it was counted for), and the last error.
#[derive(Debug, Clone, PartialEq)]
pub struct ResizeMapDialog<P> {
    pub width: i32,
    pub height: i32,
    pub fill: TileFillSearch,
    pub losses: Option<(i32, i32, Vec<P>, usize)>,
    pub error: Option<String>,
}

impl<P> ResizeMapDialog<P> {
    /// The dialog starting from the map's current size.
    pub fn new(size: Size, fill: TileFillSearch) -> (dialog: Self)
        ensures
            dialog.width == size.x as i32,
            dialog.height == size.y as i32,
            dialog.fill == fill,
            dialog.losses is None,
            dialog.error is None,
    {
        ResizeMapDialog {
            width: size.x as i32,
            height: size.y as i32,
            fill,
            losses: None,
            error: None,
        }
    }

    /// Whether the size typed differs from the map's.
    pub fn changed(&self, size: Size) -> (changed: bool)
        ensures
            changed == !(self.width as u32 == size.x && self.height as u32 == size.y),
    {
        !(self.width as u32 == size.x && self.height as u32 == size.y)
    }
}

/// The warning shown when a resize deletes tiles.
pub open spec fn spec_loss_warning(losses: nat) -> Seq<char> {
    decimal(losses) + (if losses == 1 {
        " tile"@
    } else {
        " tiles"@
    }) + " will be deleted! You can revert this operation with undo."@
}

pub fn loss_warning(losses: usize) -> (warning: Option<String>)
    ensures
        match warning {
            Some(text) => losses > 0 && text@ == spec_loss_warning(losses as nat),
            None => losses == 0,
        },
{
    if losses == 0 {
        return None;
    }
    let digits = decimal_digits(losses);
    let mut text = string_of(&digits);
    text.append(if losses == 1 { " tile" } else { " tiles" });
    text.append(" will be deleted! You can revert this operation with undo.");
    Some(text)
}

/// The dialog that jumps to a tile.
#[derive(Debug, Clone, Copy, PartialEq, Eq, Structural)]
pub struct GoToDialog {
    pub x: i32,
    pub y: i32,
    pub z: i32,
}

/// `value` kept between 1 and `max` (at least 1).
pub open spec fn spec_clamp_to(value: i32, max: u32) -> i32 {
    let top: i32 = if max < 1 {
        1
    } else {
        max as i32
    };
    if value < 1 {
        1
    } else if value > top {
        top
    } else {
        value
    }
}

/// A clamped field is a tile of the map: between 1 and the map's side (1 on an empty side), and
/// unchanged when it already was.
pub proof fn lemma_clamp_stays_on_map(value: i32, max: u32)
    requires
        max <= i32::MAX,
    ensures
        1 <= spec_clamp_to(value, max),
        spec_clamp_to(value, max) <= if max < 1 {
            1
        } else {
            max as int
        },
        1 <= value <= max ==> spec_clamp_to(value, max) == value,
{
}

fn clamp_to(value: i32, max: u32) -> (clamped: i32)
    requires
        max <= i32::MAX,
    ensures
        clamped == spec_clamp_to(value, max),
{
    let top: i32 = if max < 1 { 1 } else { max as i32 };
    if value < 1 {
        1
    } else if value > top {
        top
    } else {
        value
    }
}

impl GoToDialog {
    /// The dialog starting at `target`.
    pub fn new(target: Coord) -> (dialog: Self)
        ensures
            dialog.x == target.x as i32,
            dialog.y == target.y as i32,
            dialog.z == target.z as i32,
    {
        GoToDialog { x: target.x as i32, y: target.y as i32, z: target.z as i32 }
    }

    /// Keeps each field on a map of `size`.
    pub fn clamp_to(&mut self, size: Size)
        requires
            size.x <= i32::MAX,
            size.y <= i32::MAX,
            size.z <= i32::MAX,
        ensures
            final(self).x == spec_clamp_to(old(self).x, size.x),
            final(self).y == spec_clamp_to(old(self).y, size.y),
            final(self).z == spec_clamp_to(old(self).z, size.z),
    {
        self.x = clamp_to(self.x, size.x);
        self.y = clamp_to(self.y, size.y);
        self.z = clamp_to(self.z, size.z);
    }

    /// The tile to go to.
    pub fn target(&self) -> (target: Coord)
        ensures
            target.x == self.x as u32,
            target.y == self.y as u32,
            target.z == self.z as u32,
    {
        Coord::new(self.x as u32, self.y as u32, self.z as u32)
    }
}

/// What a large fill was asked in: the document and its revision, the level, the selection, the
/// prefab and the focused area.
#[derive(Debug, Clone, Copy, PartialEq, Eq, Structural)]
pub struct FillWarningContext {
    pub document: Option<u64>,
    pub revision: Option<u64>,
    pub z: u32,
    pub mask: Option<SelectionMask>,
    pub prefab: Option<u64>,
    pub focus: Option<u64>,
}

/// A fill over the tile limit, waiting for the user to confirm it.
#[derive(Debug, Clone, PartialEq, Eq)]
pub struct PendingFillWarning {
    pub context: FillWarningContext,
    pub coord: Coord,
    pub fill_mode: FillMode,
    pub custom_fill_boundaries: Vec<String>,
    pub limit: usize,
}

impl PendingFillWarning {
    /// Whether the confirmed fill is still the one that was asked: the fill tool is still on, and
    /// nothing it depends on has changed.
    pub fn matches(
        &self,
        tool: Tool,
        context: &FillWarningContext,
        fill_mode: FillMode,
        boundaries: &Vec<String>,
    ) -> (matches: bool)
        ensures
            matches == (tool == Tool::Fill && self.context == *context && self.fill_mode
                == fill_mode && views_of(self.custom_fill_boundaries@) == views_of(boundaries@)),
    {
        if !(tool == Tool::Fill && self.context == *context && self.fill_mode == fill_mode) {
            return false;
        }
        if self.custom_fill_boundaries.len() != boundaries.len() {
            proof {
                assert(views_of(self.custom_fill_boundaries@).len() != views_of(boundaries@).len());
            }
            return false;
        }
        let mut i: usize = 0;
        while i < boundaries.len()
            invariant
                i <= boundaries@.len(),
                self.custom_fill_boundaries@.len() == boundaries@.len(),
                forall|k: int|
                    0 <= k < i ==> self.custom_fill_boundaries@[k]@ == boundaries@[k]@,
            decreases boundaries.len() - i,
        {
            if !str_equal(self.custom_fill_boundaries[i].as_str(), boundaries[i].as_str()) {
                proof {
                    assert(views_of(self.custom_fill_boundaries@)[i as int] != views_of(
                        boundaries@,
                    )[i as int]);
                }
                return false;
            }
            i = i + 1;
        }
        proof {
            assert(views_of(self.custom_fill_boundaries@) =~= views_of(boundaries@));
        }
        true
    }
}

/// The fields of the save dialog.
#[derive(Debug, Clone, PartialEq, Eq)]
pub struct SaveDialog {
    pub path: String,
    pub format: MapFormat,
    pub error: Option<String>,
}

/// Why a path typed into the new map dialog is refused.
#[derive(Debug, Clone, PartialEq, Eq)]
pub enum NewMapPathError {
    Empty,
    WrongExtension,
    AlreadyExists(String),
    MissingParent(String),
}

pub open spec fn spec_new_map_message(error: NewMapPathError) -> Seq<char> {
    match error {
        NewMapPathError::Empty => "enter a map path"@,
        NewMapPathError::WrongExtension => "map path must use the .dmm extension"@,
        NewMapPathError::AlreadyExists(path) => path@ + " already exists"@,
        NewMapPathError::MissingParent(path) => "parent directory for "@ + path@
            + " does not exist"@,
    }
}

impl NewMapPathError {
    /// The message shown under the path.
    pub fn message(&self) -> (message: String)
        ensures
            message@ == spec_new_map_message(*self),
    {
        match self {
            NewMapPathError::Empty => String::from_str("enter a map path"),
            NewMapPathError::WrongExtension => String::from_str(
                "map path must use the .dmm extension",
            ),
            NewMapPathError::AlreadyExists(path) => {
                let mut message = path.clone();
                message.append(" already exists");
                message
            },
            NewMapPathError::MissingParent(path) => {
                let mut message = String::from_str("parent directory for ");
                message.append(path.as_str());
                message.append(" does not exist");
                message
            },
        }
    }
}

/// The path a new map is written to, as typed, and whether `.dmm` must be added to it.
#[derive(Debug, Clone, PartialEq, Eq)]
pub struct NewMapPlan {
    pub path: String,
    pub add_extension: bool,
}

/// Whether `c` has the Unicode `White_Space` property, the whitespace `str::trim` removes:
/// tab to carriage return, space, next line, no-break space, ogham space mark, the spaces from
/// en quad to hair space, line and paragraph separators, narrow no-break space, medium
/// mathematical space and ideographic space.
pub open spec fn white_space(c: char) -> bool {
    let u = c as u32;
    ||| 9 <= u <= 13
    ||| u == 32
    ||| u == 0x85
    ||| u == 0xa0
    ||| u == 0x1680
    ||| 0x2000 <= u <= 0x200a
    ||| u == 0x2028
    ||| u == 0x2029
    ||| u == 0x202f
    ||| u == 0x205f
    ||| u == 0x3000
}

/// `text` without its leading whitespace.
pub open spec fn trim_start_seq(text: Seq<char>) -> Seq<char>
    decreases text.len(),
{
    if text.len() > 0 && white_space(text[0]) {
        trim_start_seq(text.drop_first())
    } else {
        text
    }
}

/// `text` without its trailing whitespace.
pub open spec fn trim_end_seq(text: Seq<char>) -> Seq<char>
    decreases text.len(),
{
    if text.len() > 0 && white_space(text.last()) {
        trim_end_seq(text.drop_last())
    } else {
        text
    }
}

/// `text` without its leading and trailing whitespace, as `str::trim` gives it.
pub open spec fn trimmed(text: Seq<char>) -> Seq<char> {
    trim_end_seq(trim_start_seq(text))
}

/// Whether `c` has the Unicode `White_Space` property.
pub fn is_white_space(c: char) -> (space: bool)
    ensures
        space == white_space(c),
{
    let u = c as u32;
    (9 <= u && u <= 13) || u == 32 || u == 0x85 || u == 0xa0 || u == 0x1680 || (0x2000 <= u && u
        <= 0x200a) || u == 0x2028 || u == 0x2029 || u == 0x202f || u == 0x205f || u == 0x3000
}

/// `text` without its leading and trailing whitespace (characters with the Unicode
/// `White_Space` property), as `str::trim` gives it.
pub fn trim_text(text: &str) -> (trimmed_text: String)
    ensures
        trimmed_text@ == trimmed(text@),
{
    let chars = chars_of(text);
    let n = chars.len();
    let mut start: usize = 0;
    proof {
        assert(text@.subrange(0, n as int) =~= text@);
    }
    while start < n && is_white_space(chars[start])
        invariant
            chars@ == text@,
            n == chars@.len(),
            start <= n,
            trim_start_seq(text@) == trim_start_seq(text@.subrange(start as int, n as int)),
        decreases n - start,
    {
        proof {
            let rest = text@.subrange(start as int, n as int);
            assert(rest.drop_first() =~= text@.subrange(start + 1, n as int));
        }
        start = start + 1;
    }
    proof {
        let rest = text@.subrange(start as int, n as int);
        if start == n {
            assert(rest =~= Seq::<char>::empty());
        }
    }
    let mut end: usize = n;
    while end > start && is_white_space(chars[end - 1])
        invariant
            chars@ == text@,
            n == chars@.len(),
            start <= end <= n,
            trimmed(text@) == trim_end_seq(text@.subrange(start as int, end as int)),
        decreases end - start,
    {
        proof {
            let kept = text@.subrange(start as int, end as int);
            assert(kept.drop_last() =~= text@.subrange(start as int, end - 1));
        }
        end = end - 1;
    }
    proof {
        let kept = text@.subrange(start as int, end as int);
        if end == start {
            assert(kept =~= Seq::<char>::empty());
        }
    }
    let mut result = String::new();
    let mut k: usize = start;
    while k < end
        invariant
            chars@ == text@,
            start <= k <= end <= n,
            n == chars@.len(),
            result@ == text@.subrange(start as int, k as int),
        decreases end - k,
    {
        result.push(chars[k]);
        k = k + 1;
        proof {
            assert(result@ =~= text@.subrange(start as int, k as int));
        }
    }
    result
}

/// Names what `std::path::Path::extension` gives for a path: the part of its file name after
/// the last dot, or none when the path has no file name, the file name has no dot, or its only
/// dot is its first character.
pub uninterp spec fn file_extension(path: Seq<char>) -> Option<Seq<char>>;

/// Calls `std::path::Path::extension` on `path` and shows the extension as text. The result is
/// named `file_extension`; how the path splits into components is the standard library's rule
/// for the build's target, which is not restated.
#[verifier::external_body]
fn path_extension(path: &str) -> (extension: Option<String>)
    ensures
        match extension {
            Some(e) => file_extension(path@) == Some(e@),
            None => file_extension(path@) is None,
        },
{
    match std::path::Path::new(path).extension() {
        Some(extension) => Some(extension.to_string_lossy().into_owned()),
        None => None,
    }
}

/// What a map path's extension means: none gets `.dmm` added, `dmm` in any case is kept, any
/// other is refused.
pub open spec fn spec_extension_check(extension: Option<Seq<char>>) -> Result<bool, NewMapPathError> {
    match extension {
        None => Ok(true),
        Some(extension) => if lower_seq(extension) == "dmm"@ {
            Ok(false)
        } else {
            Err(NewMapPathError::WrongExtension)
        },
    }
}

/// The plan for a trimmed path with the given extension.
pub fn plan_new_map_path(path: String, extension: Option<String>) -> (plan: Result<
    NewMapPlan,
    NewMapPathError,
>)
    ensures
        path@.len() == 0 ==> plan == Err::<NewMapPlan, NewMapPathError>(NewMapPathError::Empty),
        path@.len() > 0 ==> match spec_extension_check(
            match extension {
                Some(e) => Some(e@),
                None => None,
            },
        ) {
            Ok(add_extension) => plan matches Ok(p) && p.path@ == path@ && p.add_extension
                == add_extension,
            Err(error) => plan == Err::<NewMapPlan, NewMapPathError>(error),
        },
{
    if path.unicode_len() == 0 {
        return Err(NewMapPathError::Empty);
    }
    match extension {
        None => Ok(NewMapPlan { path, add_extension: true }),
        Some(extension) => {
            let lower = to_ascii_lowercase(extension.as_str());
            proof {
                reveal_strlit("dmm");
            }
            if str_equal(lower.as_str(), "dmm") {
                Ok(NewMapPlan { path, add_extension: false })
            } else {
                Err(NewMapPathError::WrongExtension)
            }
        },
    }
}

/// The plan for what was typed as a new map's path: trimmed, refused when empty, and checked for
/// its extension.
pub fn new_map_path_plan(input: &str) -> (plan: Result<NewMapPlan, NewMapPathError>)
    ensures
        trimmed(input@).len() == 0 ==> plan == Err::<NewMapPlan, NewMapPathError>(
            NewMapPathError::Empty,
        ),
        trimmed(input@).len() > 0 ==> match spec_extension_check(file_extension(trimmed(input@))) {
            Ok(add_extension) => plan matches Ok(p) && p.path@ == trimmed(input@) && p.add_extension
                == add_extension,
            Err(error) => plan == Err::<NewMapPlan, NewMapPathError>(error),
        },
{
    let path = trim_text(input);
    let extension = path_extension(path.as_str());
    plan_new_map_path(path, extension)
}

/// The last checks on a new map's full path: it must not exist yet, and its directory must.
pub fn check_new_map_target(path: &str, exists: bool, parent_is_dir: bool) -> (checked: Result<
    (),
    NewMapPathError,
>)
    ensures
        exists ==> (checked matches Err(NewMapPathError::AlreadyExists(p)) && p@ == path@),
        !exists && !parent_is_dir ==> (checked matches Err(NewMapPathError::MissingParent(p))
            && p@ == path@),
        !exists && parent_is_dir ==> checked is Ok,
{
    if exists {
        Err(NewMapPathError::AlreadyExists(String::from_str(path)))
    } else if !parent_is_dir {
        Err(NewMapPathError::MissingParent(String::from_str(path)))
    } else {
        Ok(())
    }
}

/// The maps with unsaved changes waiting for the close confirmation, first asked first, each
/// listed once.
#[derive(Debug, Clone, PartialEq, Eq)]
pub struct CloseQueue {
    pub queue: Vec<u64>,
}

/// The queue after closing `ids` was asked for: each map with unsaved changes (`dirty[i]`)
/// joins the end of the queue unless it waits there already.
pub open spec fn queued_after(queue: Seq<u64>, ids: Seq<u64>, dirty: Seq<bool>) -> Seq<u64>
    decreases ids.len(),
{
    if ids.len() == 0 {
        queue
    } else {
        let earlier = queued_after(queue, ids.drop_last(), dirty);
        let k = ids.len() - 1;
        if dirty[k] && !earlier.contains(ids[k]) {
            earlier.push(ids[k])
        } else {
            earlier
        }
    }
}

/// The maps of `ids` without unsaved changes, which close at once, in order.
pub open spec fn closed_at_once(ids: Seq<u64>, dirty: Seq<bool>) -> Seq<u64>
    decreases ids.len(),
{
    if ids.len() == 0 {
        seq![]
    } else {
        let earlier = closed_at_once(ids.drop_last(), dirty);
        let k = ids.len() - 1;
        if dirty[k] {
            earlier
        } else {
            earlier.push(ids[k])
        }
    }
}

/// Asking to close maps answers every one of them: each map without unsaved changes is among
/// those closed at once, each map closed at once is one of them without unsaved changes, and as
/// many close at once as were asked for without changes.
pub proof fn lemma_clean_maps_close_at_once(ids: Seq<u64>, dirty: Seq<bool>)
    requires
        ids.len() <= dirty.len(),
    ensures
        forall|i: int| 0 <= i < ids.len() && !dirty[i] ==> closed_at_once(ids, dirty).contains(#[trigger] ids[i]),
        forall|j: int|
            0 <= j < closed_at_once(ids, dirty).len() ==> exists|i: int|
                0 <= i < ids.len() && !dirty[i] && ids[i] == #[trigger] closed_at_once(ids, dirty)[j],
        closed_at_once(ids, dirty).len() + count_set(dirty.take(ids.len() as int)) == ids.len(),
    decreases ids.len(),
{
    if ids.len() == 0 {
        assert(dirty.take(0) =~= Seq::<bool>::empty());
        return;
    }
    let k = ids.len() - 1;
    let front = ids.drop_last();
    lemma_clean_maps_close_at_once(front, dirty);
    let earlier = closed_at_once(front, dirty);
    assert(dirty.take(ids.len() as int).drop_last() =~= dirty.take(k));
    assert(dirty.take(ids.len() as int).last() == dirty[k]);
    assert forall|i: int| 0 <= i < ids.len() && !dirty[i] implies closed_at_once(ids, dirty).contains(
        #[trigger] ids[i],
    ) by {
        if i < k {
            assert(front[i] == ids[i]);
            assert(earlier.contains(front[i]));
            let j = choose|j: int| 0 <= j < earlier.len() && earlier[j] == front[i];
            assert(closed_at_once(ids, dirty)[j] == ids[i]);
        } else {
            assert(closed_at_once(ids, dirty) == earlier.push(ids[k]));
            assert(closed_at_once(ids, dirty)[earlier.len() as int] == ids[k]);
        }
    }
    assert forall|j: int| 0 <= j < closed_at_once(ids, dirty).len() implies exists|i: int|
        0 <= i < ids.len() && !dirty[i] && ids[i] == #[trigger] closed_at_once(ids, dirty)[j] by {
        if j < earlier.len() {
            assert(closed_at_once(ids, dirty)[j] == earlier[j]);
            let i = choose|i: int| 0 <= i < front.len() && !dirty[i] && front[i] == #[trigger] earlier[j];
            assert(ids[i] == front[i]);
        } else {
            assert(ids[k] == closed_at_once(ids, dirty)[j]);
        }
    }
}

/// Asking to close maps queues every one of them with unsaved changes, keeps the maps already
/// waiting first and in their order, and queues nothing else.
pub proof fn lemma_dirty_maps_wait(queue: Seq<u64>, ids: Seq<u64>, dirty: Seq<bool>)
    requires
        ids.len() <= dirty.len(),
    ensures
        forall|i: int| 0 <= i < ids.len() && dirty[i] ==> queued_after(queue, ids, dirty).contains(#[trigger] ids[i]),
        forall|x: u64|
            #[trigger] queued_after(queue, ids, dirty).contains(x) ==> queue.contains(x) || exists|i: int|
                0 <= i < ids.len() && dirty[i] && ids[i] == x,
        queue.len() <= queued_after(queue, ids, dirty).len(),
        queued_after(queue, ids, dirty).take(queue.len() as int) == queue,
    decreases ids.len(),
{
    if ids.len() == 0 {
        assert(queue.take(queue.len() as int) =~= queue);
        return;
    }
    let k = ids.len() - 1;
    let front = ids.drop_last();
    lemma_dirty_maps_wait(queue, front, dirty);
    let earlier = queued_after(queue, front, dirty);
    let after = queued_after(queue, ids, dirty);
    if dirty[k] && !earlier.contains(ids[k]) {
        assert(after == earlier.push(ids[k]));
        assert(after.take(queue.len() as int) =~= earlier.take(queue.len() as int));
        assert(after[earlier.len() as int] == ids[k]);
    }
    assert forall|i: int| 0 <= i < ids.len() && dirty[i] implies after.contains(#[trigger] ids[i]) by {
        if i < k {
            assert(front[i] == ids[i]);
            assert(earlier.contains(front[i]));
            let j = choose|j: int| 0 <= j < earlier.len() && earlier[j] == front[i];
            if dirty[k] && !earlier.contains(ids[k]) {
                assert(after[j] == earlier[j]);
            }
        }
    }
    assert forall|x: u64| #[trigger] after.contains(x) implies queue.contains(x) || exists|i: int|
        0 <= i < ids.len() && dirty[i] && ids[i] == x by {
        if earlier.contains(x) {
            if !queue.contains(x) {
                let i = choose|i: int| 0 <= i < front.len() && dirty[i] && front[i] == x;
                assert(ids[i] == front[i]);
            }
        } else {
            let j = choose|j: int| 0 <= j < after.len() && after[j] == x;
            if j < earlier.len() {
                assert(after[j] == earlier[j]);
            }
        }
    }
}

/// How many of the first entries are flagged `false`.
pub open spec fn leading_clean(dirty: Seq<bool>) -> nat
    decreases dirty.len(),
{
    if dirty.len() == 0 || dirty[0] {
        0
    } else {
        1 + leading_clean(dirty.drop_first())
    }
}

proof fn lemma_leading_clean(dirty: Seq<bool>, n: int)
    requires
        0 <= n <= dirty.len(),
        forall|k: int| 0 <= k < n ==> !dirty[k],
        n < dirty.len() ==> dirty[n],
    ensures
        leading_clean(dirty) == n,
    decreases n,
{
    if n > 0 {
        assert forall|k: int| 0 <= k < n - 1 implies !dirty.drop_first()[k] by {
            assert(dirty.drop_first()[k] == dirty[k + 1]);
        }
        lemma_leading_clean(dirty.drop_first(), n - 1);
    }
}

/// Settling the close queue closes only maps without unsaved changes, and stops at the first
/// map that still has them.
pub proof fn lemma_settle_stops_at_first_dirty(dirty: Seq<bool>)
    ensures
        leading_clean(dirty) <= dirty.len(),
        forall|k: int| 0 <= k < leading_clean(dirty) ==> !#[trigger] dirty[k],
        leading_clean(dirty) < dirty.len() ==> dirty[leading_clean(dirty) as int],
    decreases dirty.len(),
{
    if dirty.len() > 0 && !dirty[0] {
        let rest = dirty.drop_first();
        lemma_settle_stops_at_first_dirty(rest);
        assert forall|k: int| 0 <= k < leading_clean(dirty) implies !#[trigger] dirty[k] by {
            if k > 0 {
                assert(dirty[k] == rest[k - 1]);
            }
        }
        if leading_clean(dirty) < dirty.len() {
            assert(dirty[leading_clean(dirty) as int] == rest[leading_clean(rest) as int]);
        }
    }
}

/// No map is listed twice.
pub open spec fn distinct_ids(ids: Seq<u64>) -> bool {
    forall|i: int, j: int| 0 <= i < j < ids.len() ==> ids[i] != ids[j]
}

impl CloseQueue {
    pub fn new() -> (queue: Self)
        ensures
            queue.queue@ == Seq::<u64>::empty(),
    {
        CloseQueue { queue: Vec::new() }
    }

    /// Whether the map `id` waits in the queue.
    pub fn waits(&self, id: u64) -> (waiting: bool)
        ensures
            waiting == self.queue@.contains(id),
    {
        let mut k: usize = 0;
        while k < self.queue.len()
            invariant
                k <= self.queue@.len(),
                forall|m: int| 0 <= m < k ==> self.queue@[m] != id,
            decreases self.queue.len() - k,
        {
            if self.queue[k] == id {
                assert(self.queue@[k as int] == id);
                return true;
            }
            k = k + 1;
        }
        false
    }

    /// Asks to close the maps `ids`, whose unsaved changes `dirty` flags: those without changes
    /// are returned, to close at once; the others wait for the confirmation.
    pub fn request_close(&mut self, ids: &Vec<u64>, dirty: &Vec<bool>) -> (closed: Vec<u64>)
        requires
            ids@.len() == dirty@.len(),
            distinct_ids(old(self).queue@),
        ensures
            closed@ == closed_at_once(ids@, dirty@),
            final(self).queue@ == queued_after(old(self).queue@, ids@, dirty@),
            distinct_ids(final(self).queue@),
            forall|i: int| 0 <= i < ids@.len() && !dirty@[i] ==> closed@.contains(#[trigger] ids@[i]),
            forall|j: int|
                0 <= j < closed@.len() ==> exists|i: int|
                    0 <= i < ids@.len() && !dirty@[i] && ids@[i] == #[trigger] closed@[j],
            closed@.len() + count_set(dirty@) == ids@.len(),
            forall|i: int| 0 <= i < ids@.len() && dirty@[i] ==> final(self).queue@.contains(#[trigger] ids@[i]),
            final(self).queue@.take(old(self).queue@.len() as int) == old(self).queue@,
    {
        let ghost start = self.queue@;
        let mut closed: Vec<u64> = Vec::new();
        let mut i: usize = 0;
        while i < ids.len()
            invariant
                ids@.len() == dirty@.len(),
                i <= ids@.len(),
                closed@ == closed_at_once(ids@.take(i as int), dirty@),
                self.queue@ == queued_after(start, ids@.take(i as int), dirty@),
                distinct_ids(self.queue@),
            decreases ids.len() - i,
        {
            proof {
                assert(ids@.take(i + 1).drop_last() =~= ids@.take(i as int));
            }
            let id = ids[i];
            if dirty[i] {
                if !self.waits(id) {
                    self.queue.push(id);
                }
            } else {
                closed.push(id);
            }
            i = i + 1;
        }
        proof {
            assert(ids@.take(i as int) =~= ids@);
            assert(dirty@.take(ids@.len() as int) =~= dirty@);
            lemma_clean_maps_close_at_once(ids@, dirty@);
            lemma_dirty_maps_wait(start, ids@, dirty@);
        }
        closed
    }

    /// Drops from the front of the queue the maps that no longer need asking about (closed
    /// meanwhile, or without unsaved changes now, as `dirty` says of each queued map), and
    /// returns them to close; the first map that still has changes is the one asked about.
    pub fn settle(&mut self, dirty: &Vec<bool>) -> (closed: Vec<u64>)
        requires
            dirty@.len() == old(self).queue@.len(),
        ensures
            closed@ == old(self).queue@.take(leading_clean(dirty@) as int),
            final(self).queue@ == old(self).queue@.skip(leading_clean(dirty@) as int),
            distinct_ids(old(self).queue@) ==> distinct_ids(final(self).queue@),
            closed@ + final(self).queue@ == old(self).queue@,
            forall|k: int| 0 <= k < closed@.len() ==> !#[trigger] dirty@[k],
            closed@.len() < dirty@.len() ==> dirty@[closed@.len() as int],
    {
        proof {
            lemma_settle_stops_at_first_dirty(dirty@);
        }
        let mut n: usize = 0;
        while n < dirty.len() && !dirty[n]
            invariant
                n <= dirty@.len(),
                forall|k: int| 0 <= k < n ==> !dirty@[k],
            decreases dirty.len() - n,
        {
            n = n + 1;
        }
        proof {
            lemma_leading_clean(dirty@, n as int);
        }
        let mut closed: Vec<u64> = Vec::new();
        let mut rest: Vec<u64> = Vec::new();
        let mut k: usize = 0;
        while k < self.queue.len()
            invariant
                n <= self.queue@.len(),
                k <= self.queue@.len(),
                closed@ == self.queue@.take(if k < n { k as int } else { n as int }),
                rest@ == if k < n { Seq::<u64>::empty() } else { self.queue@.subrange(n as int, k as int) },
            decreases self.queue.len() - k,
        {
            if k < n {
                closed.push(self.queue[k]);
                assert(closed@ =~= self.queue@.take(k + 1));
            } else {
                rest.push(self.queue[k]);
                assert(rest@ =~= self.queue@.subrange(n as int, k + 1));
            }
            k = k + 1;
        }
        proof {
            assert(rest@ =~= self.queue@.skip(n as int));
        }
        let ghost before = self.queue@;
        self.queue = rest;
        proof {
            if distinct_ids(before) {
                assert forall|i: int, j: int| 0 <= i < j < self.queue@.len() implies self.queue@[i]
                    != self.queue@[j] by {
                    assert(self.queue@[i] == before[i + n]);
                    assert(self.queue@[j] == before[j + n]);
                }
            }
        }
        closed
    }

    /// The map asked about was saved or discarded: it leaves the queue.
    pub fn resolve_front(&mut self)
        ensures
            final(self).queue@ == if old(self).queue@.len() == 0 {
                old(self).queue@
            } else {
                old(self).queue@.drop_first()
            },
            distinct_ids(old(self).queue@) ==> distinct_ids(final(self).queue@),
    {
        if self.queue.len() > 0 {
            self.queue.remove(0);
        }
        proof {
            if distinct_ids(old(self).queue@) && old(self).queue@.len() > 0 {
                assert forall|i: int, j: int| 0 <= i < j < self.queue@.len() implies self.queue@[i]
                    != self.queue@[j] by {
                    assert(self.queue@[i] == old(self).queue@[i + 1]);
                    assert(self.queue@[j] == old(self).queue@[j + 1]);
                }
            }
        }
    }

    /// Cancel (or a save that needs a path first) keeps every waiting map open and empties the
    /// queue.
    pub fn cancel(&mut self)
        ensures
            final(self).queue@ == Seq::<u64>::empty(),
    {
        self.queue.clear();
    }

    /// The maps waiting besides the one asked about.
    pub fn waiting_behind(&self) -> (count: usize)
        ensures
            count == if self.queue@.len() == 0 {
                0
            } else {
                self.queue@.len() - 1
            },
    {
        if self.queue.len() == 0 {
            0
        } else {
            self.queue.len() - 1
        }
    }
}

} // verus!
