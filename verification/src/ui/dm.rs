//! The panel a codebase profile draws through a stream of commands, and what the editor keeps of
//! it between frames: the values edited, the nodes collapsed, the popups open and the buttons
//! pressed.
use vstd::prelude::*;

use crate::text::str_equal;
use crate::ui::git::{first_position, lemma_first_position, lemma_first_position_occurs};

verus! {

#[derive(Debug, Clone, Copy, PartialEq, Eq, Structural)]
pub enum UiPopupId {
    Mouse,
}

/// A value a widget edited. Numbers are kept as the bit pattern of the `f32` they hold.
#[derive(Debug, Clone, PartialEq)]
pub enum UiValue {
    Bool(bool),
    Num(u32),
    Text(String),
}

/// The bits of an `f32` pattern below the sign bit.
pub open spec fn float_magnitude(bits: u32) -> int {
    bits as int % 0x8000_0000
}

/// Whether an `f32` bit pattern is a NaN: every exponent bit set and a nonzero fraction.
pub open spec fn float_is_nan(bits: u32) -> bool {
    float_magnitude(bits) > 0x7f80_0000
}

/// Whether the `f32` values of two bit patterns compare equal with `==`: no NaN equals anything,
/// the two zeros equal each other, and other values are equal when their bits are.
pub open spec fn float_eq(a: u32, b: u32) -> bool {
    !float_is_nan(a) && !float_is_nan(b) && (a == b || (float_magnitude(a) == 0 && float_magnitude(
        b,
    ) == 0))
}

/// Whether two values compare equal: of the same kind, numbers compared as `f32` values.
pub open spec fn values_equal(a: UiValue, b: UiValue) -> bool {
    match (a, b) {
        (UiValue::Bool(x), UiValue::Bool(y)) => x == y,
        (UiValue::Num(x), UiValue::Num(y)) => float_eq(x, y),
        (UiValue::Text(x), UiValue::Text(y)) => x@ == y@,
        _ => false,
    }
}

/// Whether two values compare equal.
pub fn same_value(a: &UiValue, b: &UiValue) -> (same: bool)
    ensures
        same == values_equal(*a, *b),
{
    match (a, b) {
        (UiValue::Bool(x), UiValue::Bool(y)) => *x == *y,
        (UiValue::Num(x), UiValue::Num(y)) => {
            let mx: u32 = *x % 0x8000_0000;
            let my: u32 = *y % 0x8000_0000;
            mx <= 0x7f80_0000 && my <= 0x7f80_0000 && (*x == *y || (mx == 0 && my == 0))
        },
        (UiValue::Text(x), UiValue::Text(y)) => str_equal(x.as_str(), y.as_str()),
        _ => false,
    }
}

/// One command of a profile's panel. Numbers (sizes, ranges, colours, speeds) are kept as the
/// bit patterns of the `f32` values they hold; a dock is its node id.
#[derive(Debug, Clone, PartialEq)]
pub enum UiCommand {
    Begin { key: String, label: String, dock: Option<u32>, size: Option<[u32; 2]> },
    End,
    Tree { key: String, label: String },
    TreeEnd,
    CollapsingHeader { key: String, label: String },
    Text { text: String, color: Option<[u32; 3]> },
    Button { key: String, label: String },
    Radio { key: String, label: String, active: bool },
    Checkbox { key: String, label: String, value: bool },
    Slider { key: String, label: String, value: u32, range: [u32; 2] },
    Drag { key: String, label: String, value: u32, speed: u32, range: [u32; 2] },
    InputText { key: String, label: String, value: String },
    Separator { label: Option<String> },
    SameLine,
    OpenPopup(UiPopupId),
    BeginPopup(UiPopupId),
    EndPopup,
}

/// The key of the widget a command draws, if it draws one.
pub open spec fn spec_key_of(command: UiCommand) -> Option<Seq<char>> {
    match command {
        UiCommand::Begin { key, .. } => Some(key@),
        UiCommand::Button { key, .. } => Some(key@),
        UiCommand::Radio { key, .. } => Some(key@),
        UiCommand::Checkbox { key, .. } => Some(key@),
        UiCommand::Slider { key, .. } => Some(key@),
        UiCommand::Drag { key, .. } => Some(key@),
        UiCommand::InputText { key, .. } => Some(key@),
        UiCommand::Tree { key, .. } => Some(key@),
        UiCommand::CollapsingHeader { key, .. } => Some(key@),
        _ => None,
    }
}

pub fn key_of(command: &UiCommand) -> (key: Option<&String>)
    ensures
        match key {
            Some(k) => spec_key_of(*command) == Some(k@),
            None => spec_key_of(*command) is None,
        },
{
    match command {
        UiCommand::Begin { key, .. } => Some(key),
        UiCommand::Button { key, .. } => Some(key),
        UiCommand::Radio { key, .. } => Some(key),
        UiCommand::Checkbox { key, .. } => Some(key),
        UiCommand::Slider { key, .. } => Some(key),
        UiCommand::Drag { key, .. } => Some(key),
        UiCommand::InputText { key, .. } => Some(key),
        UiCommand::Tree { key, .. } => Some(key),
        UiCommand::CollapsingHeader { key, .. } => Some(key),
        UiCommand::End => None,
        UiCommand::TreeEnd => None,
        UiCommand::OpenPopup(_) => None,
        UiCommand::BeginPopup(_) => None,
        UiCommand::EndPopup => None,
        UiCommand::Text { .. } => None,
        UiCommand::Separator { .. } => None,
        UiCommand::SameLine => None,
    }
}

/// The name the popup is opened under.
pub fn popup_name(popup: UiPopupId) -> (name: &'static str)
    ensures
        name@ == "demir-mouse-popup"@,
{
    match popup {
        UiPopupId::Mouse => "demir-mouse-popup",
    }
}

/// The commands that close a window, a tree node and a popup.
pub open spec fn is_terminator(command: UiCommand) -> bool {
    command is End || command is TreeEnd || command is EndPopup
}

/// Whether `command` opens what `terminator` closes.
pub open spec fn opens(terminator: UiCommand, command: UiCommand) -> bool {
    match terminator {
        UiCommand::TreeEnd => command is Tree,
        UiCommand::EndPopup => command is BeginPopup,
        _ => command is Begin,
    }
}

pub open spec fn same_kind(terminator: UiCommand, command: UiCommand) -> bool {
    match terminator {
        UiCommand::TreeEnd => command is TreeEnd,
        UiCommand::EndPopup => command is EndPopup,
        _ => command is End,
    }
}

/// Where drawing resumes after skipping a closed window, node or popup: just past the
/// `terminator` that closes it, counting the ones nested inside, or the end of the stream.
pub open spec fn skip_from(commands: Seq<UiCommand>, i: int, depth: nat, terminator: UiCommand) -> int
    decreases commands.len() - i,
{
    if i < 0 || i >= commands.len() {
        commands.len() as int
    } else if opens(terminator, commands[i]) {
        skip_from(commands, i + 1, depth + 1, terminator)
    } else if same_kind(terminator, commands[i]) {
        if depth == 0 {
            i + 1
        } else {
            skip_from(commands, i + 1, (depth - 1) as nat, terminator)
        }
    } else {
        skip_from(commands, i + 1, depth, terminator)
    }
}

/// Skipping moves past where it starts, and never past the end of the stream.
pub proof fn lemma_skip_moves_forward(commands: Seq<UiCommand>, i: int, depth: nat, terminator: UiCommand)
    requires
        0 <= i,
    ensures
        skip_from(commands, i, depth, terminator) <= commands.len(),
        i < commands.len() ==> i < skip_from(commands, i, depth, terminator),
    decreases commands.len() - i,
{
    if i < commands.len() {
        let next_depth: nat = if opens(terminator, commands[i]) {
            depth + 1
        } else if same_kind(terminator, commands[i]) && depth > 0 {
            (depth - 1) as nat
        } else {
            depth
        };
        lemma_skip_moves_forward(commands, i + 1, next_depth, terminator);
    }
}

fn opens_exec(terminator: &UiCommand, command: &UiCommand) -> (opened: bool)
    ensures
        opened == opens(*terminator, *command),
{
    match terminator {
        UiCommand::TreeEnd => matches!(command, UiCommand::Tree { .. }),
        UiCommand::EndPopup => matches!(command, UiCommand::BeginPopup(_)),
        _ => matches!(command, UiCommand::Begin { .. }),
    }
}

fn same_kind_exec(terminator: &UiCommand, command: &UiCommand) -> (same: bool)
    ensures
        same == same_kind(*terminator, *command),
{
    match terminator {
        UiCommand::TreeEnd => matches!(command, UiCommand::TreeEnd),
        UiCommand::EndPopup => matches!(command, UiCommand::EndPopup),
        _ => matches!(command, UiCommand::End),
    }
}

/// Skips the commands of a window, node or popup that did not draw, from `from` on.
pub fn skip(commands: &Vec<UiCommand>, from: usize, terminator: &UiCommand) -> (next: usize)
    requires
        is_terminator(*terminator),
    ensures
        next == skip_from(commands@, from as int, 0, *terminator),
{
    let len = commands.len();
    if from >= len {
        return len;
    }
    let mut depth: usize = 0;
    let mut i: usize = from;
    while i < len
        invariant
            len == commands@.len(),
            from <= i <= len,
            depth <= i - from,
            skip_from(commands@, from as int, 0, *terminator) == skip_from(
                commands@,
                i as int,
                depth as nat,
                *terminator,
            ),
        decreases len - i,
    {
        let command = &commands[i];
        if opens_exec(terminator, command) {
            depth = depth + 1;
        } else if same_kind_exec(terminator, command) {
            if depth == 0 {
                return i + 1;
            }
            depth = depth - 1;
        }
        i = i + 1;
    }
    len
}

/// The keys of the widgets a stream draws.
pub open spec fn drawn_keys(commands: Seq<UiCommand>) -> Set<Seq<char>> {
    Set::new(|key: Seq<char>| exists|i: int| 0 <= i < commands.len() && spec_key_of(commands[i]) == Some(key))
}

/// The popups a stream begins.
pub open spec fn begun_popups(commands: Seq<UiCommand>) -> Set<UiPopupId> {
    Set::new(
        |popup: UiPopupId|
            exists|i: int| 0 <= i < commands.len() && commands[i] == UiCommand::BeginPopup(popup),
    )
}

pub open spec fn text_keys(keys: Seq<String>) -> Seq<Seq<char>> {
    keys.map_values(|key: String| key@)
}

pub open spec fn value_keys(values: Seq<(String, UiValue)>) -> Seq<Seq<char>> {
    values.map_values(|entry: (String, UiValue)| entry.0@)
}

/// Where `key` first is among `keys`.
fn find_text(keys: &Vec<String>, key: &str) -> (at: Option<usize>)
    ensures
        match at {
            Some(i) => first_position(text_keys(keys@), key@) == Some(i as int),
            None => first_position(text_keys(keys@), key@) is None,
        },
{
    let mut i: usize = 0;
    while i < keys.len()
        invariant
            i <= keys@.len(),
            forall|k: int| 0 <= k < i ==> text_keys(keys@)[k] != key@,
        decreases keys.len() - i,
    {
        if str_equal(keys[i].as_str(), key) {
            proof {
                lemma_first_position(text_keys(keys@), key@, i as int);
            }
            return Some(i);
        }
        i = i + 1;
    }
    proof {
        lemma_first_position(text_keys(keys@), key@, i as int);
    }
    None
}

/// Adds `key` unless it is already there.
fn insert_text(keys: &mut Vec<String>, key: &str)
    ensures
        text_keys(final(keys)@) == if text_keys(old(keys)@).contains(key@) {
            text_keys(old(keys)@)
        } else {
            text_keys(old(keys)@).push(key@)
        },
{
    let found = find_text(keys, key);
    proof {
        lemma_first_position_occurs(text_keys(keys@), key@);
    }
    if found.is_none() {
        let ghost before = keys@;
        keys.push(String::from_str(key));
        proof {
            assert(text_keys(keys@) =~= text_keys(before).push(key@));
        }
    }
}

/// Removes every copy of `key`.
fn remove_text(keys: &mut Vec<String>, key: &str)
    ensures
        final(keys)@ == old(keys)@.filter(|k: String| k@ != key@),
{
    let ghost keep = |k: String| k@ != key@;
    let mut kept: Vec<String> = Vec::new();
    let mut i: usize = 0;
    while i < keys.len()
        invariant
            i <= keys@.len(),
            keep == (|k: String| k@ != key@),
            kept@ == keys@.take(i as int).filter(keep),
        decreases keys.len() - i,
    {
        proof {
            assert(keys@.take(i + 1) =~= keys@.take(i as int).push(keys@[i as int]));
            keys@.take(i as int).lemma_filter_push(keys@[i as int], keep);
        }
        if !str_equal(keys[i].as_str(), key) {
            kept.push(keys[i].clone());
        }
        i = i + 1;
    }
    proof {
        assert(keys@.take(i as int) =~= keys@);
    }
    *keys = kept;
}

/// Whether `key` is among `keys`.
fn has_text(keys: &Vec<String>, key: &String) -> (found: bool)
    ensures
        found == text_keys(keys@).contains(key@),
{
    let found = find_text(keys, key.as_str());
    proof {
        lemma_first_position_occurs(text_keys(keys@), key@);
    }
    found.is_some()
}

/// What the editor keeps of a profile's panel between frames.
#[derive(Debug)]
pub struct DmUi {
    pub values: Vec<(String, UiValue)>,
    pub closed: Vec<String>,
    pub open_popups: Vec<UiPopupId>,
    pub clicks: Vec<String>,
    pub pending: bool,
    pub mouse_popup_requested: bool,
}

impl Default for DmUi {
    fn default() -> (panel: Self)
        ensures
            panel.values@.len() == 0,
            panel.closed@.len() == 0,
            panel.open_popups@.len() == 0,
            panel.clicks@.len() == 0,
            !panel.pending,
            !panel.mouse_popup_requested,
    {
        DmUi {
            values: Vec::new(),
            closed: Vec::new(),
            open_popups: Vec::new(),
            clicks: Vec::new(),
            pending: false,
            mouse_popup_requested: false,
        }
    }
}

/// A copy of `value`.
fn copy_value(value: &UiValue) -> (copy: UiValue)
    ensures
        copy == *value,
{
    match value {
        UiValue::Bool(b) => UiValue::Bool(*b),
        UiValue::Num(bits) => UiValue::Num(*bits),
        UiValue::Text(text) => UiValue::Text(text.clone()),
    }
}

/// Where the value of `key` is among `values`.
fn find_value(values: &Vec<(String, UiValue)>, key: &str) -> (at: Option<usize>)
    ensures
        match at {
            Some(i) => first_position(value_keys(values@), key@) == Some(i as int),
            None => first_position(value_keys(values@), key@) is None,
        },
{
    let mut i: usize = 0;
    while i < values.len()
        invariant
            i <= values@.len(),
            forall|k: int| 0 <= k < i ==> value_keys(values@)[k] != key@,
        decreases values.len() - i,
    {
        if str_equal(values[i].0.as_str(), key) {
            proof {
                lemma_first_position(value_keys(values@), key@, i as int);
            }
            return Some(i);
        }
        i = i + 1;
    }
    proof {
        lemma_first_position(value_keys(values@), key@, i as int);
    }
    None
}

fn has_popup(popups: &Vec<UiPopupId>, popup: UiPopupId) -> (found: bool)
    ensures
        found == popups@.contains(popup),
{
    let mut i: usize = 0;
    while i < popups.len()
        invariant
            i <= popups@.len(),
            forall|k: int| 0 <= k < i ==> popups@[k] != popup,
        decreases popups.len() - i,
    {
        if popups[i] == popup {
            return true;
        }
        i = i + 1;
    }
    false
}

/// The keys and the popups a stream draws.
fn collect_drawn(commands: &Vec<UiCommand>) -> (drawn: (Vec<String>, Vec<UiPopupId>))
    ensures
        forall|key: Seq<char>| text_keys(drawn.0@).contains(key) <==> drawn_keys(commands@).contains(key),
        forall|popup: UiPopupId| drawn.1@.contains(popup) <==> begun_popups(commands@).contains(popup),
{
    let mut drawn: Vec<String> = Vec::new();
    let mut popups: Vec<UiPopupId> = Vec::new();
    let mut i: usize = 0;
    while i < commands.len()
        invariant
            i <= commands@.len(),
            forall|k: int|
                0 <= k < i && (#[trigger] spec_key_of(commands@[k])) is Some ==> text_keys(
                    drawn@,
                ).contains(spec_key_of(commands@[k])->0),
            forall|j: int|
                0 <= j < drawn@.len() ==> exists|k: int|
                    0 <= k < i && spec_key_of(commands@[k]) == Some(#[trigger] drawn@[j]@),
            forall|k: int|
                0 <= k < i && (#[trigger] commands@[k]) is BeginPopup ==> popups@.contains(
                    commands@[k]->BeginPopup_0,
                ),
            forall|j: int|
                0 <= j < popups@.len() ==> exists|k: int|
                    0 <= k < i && commands@[k] == UiCommand::BeginPopup(#[trigger] popups@[j]),
        decreases commands.len() - i,
    {
        let command = &commands[i];
        let ghost drawn_before = drawn@;
        let ghost popups_before = popups@;
        if let Some(key) = key_of(command) {
            drawn.push(key.clone());
            proof {
                assert(text_keys(drawn@)[drawn@.len() - 1] == key@);
            }
        }
        if let UiCommand::BeginPopup(popup) = command {
            popups.push(*popup);
            proof {
                assert(popups@[popups@.len() - 1] == *popup);
            }
        }
        proof {
            assert forall|k: int|
                0 <= k < i + 1 && (#[trigger] spec_key_of(commands@[k])) is Some implies text_keys(
                drawn@,
            ).contains(spec_key_of(commands@[k])->0) by {
                if k < i {
                    let key = spec_key_of(commands@[k])->0;
                    let j = choose|j: int|
                        0 <= j < text_keys(drawn_before).len() && text_keys(drawn_before)[j] == key;
                    assert(text_keys(drawn@)[j] == key);
                }
            }
            assert forall|j: int| 0 <= j < drawn@.len() implies exists|k: int|
                0 <= k < i + 1 && spec_key_of(commands@[k]) == Some(#[trigger] drawn@[j]@) by {
                if j < drawn_before.len() {
                    assert(drawn@[j] == drawn_before[j]);
                } else {
                    assert(spec_key_of(commands@[i as int]) == Some(drawn@[j]@));
                }
            }
            assert forall|k: int|
                0 <= k < i + 1 && (#[trigger] commands@[k]) is BeginPopup implies popups@.contains(
                commands@[k]->BeginPopup_0,
            ) by {
                if k < i {
                    let popup = commands@[k]->BeginPopup_0;
                    let j = choose|j: int| 0 <= j < popups_before.len() && popups_before[j] == popup;
                    assert(popups@[j] == popup);
                }
            }
            assert forall|j: int| 0 <= j < popups@.len() implies exists|k: int|
                0 <= k < i + 1 && commands@[k] == UiCommand::BeginPopup(#[trigger] popups@[j]) by {
                if j < popups_before.len() {
                    assert(popups@[j] == popups_before[j]);
                } else {
                    assert(commands@[i as int] == UiCommand::BeginPopup(popups@[j]));
                }
            }
        }
        i = i + 1;
    }
    proof {
        assert forall|key: Seq<char>|
            text_keys(drawn@).contains(key) <==> drawn_keys(commands@).contains(key) by {
            if text_keys(drawn@).contains(key) {
                let j = choose|j: int| 0 <= j < text_keys(drawn@).len() && text_keys(drawn@)[j] == key;
                assert(drawn@[j]@ == key);
            }
            if drawn_keys(commands@).contains(key) {
                let k = choose|k: int|
                    0 <= k < commands@.len() && spec_key_of(commands@[k]) == Some(key);
                assert(spec_key_of(commands@[k]) is Some);
            }
        }
        assert forall|popup: UiPopupId|
            popups@.contains(popup) <==> begun_popups(commands@).contains(popup) by {
            if popups@.contains(popup) {
                let j = choose|j: int| 0 <= j < popups@.len() && popups@[j] == popup;
                assert(popups@[j] == popup);
            }
            if begun_popups(commands@).contains(popup) {
                let k = choose|k: int|
                    0 <= k < commands@.len() && commands@[k] == UiCommand::BeginPopup(popup);
                assert(commands@[k] is BeginPopup);
            }
        }
    }
    (drawn, popups)
}

impl DmUi {
    pub fn request_mouse_popup(&mut self)
        ensures
            final(self).mouse_popup_requested,
            final(self).values == old(self).values,
            final(self).closed == old(self).closed,
            final(self).open_popups == old(self).open_popups,
            final(self).clicks == old(self).clicks,
            final(self).pending == old(self).pending,
    {
        self.mouse_popup_requested = true;
    }

    /// A button or radio button pressed: reported with the next frame.
    pub fn press(&mut self, key: &str)
        ensures
            text_keys(final(self).clicks@) == if text_keys(old(self).clicks@).contains(key@) {
                text_keys(old(self).clicks@)
            } else {
                text_keys(old(self).clicks@).push(key@)
            },
            final(self).pending,
            final(self).values == old(self).values,
            final(self).closed == old(self).closed,
            final(self).open_popups == old(self).open_popups,
            final(self).mouse_popup_requested == old(self).mouse_popup_requested,
    {
        insert_text(&mut self.clicks, key);
        self.pending = true;
    }

    /// A widget edited to `value`: recorded, and reported with the next frame, unless it already
    /// held that value.
    pub fn set_value(&mut self, key: &str, value: UiValue)
        ensures
            ({
                let before = old(self).values@;
                let after = final(self).values@;
                match first_position(value_keys(before), key@) {
                    Some(i) => if values_equal(before[i].1, value) {
                        after == before && final(self).pending == old(self).pending
                    } else {
                        &&& after.len() == before.len()
                        &&& after[i].0@ == key@
                        &&& after[i].1 == value
                        &&& forall|j: int| 0 <= j < before.len() && j != i ==> after[j] == before[j]
                        &&& final(self).pending
                    },
                    None => {
                        &&& after.len() == before.len() + 1
                        &&& after.take(before.len() as int) == before
                        &&& after.last().0@ == key@
                        &&& after.last().1 == value
                        &&& final(self).pending
                    },
                }
            }),
            final(self).closed == old(self).closed,
            final(self).open_popups == old(self).open_popups,
            final(self).clicks == old(self).clicks,
            final(self).mouse_popup_requested == old(self).mouse_popup_requested,
    {
        proof {
            lemma_first_position_occurs(value_keys(self.values@), key@);
        }
        match find_value(&self.values, key) {
            Some(i) => {
                if !same_value(&self.values[i].1, &value) {
                    let ghost before = self.values@;
                    self.values.set(i, (String::from_str(key), value));
                    self.pending = true;
                    proof {
                        lemma_first_position_occurs(value_keys(before), key@);
                    }
                }
            },
            None => {
                let ghost before = self.values@;
                self.values.push((String::from_str(key), value));
                self.pending = true;
                proof {
                    assert(self.values@.take(before.len() as int) =~= before);
                }
            },
        }
    }

    /// A window or node drawn open, or closed: what stays closed is remembered.
    pub fn set_open(&mut self, key: &str, open: bool)
        ensures
            open ==> final(self).closed@ == old(self).closed@.filter(|k: String| k@ != key@),
            !open ==> text_keys(final(self).closed@) == if text_keys(old(self).closed@).contains(
                key@,
            ) {
                text_keys(old(self).closed@)
            } else {
                text_keys(old(self).closed@).push(key@)
            },
            final(self).values == old(self).values,
            final(self).open_popups == old(self).open_popups,
            final(self).clicks == old(self).clicks,
            final(self).pending == old(self).pending,
            final(self).mouse_popup_requested == old(self).mouse_popup_requested,
    {
        if open {
            remove_text(&mut self.closed, key);
        } else {
            insert_text(&mut self.closed, key);
        }
    }

    /// A popup found open, or closed.
    pub fn set_popup_open(&mut self, popup: UiPopupId, open: bool)
        ensures
            open ==> final(self).open_popups@ == if old(self).open_popups@.contains(popup) {
                old(self).open_popups@
            } else {
                old(self).open_popups@.push(popup)
            },
            !open ==> final(self).open_popups@ == old(self).open_popups@.filter(
                |p: UiPopupId| p != popup,
            ),
            final(self).values == old(self).values,
            final(self).closed == old(self).closed,
            final(self).clicks == old(self).clicks,
            final(self).pending == old(self).pending,
            final(self).mouse_popup_requested == old(self).mouse_popup_requested,
    {
        if open {
            if !has_popup(&self.open_popups, popup) {
                self.open_popups.push(popup);
            }
        } else {
            let ghost keep = |p: UiPopupId| p != popup;
            let mut kept: Vec<UiPopupId> = Vec::new();
            let mut i: usize = 0;
            while i < self.open_popups.len()
                invariant
                    i <= self.open_popups@.len(),
                    keep == (|p: UiPopupId| p != popup),
                    kept@ == self.open_popups@.take(i as int).filter(keep),
                decreases self.open_popups.len() - i,
            {
                proof {
                    assert(self.open_popups@.take(i + 1) =~= self.open_popups@.take(i as int).push(
                        self.open_popups@[i as int],
                    ));
                    self.open_popups@.take(i as int).lemma_filter_push(
                        self.open_popups@[i as int],
                        keep,
                    );
                }
                if self.open_popups[i] != popup {
                    kept.push(self.open_popups[i]);
                }
                i = i + 1;
            }
            proof {
                assert(self.open_popups@.take(i as int) =~= self.open_popups@);
            }
            self.open_popups = kept;
        }
    }

    /// Forgets what belongs to widgets and popups the last stream no longer drew.
    pub fn prune(&mut self, commands: &Vec<UiCommand>)
        ensures
            final(self).values@ == old(self).values@.filter(
                |entry: (String, UiValue)| drawn_keys(commands@).contains(entry.0@),
            ),
            final(self).closed@ == old(self).closed@.filter(
                |key: String| drawn_keys(commands@).contains(key@),
            ),
            final(self).clicks@ == old(self).clicks@.filter(
                |key: String| drawn_keys(commands@).contains(key@),
            ),
            final(self).open_popups@ == old(self).open_popups@.filter(
                |popup: UiPopupId| begun_popups(commands@).contains(popup),
            ),
            final(self).pending == old(self).pending,
            final(self).mouse_popup_requested == old(self).mouse_popup_requested,
    {
        let (drawn, popups) = collect_drawn(commands);
        let ghost drawn_set = drawn_keys(commands@);
        let ghost popup_set = begun_popups(commands@);
        proof {
            assert forall|key: Seq<char>| text_keys(drawn@).contains(key) <==> drawn_set.contains(key) by {}
            assert forall|popup: UiPopupId| popups@.contains(popup) <==> popup_set.contains(popup) by {}
        }

        let ghost keep_value = |entry: (String, UiValue)| drawn_set.contains(entry.0@);
        let mut values: Vec<(String, UiValue)> = Vec::new();
        let mut i: usize = 0;
        while i < self.values.len()
            invariant
                i <= self.values@.len(),
                self.values == old(self).values,
                forall|key: Seq<char>| text_keys(drawn@).contains(key) <==> drawn_set.contains(key),
                keep_value == (|entry: (String, UiValue)| drawn_set.contains(entry.0@)),
                values@ == self.values@.take(i as int).filter(keep_value),
            decreases self.values.len() - i,
        {
            proof {
                assert(self.values@.take(i + 1) =~= self.values@.take(i as int).push(
                    self.values@[i as int],
                ));
                self.values@.take(i as int).lemma_filter_push(self.values@[i as int], keep_value);
            }
            if has_text(&drawn, &self.values[i].0) {
                values.push((self.values[i].0.clone(), copy_value(&self.values[i].1)));
            }
            i = i + 1;
        }
        proof {
            assert(self.values@.take(i as int) =~= self.values@);
        }
        self.values = values;

        let ghost keep_key = |key: String| drawn_set.contains(key@);
        let mut closed: Vec<String> = Vec::new();
        let mut i: usize = 0;
        while i < self.closed.len()
            invariant
                i <= self.closed@.len(),
                self.closed == old(self).closed,
                forall|key: Seq<char>| text_keys(drawn@).contains(key) <==> drawn_set.contains(key),
                keep_key == (|key: String| drawn_set.contains(key@)),
                closed@ == self.closed@.take(i as int).filter(keep_key),
            decreases self.closed.len() - i,
        {
            proof {
                assert(self.closed@.take(i + 1) =~= self.closed@.take(i as int).push(
                    self.closed@[i as int],
                ));
                self.closed@.take(i as int).lemma_filter_push(self.closed@[i as int], keep_key);
            }
            if has_text(&drawn, &self.closed[i]) {
                closed.push(self.closed[i].clone());
            }
            i = i + 1;
        }
        proof {
            assert(self.closed@.take(i as int) =~= self.closed@);
        }
        self.closed = closed;

        let mut clicks: Vec<String> = Vec::new();
        let mut i: usize = 0;
        while i < self.clicks.len()
            invariant
                i <= self.clicks@.len(),
                self.clicks == old(self).clicks,
                forall|key: Seq<char>| text_keys(drawn@).contains(key) <==> drawn_set.contains(key),
                keep_key == (|key: String| drawn_set.contains(key@)),
                clicks@ == self.clicks@.take(i as int).filter(keep_key),
            decreases self.clicks.len() - i,
        {
            proof {
                assert(self.clicks@.take(i + 1) =~= self.clicks@.take(i as int).push(
                    self.clicks@[i as int],
                ));
                self.clicks@.take(i as int).lemma_filter_push(self.clicks@[i as int], keep_key);
            }
            if has_text(&drawn, &self.clicks[i]) {
                clicks.push(self.clicks[i].clone());
            }
            i = i + 1;
        }
        proof {
            assert(self.clicks@.take(i as int) =~= self.clicks@);
        }
        self.clicks = clicks;

        let ghost keep_popup = |popup: UiPopupId| popup_set.contains(popup);
        let mut open_popups: Vec<UiPopupId> = Vec::new();
        let mut i: usize = 0;
        while i < self.open_popups.len()
            invariant
                i <= self.open_popups@.len(),
                self.open_popups == old(self).open_popups,
                forall|popup: UiPopupId| popups@.contains(popup) <==> popup_set.contains(popup),
                keep_popup == (|popup: UiPopupId| popup_set.contains(popup)),
                open_popups@ == self.open_popups@.take(i as int).filter(keep_popup),
            decreases self.open_popups.len() - i,
        {
            proof {
                assert(self.open_popups@.take(i + 1) =~= self.open_popups@.take(i as int).push(
                    self.open_popups@[i as int],
                ));
                self.open_popups@.take(i as int).lemma_filter_push(
                    self.open_popups@[i as int],
                    keep_popup,
                );
            }
            if has_popup(&popups, self.open_popups[i]) {
                open_popups.push(self.open_popups[i]);
            }
            i = i + 1;
        }
        proof {
            assert(self.open_popups@.take(i as int) =~= self.open_popups@);
        }
        self.open_popups = open_popups;
    }

    pub fn values(&self) -> (values: &Vec<(String, UiValue)>)
        ensures
            values == &self.values,
    {
        &self.values
    }

    pub fn closed(&self) -> (closed: &Vec<String>)
        ensures
            closed == &self.closed,
    {
        &self.closed
    }

    pub fn clicks(&self) -> (clicks: &Vec<String>)
        ensures
            clicks == &self.clicks,
    {
        &self.clicks
    }

    pub fn open_popups(&self) -> (open_popups: &Vec<UiPopupId>)
        ensures
            open_popups == &self.open_popups,
    {
        &self.open_popups
    }
}

} // verus!
