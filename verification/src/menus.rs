//! Menus, the toolbar and which windows are open.

use crate::model::ToolKind;
use crate::selection::{AreaSelectionShape, RectangleSelectionMode, SelectionTargetMode};
use crate::shortcuts::ClipboardCommand;
use vstd::prelude::*;

verus! {

/// The kinds of the menu on the canvas.
#[derive(Debug, Clone, Copy, PartialEq, Eq, Structural)]
pub enum CanvasContextMenuKind {
    Brush,
    Fill,
    Selection,
}

/// The menu that a tool has on the canvas.
pub fn canvas_context_menu_kind(tool: ToolKind) -> (kind: Option<CanvasContextMenuKind>)
    ensures
        kind == match tool {
            ToolKind::Brush => Some(CanvasContextMenuKind::Brush),
            ToolKind::LassoFill => Some(CanvasContextMenuKind::Fill),
            ToolKind::Selection => Some(CanvasContextMenuKind::Selection),
            _ => None,
        },
{
    match tool {
        ToolKind::Brush => Some(CanvasContextMenuKind::Brush),
        ToolKind::LassoFill => Some(CanvasContextMenuKind::Fill),
        ToolKind::Selection => Some(CanvasContextMenuKind::Selection),
        ToolKind::Eraser | ToolKind::Eyedropper | ToolKind::EraserLasso => None,
    }
}

/// The axis over which a selection is flipped.
#[derive(Debug, Clone, Copy, PartialEq, Eq, Structural)]
pub enum SelectionFlipAxis {
    Horizontal,
    Vertical,
}

/// What the menu for selections can do.
#[derive(Debug, Clone, Copy, PartialEq, Eq, Structural)]
pub enum SelectionMenuAction {
    TargetMode(SelectionTargetMode),
    AreaShape(AreaSelectionShape),
    Clipboard(ClipboardCommand),
    Deselect,
    Delete,
    Flip(SelectionFlipAxis),
    Recolor,
    FreezeCompact,
}

/// What a click on an entry does.
#[derive(Debug, Clone, Copy, PartialEq, Eq, Structural)]
pub enum MenuEffect {
    /// Asks for something to be done.
    Act(SelectionMenuAction),
    /// Sets how the selection rectangle takes objects.
    SetRectangleMode(RectangleSelectionMode),
}

impl MenuEffect {
    /// The text of the entry.
    pub fn label(self) -> (label: &'static str)
        ensures
            label@ == match self {
                MenuEffect::SetRectangleMode(RectangleSelectionMode::Inside) => "Inside"@,
                MenuEffect::SetRectangleMode(RectangleSelectionMode::Crossing) => "Crossing"@,
                MenuEffect::Act(action) => match action {
                    SelectionMenuAction::TargetMode(SelectionTargetMode::Object) => "Object"@,
                    SelectionMenuAction::TargetMode(SelectionTargetMode::Area) => "Area"@,
                    SelectionMenuAction::AreaShape(AreaSelectionShape::Rectangle) => "Rectangle"@,
                    SelectionMenuAction::AreaShape(AreaSelectionShape::Lasso) => "Lasso"@,
                    SelectionMenuAction::Clipboard(ClipboardCommand::Cut) => "Cut"@,
                    SelectionMenuAction::Clipboard(ClipboardCommand::Copy) => "Copy"@,
                    SelectionMenuAction::Clipboard(ClipboardCommand::Paste) => "Paste"@,
                    SelectionMenuAction::Clipboard(ClipboardCommand::PasteInPlace) =>
                    "Paste in place"@,
                    SelectionMenuAction::Flip(SelectionFlipAxis::Horizontal) =>
                    "Flip Horizontal"@,
                    SelectionMenuAction::Flip(SelectionFlipAxis::Vertical) => "Flip Vertical"@,
                    SelectionMenuAction::Recolor => "Recolor selected"@,
                    SelectionMenuAction::FreezeCompact => "Freeze/Compact selected"@,
                    SelectionMenuAction::Deselect => "Deselect"@,
                    SelectionMenuAction::Delete => "Delete"@,
                },
            },
    {
        match self {
            MenuEffect::SetRectangleMode(RectangleSelectionMode::Inside) => "Inside",
            MenuEffect::SetRectangleMode(RectangleSelectionMode::Crossing) => "Crossing",
            MenuEffect::Act(action) => match action {
                SelectionMenuAction::TargetMode(SelectionTargetMode::Object) => "Object",
                SelectionMenuAction::TargetMode(SelectionTargetMode::Area) => "Area",
                SelectionMenuAction::AreaShape(AreaSelectionShape::Rectangle) => "Rectangle",
                SelectionMenuAction::AreaShape(AreaSelectionShape::Lasso) => "Lasso",
                SelectionMenuAction::Clipboard(ClipboardCommand::Cut) => "Cut",
                SelectionMenuAction::Clipboard(ClipboardCommand::Copy) => "Copy",
                SelectionMenuAction::Clipboard(ClipboardCommand::Paste) => "Paste",
                SelectionMenuAction::Clipboard(ClipboardCommand::PasteInPlace) => "Paste in place",
                SelectionMenuAction::Flip(SelectionFlipAxis::Horizontal) => "Flip Horizontal",
                SelectionMenuAction::Flip(SelectionFlipAxis::Vertical) => "Flip Vertical",
                SelectionMenuAction::Recolor => "Recolor selected",
                SelectionMenuAction::FreezeCompact => "Freeze/Compact selected",
                SelectionMenuAction::Deselect => "Deselect",
                SelectionMenuAction::Delete => "Delete",
            },
        }
    }
}

/// An entry of the menu for selections.
#[derive(Debug, Clone, Copy, PartialEq, Eq, Structural)]
pub struct MenuEntry {
    pub effect: MenuEffect,
    pub enabled: bool,
    /// Whether it is shown as the current choice.
    pub chosen: bool,
    /// Whether a click closes the menu.
    pub closes: bool,
}

/// What the menu for selections depends on.
#[derive(Debug, Clone, Copy, PartialEq, Eq, Structural)]
pub struct SelectionMenuState {
    pub target_mode: SelectionTargetMode,
    pub rectangle_mode: RectangleSelectionMode,
    pub area_shape: AreaSelectionShape,
    pub has_selection: bool,
    pub has_area: bool,
    pub clipboard_holds_something: bool,
    pub layer_is_editable: bool,
}

/// An entry that stays open and shows the current choice.
pub open spec fn choice(effect: MenuEffect, chosen: bool) -> MenuEntry {
    MenuEntry { effect, enabled: true, chosen, closes: false }
}

/// An entry that does something and closes the menu.
pub open spec fn command(action: SelectionMenuAction, enabled: bool) -> MenuEntry {
    MenuEntry { effect: MenuEffect::Act(action), enabled, chosen: false, closes: true }
}

impl SelectionMenuState {
    /// Whether there is something to paste, and a place for it.
    pub open spec fn can_paste(self) -> bool {
        self.clipboard_holds_something && self.layer_is_editable
    }

    /// The entries that choose modes.
    pub open spec fn choices(self) -> Seq<MenuEntry> {
        let targets = seq![
            choice(
                MenuEffect::Act(SelectionMenuAction::TargetMode(SelectionTargetMode::Object)),
                self.target_mode == SelectionTargetMode::Object,
            ),
            choice(
                MenuEffect::Act(SelectionMenuAction::TargetMode(SelectionTargetMode::Area)),
                self.target_mode == SelectionTargetMode::Area,
            ),
        ];
        let shapes = match self.target_mode {
            SelectionTargetMode::Object => seq![
                choice(
                    MenuEffect::SetRectangleMode(RectangleSelectionMode::Inside),
                    self.rectangle_mode == RectangleSelectionMode::Inside,
                ),
                choice(
                    MenuEffect::SetRectangleMode(RectangleSelectionMode::Crossing),
                    self.rectangle_mode == RectangleSelectionMode::Crossing,
                ),
            ],
            SelectionTargetMode::Area => seq![
                choice(
                    MenuEffect::Act(SelectionMenuAction::AreaShape(AreaSelectionShape::Rectangle)),
                    self.area_shape == AreaSelectionShape::Rectangle,
                ),
                choice(
                    MenuEffect::Act(SelectionMenuAction::AreaShape(AreaSelectionShape::Lasso)),
                    self.area_shape == AreaSelectionShape::Lasso,
                ),
            ],
        };
        targets + shapes
    }

    /// The entries that do something.
    pub open spec fn commands(self) -> Seq<MenuEntry> {
        seq![
            command(SelectionMenuAction::Clipboard(ClipboardCommand::Cut), self.has_selection),
            command(SelectionMenuAction::Clipboard(ClipboardCommand::Copy), self.has_selection),
            command(SelectionMenuAction::Clipboard(ClipboardCommand::Paste), self.can_paste()),
            command(
                SelectionMenuAction::Clipboard(ClipboardCommand::PasteInPlace),
                self.can_paste(),
            ),
            command(SelectionMenuAction::Flip(SelectionFlipAxis::Horizontal), self.has_selection),
            command(SelectionMenuAction::Flip(SelectionFlipAxis::Vertical), self.has_selection),
            command(SelectionMenuAction::Recolor, self.has_selection),
            command(
                SelectionMenuAction::FreezeCompact,
                self.has_selection && self.target_mode == SelectionTargetMode::Object,
            ),
            command(SelectionMenuAction::Deselect, self.has_selection || self.has_area),
            command(SelectionMenuAction::Delete, self.has_selection),
        ]
    }

    /// The entries of the menu for selections, from top to bottom.
    pub fn entries(&self) -> (entries: Vec<MenuEntry>)
        ensures
            entries@ == self.choices() + self.commands(),
    {
        let mut entries: Vec<MenuEntry> = Vec::new();
        entries.push(
            make_choice(
                MenuEffect::Act(SelectionMenuAction::TargetMode(SelectionTargetMode::Object)),
                self.target_mode == SelectionTargetMode::Object,
            ),
        );
        entries.push(
            make_choice(
                MenuEffect::Act(SelectionMenuAction::TargetMode(SelectionTargetMode::Area)),
                self.target_mode == SelectionTargetMode::Area,
            ),
        );
        match self.target_mode {
            SelectionTargetMode::Object => {
                entries.push(
                    make_choice(
                        MenuEffect::SetRectangleMode(RectangleSelectionMode::Inside),
                        self.rectangle_mode == RectangleSelectionMode::Inside,
                    ),
                );
                entries.push(
                    make_choice(
                        MenuEffect::SetRectangleMode(RectangleSelectionMode::Crossing),
                        self.rectangle_mode == RectangleSelectionMode::Crossing,
                    ),
                );
            },
            SelectionTargetMode::Area => {
                entries.push(
                    make_choice(
                        MenuEffect::Act(
                            SelectionMenuAction::AreaShape(AreaSelectionShape::Rectangle),
                        ),
                        self.area_shape == AreaSelectionShape::Rectangle,
                    ),
                );
                entries.push(
                    make_choice(
                        MenuEffect::Act(SelectionMenuAction::AreaShape(AreaSelectionShape::Lasso)),
                        self.area_shape == AreaSelectionShape::Lasso,
                    ),
                );
            },
        }
        assert(entries@ =~= self.choices());
        let selected: bool = self.has_selection;
        let can_paste: bool = self.clipboard_holds_something && self.layer_is_editable;
        entries.push(
            make_command(SelectionMenuAction::Clipboard(ClipboardCommand::Cut), selected),
        );
        entries.push(
            make_command(SelectionMenuAction::Clipboard(ClipboardCommand::Copy), selected),
        );
        entries.push(
            make_command(SelectionMenuAction::Clipboard(ClipboardCommand::Paste), can_paste),
        );
        entries.push(
            make_command(SelectionMenuAction::Clipboard(ClipboardCommand::PasteInPlace), can_paste),
        );
        entries.push(
            make_command(SelectionMenuAction::Flip(SelectionFlipAxis::Horizontal), selected),
        );
        entries.push(
            make_command(SelectionMenuAction::Flip(SelectionFlipAxis::Vertical), selected),
        );
        entries.push(make_command(SelectionMenuAction::Recolor, selected));
        entries.push(
            make_command(
                SelectionMenuAction::FreezeCompact,
                selected && self.target_mode == SelectionTargetMode::Object,
            ),
        );
        entries.push(make_command(SelectionMenuAction::Deselect, selected || self.has_area));
        entries.push(make_command(SelectionMenuAction::Delete, selected));
        assert(entries@ =~= self.choices() + self.commands());
        entries
    }
}

fn make_choice(effect: MenuEffect, chosen: bool) -> (entry: MenuEntry)
    ensures
        entry == choice(effect, chosen),
{
    MenuEntry { effect, enabled: true, chosen, closes: false }
}

fn make_command(action: SelectionMenuAction, enabled: bool) -> (entry: MenuEntry)
    ensures
        entry == command(action, enabled),
{
    MenuEntry { effect: MenuEffect::Act(action), enabled, chosen: false, closes: true }
}

/// The last of the first `count` entries that was clicked while enabled and
/// asks for something.
pub open spec fn clicked_action(entries: Seq<MenuEntry>, clicked: Seq<bool>, count: int) -> Option<
    SelectionMenuAction,
>
    decreases count,
{
    if count <= 0 {
        None
    } else if clicked[count - 1] && entries[count - 1].enabled
        && entries[count - 1].effect is Act {
        Some(entries[count - 1].effect->Act_0)
    } else {
        clicked_action(entries, clicked, count - 1)
    }
}

/// The last way of taking objects that was clicked among the first `count`
/// entries.
pub open spec fn clicked_rectangle_mode(
    entries: Seq<MenuEntry>,
    clicked: Seq<bool>,
    count: int,
) -> Option<RectangleSelectionMode>
    decreases count,
{
    if count <= 0 {
        None
    } else if clicked[count - 1] && entries[count - 1].enabled
        && entries[count - 1].effect is SetRectangleMode {
        Some(entries[count - 1].effect->SetRectangleMode_0)
    } else {
        clicked_rectangle_mode(entries, clicked, count - 1)
    }
}

/// What the clicks on the entries come to.
pub fn menu_outcome(entries: &Vec<MenuEntry>, clicked: &Vec<bool>) -> (outcome: (
    Option<RectangleSelectionMode>,
    Option<SelectionMenuAction>,
))
    requires
        entries@.len() == clicked@.len(),
    ensures
        outcome.0 == clicked_rectangle_mode(entries@, clicked@, entries@.len() as int),
        outcome.1 == clicked_action(entries@, clicked@, entries@.len() as int),
{
    let mut mode: Option<RectangleSelectionMode> = None;
    let mut action: Option<SelectionMenuAction> = None;
    let mut i: usize = 0;
    while i < entries.len()
        invariant
            i <= entries@.len() == clicked@.len(),
            mode == clicked_rectangle_mode(entries@, clicked@, i as int),
            action == clicked_action(entries@, clicked@, i as int),
        decreases entries@.len() - i,
    {
        if clicked[i] && entries[i].enabled {
            match entries[i].effect {
                MenuEffect::Act(chosen) => {
                    action = Some(chosen);
                },
                MenuEffect::SetRectangleMode(chosen) => {
                    mode = Some(chosen);
                },
            }
        }
        i = i + 1;
    }
    (mode, action)
}

/// Without a selection, an area and something to paste, the menu can only
/// choose modes.
pub proof fn law_empty_menu_only_chooses(state: SelectionMenuState, clicked: Seq<bool>)
    requires
        !state.has_selection,
        !state.has_area,
        !state.can_paste(),
        clicked.len() == state.choices().len() + state.commands().len(),
    ensures
        ({
            let entries = state.choices() + state.commands();
            let action = clicked_action(entries, clicked, entries.len() as int);
            action is None || action->0 is TargetMode || action->0 is AreaShape
        }),
{
    let entries = state.choices() + state.commands();
    lemma_only_choices(entries, clicked, entries.len() as int);
}

proof fn lemma_only_choices(entries: Seq<MenuEntry>, clicked: Seq<bool>, count: int)
    requires
        0 <= count <= entries.len(),
        forall|i: int|
            0 <= i < entries.len() && (#[trigger] entries[i]).enabled && entries[i].effect is Act
                ==> entries[i].effect->Act_0 is TargetMode || entries[i].effect->Act_0 is AreaShape,
    ensures
        ({
            let action = clicked_action(entries, clicked, count);
            action is None || action->0 is TargetMode || action->0 is AreaShape
        }),
    decreases count,
{
    if count > 0 {
        assert(entries[count - 1] == entries[count - 1]);
        lemma_only_choices(entries, clicked, count - 1);
    }
}

/// The current mode of the selection tool, as the toolbar shows it.
pub fn selection_mode_label(
    target_mode: SelectionTargetMode,
    rectangle_mode: RectangleSelectionMode,
    area_shape: AreaSelectionShape,
) -> (label: &'static str)
    ensures
        label@ == match target_mode {
            SelectionTargetMode::Object => match rectangle_mode {
                RectangleSelectionMode::Inside => "Selection: Object: Inside"@,
                RectangleSelectionMode::Crossing => "Selection: Object: Crossing"@,
            },
            SelectionTargetMode::Area => match area_shape {
                AreaSelectionShape::Rectangle => "Selection: Area: Rectangle"@,
                AreaSelectionShape::Lasso => "Selection: Area: Lasso"@,
            },
        },
{
    match target_mode {
        SelectionTargetMode::Object => match rectangle_mode {
            RectangleSelectionMode::Inside => "Selection: Object: Inside",
            RectangleSelectionMode::Crossing => "Selection: Object: Crossing",
        },
        SelectionTargetMode::Area => match area_shape {
            AreaSelectionShape::Rectangle => "Selection: Area: Rectangle",
            AreaSelectionShape::Lasso => "Selection: Area: Lasso",
        },
    }
}

/// The tabs of the window for files.
#[derive(Debug, Clone, Copy, PartialEq, Eq, Structural)]
pub enum FileWindowTab {
    File,
    Help,
}

/// The buttons of the toolbar that open windows.
#[derive(Debug, Clone, Copy, PartialEq, Eq, Structural)]
pub enum ToolbarButton {
    Color,
    File,
    Navigation,
    Bookmarks,
    Settings,
    Layers,
    Palette,
    /// The key for help.
    Help,
}

/// Which windows are open.
#[derive(Debug, Clone, Copy, PartialEq, Eq, Structural)]
pub struct Windows {
    pub file: bool,
    pub file_tab: FileWindowTab,
    pub navigation: bool,
    pub bookmarks: bool,
    pub settings: bool,
    pub layers: bool,
    pub palette: bool,
}

/// A dialog for files.
#[derive(Debug, Clone, Copy, PartialEq, Eq, Structural)]
pub enum FileDialog {
    New,
    Open,
}

impl Windows {
    /// All windows are closed.
    pub fn new() -> (windows: Self)
        ensures
            windows == (Windows {
                file: false,
                file_tab: FileWindowTab::File,
                navigation: false,
                bookmarks: false,
                settings: false,
                layers: false,
                palette: false,
            }),
    {
        Windows {
            file: false,
            file_tab: FileWindowTab::File,
            navigation: false,
            bookmarks: false,
            settings: false,
            layers: false,
            palette: false,
        }
    }

    /// Opens the window of a button.
    pub fn press(&mut self, button: ToolbarButton)
        ensures
            *final(self) == match button {
                ToolbarButton::Color | ToolbarButton::Palette => Windows {
                    palette: true,
                    ..*old(self)
                },
                ToolbarButton::File => Windows {
                    file: true,
                    file_tab: FileWindowTab::File,
                    ..*old(self)
                },
                ToolbarButton::Help => Windows {
                    file: true,
                    file_tab: FileWindowTab::Help,
                    ..*old(self)
                },
                ToolbarButton::Navigation => Windows { navigation: true, ..*old(self) },
                ToolbarButton::Bookmarks => Windows { bookmarks: true, ..*old(self) },
                ToolbarButton::Settings => Windows { settings: true, ..*old(self) },
                ToolbarButton::Layers => Windows { layers: true, ..*old(self) },
            },
    {
        match button {
            ToolbarButton::Color | ToolbarButton::Palette => {
                self.palette = true;
            },
            ToolbarButton::File => {
                self.file_tab = FileWindowTab::File;
                self.file = true;
            },
            ToolbarButton::Help => {
                self.file_tab = FileWindowTab::Help;
                self.file = true;
            },
            ToolbarButton::Navigation => {
                self.navigation = true;
            },
            ToolbarButton::Bookmarks => {
                self.bookmarks = true;
            },
            ToolbarButton::Settings => {
                self.settings = true;
            },
            ToolbarButton::Layers => {
                self.layers = true;
            },
        }
    }

    /// Ends a frame of the window for files: it stays open unless it was closed
    /// or a dialog is asked for, a new file before an open one.
    pub fn finish_file_window(
        &mut self,
        still_open: bool,
        new_requested: bool,
        open_requested: bool,
    ) -> (dialog: Option<FileDialog>)
        ensures
            dialog == if new_requested {
                Some(FileDialog::New)
            } else if open_requested {
                Some(FileDialog::Open)
            } else {
                None
            },
            *final(self) == (Windows {
                file: still_open && !new_requested && !open_requested,
                ..*old(self)
            }),
    {
        self.file = still_open;
        if new_requested {
            self.file = false;
            Some(FileDialog::New)
        } else if open_requested {
            self.file = false;
            Some(FileDialog::Open)
        } else {
            None
        }
    }
}

/// A digit of a number in base sixteen.
pub open spec fn hex_digit(digit: int) -> char {
    if digit < 10 {
        (48 + digit) as char
    } else {
        (55 + digit) as char
    }
}

fn push_hex(text: &mut String, byte: u8)
    ensures
        final(text)@ == old(text)@.push(hex_digit(byte as int / 16)).push(
            hex_digit(byte as int % 16),
        ),
{
    let high: u8 = byte / 16;
    let low: u8 = byte % 16;
    let first: u8 = if high < 10 {
        48 + high
    } else {
        55 + high
    };
    let second: u8 = if low < 10 {
        48 + low
    } else {
        55 + low
    };
    text.push(first as char);
    text.push(second as char);
}

/// The color as the palette writes it: a number sign and two digits each for
/// red, green and blue.
pub fn color_text(color: &crate::model::Color) -> (text: String)
    ensures
        text@ == seq![
            '#',
            hex_digit(color.r as int / 16),
            hex_digit(color.r as int % 16),
            hex_digit(color.g as int / 16),
            hex_digit(color.g as int % 16),
            hex_digit(color.b as int / 16),
            hex_digit(color.b as int % 16),
        ],
{
    let mut text = String::new();
    text.push('#');
    push_hex(&mut text, color.r);
    push_hex(&mut text, color.g);
    push_hex(&mut text, color.b);
    assert(text@ =~= seq![
        '#',
        hex_digit(color.r as int / 16),
        hex_digit(color.r as int % 16),
        hex_digit(color.g as int / 16),
        hex_digit(color.g as int % 16),
        hex_digit(color.b as int / 16),
        hex_digit(color.b as int % 16),
    ]);
    text
}

/// Where an action or a way of taking objects was clicked more than once, the
/// last click counts, and where none was, nothing is done.
pub proof fn law_the_last_click_counts(
    entries: Seq<MenuEntry>,
    clicked: Seq<bool>,
    count: int,
    place: int,
)
    requires
        0 <= place < count <= entries.len(),
        entries.len() == clicked.len(),
        clicked[place],
        entries[place].enabled,
    ensures
        entries[place].effect is Act && (forall|i: int|
            place < i < count ==> !(#[trigger] clicked[i] && entries[i].enabled
                && entries[i].effect is Act)) ==> clicked_action(entries, clicked, count) == Some(
            entries[place].effect->Act_0,
        ),
        entries[place].effect is SetRectangleMode && (forall|i: int|
            place < i < count ==> !(#[trigger] clicked[i] && entries[i].enabled
                && entries[i].effect is SetRectangleMode)) ==> clicked_rectangle_mode(
            entries,
            clicked,
            count,
        ) == Some(entries[place].effect->SetRectangleMode_0),
    decreases count,
{
    if place < count - 1 {
        law_the_last_click_counts(entries, clicked, count - 1, place);
    }
}

/// Entries that are not clicked, or cannot be, do nothing.
pub proof fn law_only_clicks_count(entries: Seq<MenuEntry>, clicked: Seq<bool>, count: int)
    requires
        0 <= count <= entries.len(),
        entries.len() == clicked.len(),
        forall|i: int| 0 <= i < count ==> !(#[trigger] clicked[i] && entries[i].enabled),
    ensures
        clicked_action(entries, clicked, count) is None,
        clicked_rectangle_mode(entries, clicked, count) is None,
    decreases count,
{
    if count > 0 {
        assert(!(clicked[count - 1] && entries[count - 1].enabled));
        law_only_clicks_count(entries, clicked, count - 1);
    }
}

/// The digits of colors are the decimal ones and then the letters from A on.
pub proof fn law_color_digits_are_in_order(digit: int)
    requires
        0 <= digit < 16,
    ensures
        hex_digit(digit) == "0123456789ABCDEF"@[digit],
{
    reveal_strlit("0123456789ABCDEF");
}

/// What acts on the selection can be chosen only where something is selected, and
/// pasting only where there is something to paste on a layer that can be changed.
pub proof fn law_entries_are_enabled_where_they_can_act(state: SelectionMenuState, i: int)
    requires
        0 <= i < state.commands().len(),
    ensures
        ({
            let entry = state.commands()[i];
            &&& entry.closes
            &&& entry.effect is Act
            &&& match entry.effect->Act_0 {
                SelectionMenuAction::Clipboard(ClipboardCommand::Paste)
                | SelectionMenuAction::Clipboard(ClipboardCommand::PasteInPlace) => entry.enabled
                    ==> state.clipboard_holds_something && state.layer_is_editable,
                SelectionMenuAction::Deselect => entry.enabled ==> state.has_selection
                    || state.has_area,
                _ => entry.enabled ==> state.has_selection,
            }
        }),
{
}

/// Of the ways to select, those are shown as chosen that are in use.
pub proof fn law_current_choices_are_marked(state: SelectionMenuState, i: int)
    requires
        0 <= i < state.choices().len(),
    ensures
        ({
            let entry = state.choices()[i];
            &&& entry.enabled
            &&& !entry.closes
            &&& entry.chosen <==> match entry.effect {
                MenuEffect::Act(SelectionMenuAction::TargetMode(mode)) => mode
                    == state.target_mode,
                MenuEffect::Act(SelectionMenuAction::AreaShape(shape)) => shape
                    == state.area_shape,
                MenuEffect::SetRectangleMode(mode) => mode == state.rectangle_mode,
                _ => false,
            }
        }),
{
}

} // verus!
