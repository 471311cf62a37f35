//! Keys that choose tools and run commands.

use crate::drawing::PointerTools;
use crate::input::{InputEvent, Modifiers};
use crate::model::ToolKind;
use crate::selection::{
    rectangle_selection_mode_cycle, selection_target_cycle, RectangleSelectionMode,
    SelectionTargetMode,
};
use crate::selection_state::SelectionState;
use vstd::prelude::*;

verus! {

/// A command of the clipboard.
#[derive(Debug, Clone, Copy, PartialEq, Eq, Structural)]
pub enum ClipboardCommand {
    Copy,
    Cut,
    Paste,
    PasteInPlace,
}

/// The command that an event of the clipboard asks for.
pub open spec fn event_command(event: InputEvent, shift: bool) -> Option<ClipboardCommand> {
    match event {
        InputEvent::Copy => Some(ClipboardCommand::Copy),
        InputEvent::Cut => Some(ClipboardCommand::Cut),
        InputEvent::Paste => Some(
            if shift {
                ClipboardCommand::PasteInPlace
            } else {
                ClipboardCommand::Paste
            },
        ),
        _ => None,
    }
}

/// The command of the first event that asks for one.
pub open spec fn first_command(events: Seq<InputEvent>, shift: bool) -> Option<ClipboardCommand>
    decreases events.len(),
{
    if events.len() == 0 {
        None
    } else if event_command(events.first(), shift).is_some() {
        event_command(events.first(), shift)
    } else {
        first_command(events.drop_first(), shift)
    }
}

/// The command of the clipboard that the events ask for.
pub fn clipboard_command_from_events(events: &Vec<InputEvent>, modifiers: &Modifiers) -> (command:
    Option<ClipboardCommand>)
    ensures
        command == first_command(events@, modifiers.shift),
{
    let mut i: usize = 0;
    assert(events@.skip(0) =~= events@);
    while i < events.len()
        invariant
            i <= events.len(),
            first_command(events@, modifiers.shift) == first_command(
                events@.skip(i as int),
                modifiers.shift,
            ),
        decreases events.len() - i,
    {
        assert(events@.skip(i as int).drop_first() =~= events@.skip(i + 1));
        match events[i] {
            InputEvent::Copy => {
                return Some(ClipboardCommand::Copy);
            },
            InputEvent::Cut => {
                return Some(ClipboardCommand::Cut);
            },
            InputEvent::Paste => {
                return Some(
                    if modifiers.shift {
                        ClipboardCommand::PasteInPlace
                    } else {
                        ClipboardCommand::Paste
                    },
                );
            },
            _ => {},
        }
        i = i + 1;
    }
    None
}

/// Whether a key is down, by the state that the system reports of it: the
/// highest bit of the state tells.
pub fn native_key_down(key_state: i16) -> (down: bool)
    ensures
        down == (key_state < 0),
{
    key_state < 0
}

/// The states that the system reports of the keys of the clipboard's
/// shortcuts.
#[derive(Debug, Clone, Copy, PartialEq, Eq, Structural)]
pub struct NativeKeyStates {
    pub control: i16,
    pub shift: i16,
    pub copy: i16,
    pub cut: i16,
    pub paste: i16,
}

/// Which keys of the clipboard's shortcuts were down a frame ago.
#[derive(Debug, Clone, Copy, PartialEq, Eq, Structural)]
pub struct ClipboardShortcutKeys {
    pub copy_down: bool,
    pub cut_down: bool,
    pub paste_down: bool,
}

impl Default for ClipboardShortcutKeys {
    /// No key is down.
    fn default() -> (keys: Self)
        ensures
            keys == (ClipboardShortcutKeys { copy_down: false, cut_down: false, paste_down: false }),
    {
        ClipboardShortcutKeys { copy_down: false, cut_down: false, paste_down: false }
    }
}

impl ClipboardShortcutKeys {
    /// The command of a key that was not down a frame ago and now is, with the
    /// control key: pasting before cutting before copying.
    pub open spec fn pressed_command(
        self,
        ctrl: bool,
        shift: bool,
        copy_down: bool,
        cut_down: bool,
        paste_down: bool,
    ) -> Option<ClipboardCommand> {
        if ctrl && paste_down && !self.paste_down {
            Some(
                if shift {
                    ClipboardCommand::PasteInPlace
                } else {
                    ClipboardCommand::Paste
                },
            )
        } else if ctrl && cut_down && !self.cut_down {
            Some(ClipboardCommand::Cut)
        } else if ctrl && copy_down && !self.copy_down {
            Some(ClipboardCommand::Copy)
        } else {
            None
        }
    }

    /// Takes note of the keys, and returns the command that they ask for.
    pub fn update(
        &mut self,
        ctrl: bool,
        shift: bool,
        copy_down: bool,
        cut_down: bool,
        paste_down: bool,
    ) -> (command: Option<ClipboardCommand>)
        ensures
            command == old(self).pressed_command(ctrl, shift, copy_down, cut_down, paste_down),
            *final(self) == (ClipboardShortcutKeys { copy_down, cut_down, paste_down }),
    {
        let command: Option<ClipboardCommand> = if ctrl && paste_down && !self.paste_down {
            Some(
                if shift {
                    ClipboardCommand::PasteInPlace
                } else {
                    ClipboardCommand::Paste
                },
            )
        } else if ctrl && cut_down && !self.cut_down {
            Some(ClipboardCommand::Cut)
        } else if ctrl && copy_down && !self.copy_down {
            Some(ClipboardCommand::Copy)
        } else {
            None
        };
        self.copy_down = copy_down;
        self.cut_down = cut_down;
        self.paste_down = paste_down;
        command
    }

    /// Takes note of the keys as the system reports them.
    pub fn poll(&mut self, states: &NativeKeyStates) -> (command: Option<ClipboardCommand>)
        ensures
            command == old(self).pressed_command(
                states.control < 0,
                states.shift < 0,
                states.copy < 0,
                states.cut < 0,
                states.paste < 0,
            ),
            *final(self) == (ClipboardShortcutKeys {
                copy_down: states.copy < 0,
                cut_down: states.cut < 0,
                paste_down: states.paste < 0,
            }),
    {
        let ctrl: bool = native_key_down(states.control);
        let shift: bool = native_key_down(states.shift);
        self.update(
            ctrl,
            shift,
            native_key_down(states.copy),
            native_key_down(states.cut),
            native_key_down(states.paste),
        )
    }
}

/// Keys that stay as they are ask for a command only once.
pub proof fn law_held_keys_ask_once(
    keys: ClipboardShortcutKeys,
    ctrl: bool,
    shift: bool,
    copy_down: bool,
    cut_down: bool,
    paste_down: bool,
)
    ensures
        (ClipboardShortcutKeys { copy_down, cut_down, paste_down }).pressed_command(
            ctrl,
            shift,
            copy_down,
            cut_down,
            paste_down,
        ).is_none(),
{
}

/// The command to run: none while a text is edited, and else that of the
/// events before that of the keys.
pub fn clipboard_command(
    text_focused: bool,
    from_events: Option<ClipboardCommand>,
    from_keys: Option<ClipboardCommand>,
) -> (command: Option<ClipboardCommand>)
    ensures
        command == if text_focused {
            None
        } else if from_events.is_some() {
            from_events
        } else {
            from_keys
        },
{
    if text_focused {
        None
    } else if from_events.is_some() {
        from_events
    } else {
        from_keys
    }
}

/// Whether the modifiers leave a key to the tools.
pub fn tool_shortcut_allowed(modifiers: &Modifiers) -> (allowed: bool)
    ensures
        allowed == (!modifiers.ctrl && !modifiers.command && !modifiers.alt && !modifiers.mac_cmd),
{
    !modifiers.ctrl && !modifiers.command && !modifiers.alt && !modifiers.mac_cmd
}

/// A key with its modifiers.
#[derive(Debug, Clone, Copy, PartialEq, Eq, Structural)]
pub struct KeyShortcut {
    pub ctrl: bool,
    pub shift: bool,
    pub key: char,
}

/// The shortcuts that redo, in the order in which they are tried.
pub fn redo_shortcuts() -> (shortcuts: [KeyShortcut; 2])
    ensures
        shortcuts@ == seq![
            KeyShortcut { ctrl: true, shift: true, key: 'Z' },
            KeyShortcut { ctrl: true, shift: false, key: 'Y' },
        ],
{
    let shortcuts: [KeyShortcut; 2] = [
        KeyShortcut { ctrl: true, shift: true, key: 'Z' },
        KeyShortcut { ctrl: true, shift: false, key: 'Y' },
    ];
    assert(shortcuts@ =~= seq![
        KeyShortcut { ctrl: true, shift: true, key: 'Z' },
        KeyShortcut { ctrl: true, shift: false, key: 'Y' },
    ]);
    shortcuts
}

/// The tool to which the key for areas switches.
pub open spec fn area_cycle(current: ToolKind) -> ToolKind {
    if current == ToolKind::LassoFill {
        ToolKind::EraserLasso
    } else {
        ToolKind::LassoFill
    }
}

/// The tool to which the key for areas switches.
pub fn area_cycle_tool(current: ToolKind) -> (next: ToolKind)
    ensures
        next == area_cycle(current),
{
    match current {
        ToolKind::LassoFill => ToolKind::EraserLasso,
        ToolKind::EraserLasso => ToolKind::LassoFill,
        ToolKind::Brush | ToolKind::Eraser | ToolKind::Eyedropper | ToolKind::Selection => {
            ToolKind::LassoFill
        },
    }
}

/// Which of the keys for tools were pressed.
#[derive(Debug, Clone, Copy, PartialEq, Eq, Structural)]
pub struct ToolKeys {
    pub b: bool,
    pub e: bool,
    pub l: bool,
    pub i: bool,
    pub q: bool,
    pub s: bool,
    pub x: bool,
}

/// What a key does to the tools.
#[derive(Debug, Clone, Copy, PartialEq, Eq, Structural)]
pub enum ToolShortcut {
    Nothing,
    Take(ToolKind),
    /// The selection tool targets the other kind of thing.
    SwitchTarget,
    /// The selection rectangle takes objects in the other way.
    SwitchRectangle,
}

/// What the keys do to the tools: the first that was pressed counts. A key of
/// the selection tool takes it in hand, or switches its mode where it is.
pub open spec fn tool_shortcut(
    keys: ToolKeys,
    tool: ToolKind,
    target: SelectionTargetMode,
) -> ToolShortcut {
    if keys.b {
        ToolShortcut::Take(ToolKind::Brush)
    } else if keys.e {
        ToolShortcut::Take(ToolKind::Eraser)
    } else if keys.l {
        ToolShortcut::Take(ToolKind::LassoFill)
    } else if keys.i {
        ToolShortcut::Take(ToolKind::Eyedropper)
    } else if keys.q {
        if tool == ToolKind::Selection {
            ToolShortcut::SwitchTarget
        } else {
            ToolShortcut::Take(ToolKind::Selection)
        }
    } else if keys.s {
        if tool == ToolKind::Selection && target == SelectionTargetMode::Object {
            ToolShortcut::SwitchRectangle
        } else {
            ToolShortcut::Take(ToolKind::Selection)
        }
    } else if keys.x {
        ToolShortcut::Take(area_cycle(tool))
    } else {
        ToolShortcut::Nothing
    }
}

/// The other target.
pub open spec fn other_target(target: SelectionTargetMode) -> SelectionTargetMode {
    match target {
        SelectionTargetMode::Object => SelectionTargetMode::Area,
        SelectionTargetMode::Area => SelectionTargetMode::Object,
    }
}

/// The other way of taking objects.
pub open spec fn other_rectangle(mode: RectangleSelectionMode) -> RectangleSelectionMode {
    match mode {
        RectangleSelectionMode::Inside => RectangleSelectionMode::Crossing,
        RectangleSelectionMode::Crossing => RectangleSelectionMode::Inside,
    }
}

/// A key pressed twice comes back: to the target, to the way of taking objects,
/// and to the tool for areas that it started from.
pub proof fn law_keys_pressed_twice_come_back(
    target: SelectionTargetMode,
    mode: RectangleSelectionMode,
    tool: ToolKind,
)
    ensures
        other_target(other_target(target)) == target,
        other_rectangle(other_rectangle(mode)) == mode,
        area_cycle(area_cycle(area_cycle(tool))) == area_cycle(tool),
{
}

/// Lets the pressed keys choose tools and modes, unless a text is edited or the
/// modifiers make them something else. Returns the message to show, if any.
pub fn apply_tool_keys(
    tools: &mut PointerTools,
    selection: &mut SelectionState,
    keys: &ToolKeys,
    text_focused: bool,
    modifiers: &Modifiers,
) -> (message: Option<&'static str>)
    requires
        old(selection).wf(),
    ensures
        final(selection).wf(),
        ({
            let allowed = !text_focused && !modifiers.ctrl && !modifiers.command && !modifiers.alt
                && !modifiers.mac_cmd;
            let shortcut = if allowed {
                tool_shortcut(*keys, old(tools).tool, old(selection).target_mode)
            } else {
                ToolShortcut::Nothing
            };
            &&& *final(tools) == match shortcut {
                ToolShortcut::Take(tool) => PointerTools { tool, ..*old(tools) },
                _ => *old(tools),
            }
            &&& shortcut is Nothing || shortcut is Take ==> *final(selection) == *old(selection)
                && message.is_none()
            &&& shortcut == ToolShortcut::SwitchRectangle ==> *final(selection) == (
            SelectionState {
                rectangle_mode: other_rectangle(old(selection).rectangle_mode),
                ..*old(selection)
            }) && message.is_none()
            &&& shortcut == ToolShortcut::SwitchTarget ==> {
                &&& final(selection).target_mode == other_target(old(selection).target_mode)
                &&& final(selection).rectangle_mode == old(selection).rectangle_mode
                &&& final(selection).area_shape == old(selection).area_shape
                &&& final(selection).same_eraser(*old(selection))
                &&& message.is_some()
                &&& match old(selection).target_mode {
                    SelectionTargetMode::Area => {
                        &&& final(selection).area_cleared()
                        &&& final(selection).same_objects(*old(selection))
                        &&& message.unwrap()@ == "Object selection"@
                    },
                    SelectionTargetMode::Object => {
                        &&& final(selection).objects_cleared()
                        &&& final(selection).same_area(*old(selection))
                        &&& message.unwrap()@ == "Area selection"@
                    },
                }
            }
        }),
{
    if text_focused || !tool_shortcut_allowed(modifiers) {
        return None;
    }
    if keys.b {
        tools.tool = ToolKind::Brush;
    } else if keys.e {
        tools.tool = ToolKind::Eraser;
    } else if keys.l {
        tools.tool = ToolKind::LassoFill;
    } else if keys.i {
        tools.tool = ToolKind::Eyedropper;
    } else if keys.q {
        if tools.tool == ToolKind::Selection {
            return selection.set_selection_target_mode(
                selection_target_cycle(selection.target_mode),
            );
        }
        tools.tool = ToolKind::Selection;
    } else if keys.s {
        if tools.tool == ToolKind::Selection && selection.target_mode
            == SelectionTargetMode::Object {
            selection.rectangle_mode = rectangle_selection_mode_cycle(selection.rectangle_mode);
            return None;
        }
        tools.tool = ToolKind::Selection;
    } else if keys.x {
        tools.tool = area_cycle_tool(tools.tool);
    }
    None
}

/// The keys that were pressed in a frame, beside those for tools.
#[derive(Debug, Clone, Copy)]
pub struct ShortcutInput {
    pub text_focused: bool,
    pub help: bool,
    pub mark: bool,
    pub logging: bool,
    pub clipboard: Option<ClipboardCommand>,
    pub escape: bool,
    pub delete: bool,
    pub undo: bool,
    pub redo: bool,
}

/// Something that a pressed key asks for.
#[derive(Debug, Clone, Copy, PartialEq, Eq, Structural)]
pub enum ShortcutAction {
    ShowHelp,
    /// Tell that nothing is logged.
    TellLoggingOff,
    MarkLog,
    Clipboard(ClipboardCommand),
    /// Let the keys for tools choose.
    ChooseTool,
    /// Give up a transform, or deselect all.
    Cancel,
    /// Delete what is selected, if anything is.
    Delete,
    Undo,
    Redo,
}

/// One action where it is wanted.
pub open spec fn if_wanted(wanted: bool, action: ShortcutAction) -> Seq<ShortcutAction> {
    if wanted {
        seq![action]
    } else {
        seq![]
    }
}

impl ShortcutInput {
    /// What the keys ask for, in the order in which it is done.
    pub open spec fn wanted(self) -> Seq<ShortcutAction> {
        let free = !self.text_focused;
        let shown = seq![] + if_wanted(free && self.help, ShortcutAction::ShowHelp);
        let told = shown + if_wanted(
            free && self.mark && !self.logging,
            ShortcutAction::TellLoggingOff,
        );
        let marked = told + if_wanted(free && self.mark && self.logging, ShortcutAction::MarkLog);
        let copied = match self.clipboard {
            Some(command) => marked + if_wanted(free, ShortcutAction::Clipboard(command)),
            None => marked,
        };
        let chosen = copied + if_wanted(free, ShortcutAction::ChooseTool);
        let cancelled = chosen + if_wanted(self.escape, ShortcutAction::Cancel);
        let deleted = cancelled + if_wanted(self.delete, ShortcutAction::Delete);
        deleted + if_wanted(self.undo, ShortcutAction::Undo) + if_wanted(
            self.redo,
            ShortcutAction::Redo,
        )
    }

    /// What the keys ask for, in the order in which it is done. While a text is
    /// edited only those to cancel, delete, undo and redo count.
    pub fn actions(&self) -> (actions: Vec<ShortcutAction>)
        ensures
            actions@ == self.wanted(),
    {
        let free: bool = !self.text_focused;
        let mut actions: Vec<ShortcutAction> = Vec::new();
        push_if(&mut actions, free && self.help, ShortcutAction::ShowHelp);
        push_if(&mut actions, free && self.mark && !self.logging, ShortcutAction::TellLoggingOff);
        push_if(&mut actions, free && self.mark && self.logging, ShortcutAction::MarkLog);
        if let Some(command) = self.clipboard {
            push_if(&mut actions, free, ShortcutAction::Clipboard(command));
        }
        push_if(&mut actions, free, ShortcutAction::ChooseTool);
        push_if(&mut actions, self.escape, ShortcutAction::Cancel);
        push_if(&mut actions, self.delete, ShortcutAction::Delete);
        push_if(&mut actions, self.undo, ShortcutAction::Undo);
        push_if(&mut actions, self.redo, ShortcutAction::Redo);
        actions
    }
}

fn push_if(actions: &mut Vec<ShortcutAction>, wanted: bool, action: ShortcutAction)
    ensures
        final(actions)@ == old(actions)@ + if_wanted(wanted, action),
{
    let ghost before = actions@;
    if wanted {
        actions.push(action);
    }
    assert(actions@ =~= before + if_wanted(wanted, action));
}

/// While a text is edited, no key shows help, marks the log, uses the clipboard
/// or chooses a tool.
pub proof fn law_editing_text_keeps_keys_to_itself(input: ShortcutInput, i: int)
    requires
        input.text_focused,
        0 <= i < input.wanted().len(),
    ensures
        input.wanted()[i] == ShortcutAction::Cancel || input.wanted()[i] == ShortcutAction::Delete
            || input.wanted()[i] == ShortcutAction::Undo || input.wanted()[i]
            == ShortcutAction::Redo,
{
}

proof fn lemma_wanted_later(before: Seq<ShortcutAction>, wanted: bool, held: ShortcutAction)
    ensures
        wanted ==> (before + if_wanted(wanted, held)).contains(held),
        forall|action: ShortcutAction| #[trigger]
            (before + if_wanted(wanted, held)).contains(action) <==> before.contains(action) || (
            wanted && action == held),
{
    let after = before + if_wanted(wanted, held);
    if wanted {
        assert(after[before.len() as int] == held);
    }
    assert forall|action: ShortcutAction| #[trigger] after.contains(action) <==> before.contains(
        action,
    ) || (wanted && action == held) by {
        if before.contains(action) {
            let i = choose|i: int| 0 <= i < before.len() && before[i] == action;
            assert(after[i] == action);
        }
        if after.contains(action) {
            let i = choose|i: int| 0 <= i < after.len() && after[i] == action;
            if i < before.len() {
                assert(before[i] == action);
            }
        }
    }
}

/// Every key that is pressed does its work: those for editing always, the others
/// unless a text is edited.
pub proof fn law_every_key_does_its_work(input: ShortcutInput)
    ensures
        ({
            let actions = input.wanted();
            let free = !input.text_focused;
            &&& actions.contains(ShortcutAction::ShowHelp) <==> free && input.help
            &&& actions.contains(ShortcutAction::MarkLog) <==> free && input.mark && input.logging
            &&& actions.contains(ShortcutAction::TellLoggingOff) <==> free && input.mark
                && !input.logging
            &&& actions.contains(ShortcutAction::ChooseTool) <==> free
            &&& actions.contains(ShortcutAction::Cancel) <==> input.escape
            &&& actions.contains(ShortcutAction::Delete) <==> input.delete
            &&& actions.contains(ShortcutAction::Undo) <==> input.undo
            &&& actions.contains(ShortcutAction::Redo) <==> input.redo
            &&& forall|command: ClipboardCommand| #[trigger]
                actions.contains(ShortcutAction::Clipboard(command)) <==> free && input.clipboard
                    == Some(command)
        }),
{
    let free = !input.text_focused;
    let none = Seq::<ShortcutAction>::empty();
    lemma_wanted_later(none, free && input.help, ShortcutAction::ShowHelp);
    let shown = none + if_wanted(free && input.help, ShortcutAction::ShowHelp);
    let silent = free && input.mark && !input.logging;
    lemma_wanted_later(shown, silent, ShortcutAction::TellLoggingOff);
    let told = shown + if_wanted(silent, ShortcutAction::TellLoggingOff);
    let logged = free && input.mark && input.logging;
    lemma_wanted_later(told, logged, ShortcutAction::MarkLog);
    let marked = told + if_wanted(logged, ShortcutAction::MarkLog);
    let copied = match input.clipboard {
        Some(command) => {
            lemma_wanted_later(marked, free, ShortcutAction::Clipboard(command));
            marked + if_wanted(free, ShortcutAction::Clipboard(command))
        },
        None => marked,
    };
    lemma_wanted_later(copied, free, ShortcutAction::ChooseTool);
    let chosen = copied + if_wanted(free, ShortcutAction::ChooseTool);
    lemma_wanted_later(chosen, input.escape, ShortcutAction::Cancel);
    let cancelled = chosen + if_wanted(input.escape, ShortcutAction::Cancel);
    lemma_wanted_later(cancelled, input.delete, ShortcutAction::Delete);
    let deleted = cancelled + if_wanted(input.delete, ShortcutAction::Delete);
    lemma_wanted_later(deleted, input.undo, ShortcutAction::Undo);
    let undone = deleted + if_wanted(input.undo, ShortcutAction::Undo);
    lemma_wanted_later(undone, input.redo, ShortcutAction::Redo);
    assert(input.wanted() =~= undone + if_wanted(input.redo, ShortcutAction::Redo));
}

/// Of the events that ask for the clipboard, the first one is followed.
pub proof fn law_the_first_request_is_followed(
    events: Seq<InputEvent>,
    shift: bool,
    place: int,
)
    requires
        0 <= place < events.len(),
        event_command(events[place], shift) is Some,
        forall|i: int| 0 <= i < place ==> event_command(#[trigger] events[i], shift) is None,
    ensures
        first_command(events, shift) == event_command(events[place], shift),
    decreases events.len(),
{
    if place > 0 {
        let rest = events.drop_first();
        assert(event_command(events[0], shift) is None);
        assert forall|i: int| 0 <= i < place - 1 implies event_command(
            #[trigger] rest[i],
            shift,
        ) is None by {
            assert(rest[i] == events[i + 1]);
        }
        law_the_first_request_is_followed(rest, shift, place - 1);
    }
}

/// A key that is pressed alone takes its tool, or switches what its tool does
/// where that is in use; without a key nothing happens.
pub proof fn law_each_key_takes_its_tool(tool: ToolKind, target: SelectionTargetMode)
    ensures
        ({
            let none = ToolKeys {
                b: false,
                e: false,
                l: false,
                i: false,
                q: false,
                s: false,
                x: false,
            };
            let brush = ToolKeys { b: true, ..none };
            let eraser = ToolKeys { e: true, ..none };
            let lasso = ToolKeys { l: true, ..none };
            let eyedropper = ToolKeys { i: true, ..none };
            let pick = ToolKeys { q: true, ..none };
            let select = ToolKeys { s: true, ..none };
            let cycle = ToolKeys { x: true, ..none };
            &&& tool_shortcut(none, tool, target) == ToolShortcut::Nothing
            &&& tool_shortcut(brush, tool, target) == ToolShortcut::Take(ToolKind::Brush)
            &&& tool_shortcut(eraser, tool, target) == ToolShortcut::Take(ToolKind::Eraser)
            &&& tool_shortcut(lasso, tool, target) == ToolShortcut::Take(ToolKind::LassoFill)
            &&& tool_shortcut(eyedropper, tool, target) == ToolShortcut::Take(ToolKind::Eyedropper)
            &&& tool != ToolKind::Selection ==> tool_shortcut(pick, tool, target)
                == ToolShortcut::Take(ToolKind::Selection) && tool_shortcut(select, tool, target)
                == ToolShortcut::Take(ToolKind::Selection)
            &&& tool == ToolKind::Selection ==> tool_shortcut(pick, tool, target)
                == ToolShortcut::SwitchTarget
            &&& tool == ToolKind::Selection && target == SelectionTargetMode::Object
                ==> tool_shortcut(select, tool, target) == ToolShortcut::SwitchRectangle
            &&& tool_shortcut(cycle, tool, target) is Take
            &&& tool_shortcut(cycle, tool, target)->Take_0 != tool
        }),
{
}

} // verus!
