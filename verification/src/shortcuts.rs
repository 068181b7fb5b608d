//! Keyboard shortcuts of the editor: which command a key press triggers,
//! given the modifiers held and the state of the editor. The shell reads
//! the keyboard, asks here, and runs the command.

use vstd::prelude::*;
use crate::tools::ZMove;

verus! {

/// Keys that the fixed shortcuts use.
#[derive(Clone, Copy, Debug, PartialEq, Eq, Structural)]
pub enum ShortcutKey {
    Z,
    D,
    C,
    V,
    X,
    N,
    O,
    S,
    E,
    Delete,
    Backspace,
    OpenBracket,
    CloseBracket,
    Num0,
    Plus,
    Equals,
    Minus,
    Enter,
    Escape,
    ArrowLeft,
    ArrowRight,
    ArrowUp,
    ArrowDown,
    /// Any other key.
    Other,
}

/// Modifiers held and editor state that decide what a key does.
#[derive(Clone, Copy, Debug, PartialEq, Eq, Structural)]
pub struct KeyContext {
    /// Command (macOS) or Control held.
    pub command: bool,
    pub shift: bool,
    pub alt: bool,
    /// A text field has the keyboard focus.
    pub typing: bool,
    /// A pen path is being drawn.
    pub pen_active: bool,
    /// Some element is selected.
    pub has_selection: bool,
}

/// What a key press asks the editor to do.
#[derive(Clone, Copy, Debug, PartialEq, Eq, Structural)]
pub enum KeyCommand {
    Undo,
    Redo,
    DuplicateSelection,
    CopyStyle,
    CopySelection,
    PasteStyle,
    Paste,
    CutSelection,
    DeleteSelection,
    NewDocument,
    OpenProject,
    SaveProject,
    Export,
    Reorder(ZMove),
    ResetView,
    ZoomIn,
    ZoomOut,
    CommitPen,
    CancelPen,
    /// Moves the selection by `(dx, dy)` document pixels.
    Nudge(i32, i32),
    /// Grows (`+1`) or shrinks (`-1`) the brush.
    AdjustSize(i32),
}

/// The command of a shortcut with Command/Control held.
pub open spec fn command_shortcut(key: ShortcutKey, c: KeyContext) -> Option<KeyCommand> {
    match key {
        ShortcutKey::Z => Some(if c.shift { KeyCommand::Redo } else { KeyCommand::Undo }),
        ShortcutKey::D => Some(KeyCommand::DuplicateSelection),
        ShortcutKey::C => Some(if c.alt { KeyCommand::CopyStyle } else { KeyCommand::CopySelection }),
        ShortcutKey::V => Some(if c.alt { KeyCommand::PasteStyle } else { KeyCommand::Paste }),
        ShortcutKey::X => Some(KeyCommand::CutSelection),
        ShortcutKey::N => Some(KeyCommand::NewDocument),
        ShortcutKey::O => Some(KeyCommand::OpenProject),
        ShortcutKey::S => Some(KeyCommand::SaveProject),
        ShortcutKey::E => Some(KeyCommand::Export),
        ShortcutKey::CloseBracket => Some(
            KeyCommand::Reorder(if c.shift { ZMove::Front } else { ZMove::Forward }),
        ),
        ShortcutKey::OpenBracket => Some(
            KeyCommand::Reorder(if c.shift { ZMove::Back } else { ZMove::Backward }),
        ),
        ShortcutKey::Num0 => Some(KeyCommand::ResetView),
        ShortcutKey::Plus | ShortcutKey::Equals => Some(KeyCommand::ZoomIn),
        ShortcutKey::Minus => Some(KeyCommand::ZoomOut),
        ShortcutKey::Delete | ShortcutKey::Backspace => if c.typing {
            None
        } else {
            Some(KeyCommand::DeleteSelection)
        },
        _ => None,
    }
}

/// The command of a bare key (no Command/Control), outside text fields.
pub open spec fn plain_shortcut(key: ShortcutKey, c: KeyContext) -> Option<KeyCommand> {
    let step: i32 = if c.shift { 10 } else { 1 };
    match key {
        ShortcutKey::Delete | ShortcutKey::Backspace => Some(KeyCommand::DeleteSelection),
        ShortcutKey::Enter => if c.pen_active { Some(KeyCommand::CommitPen) } else { None },
        ShortcutKey::Escape => if c.pen_active { Some(KeyCommand::CancelPen) } else { None },
        ShortcutKey::ArrowLeft => if c.has_selection { Some(KeyCommand::Nudge((-step) as i32, 0)) } else { None },
        ShortcutKey::ArrowRight => if c.has_selection { Some(KeyCommand::Nudge(step, 0)) } else { None },
        ShortcutKey::ArrowUp => if c.has_selection { Some(KeyCommand::Nudge(0, (-step) as i32)) } else { None },
        ShortcutKey::ArrowDown => if c.has_selection { Some(KeyCommand::Nudge(0, step)) } else { None },
        ShortcutKey::OpenBracket => Some(KeyCommand::AdjustSize((-1) as i32)),
        ShortcutKey::CloseBracket => Some(KeyCommand::AdjustSize(1)),
        _ => None,
    }
}

/// The command a key press triggers: the Command/Control shortcuts when
/// that modifier is held; otherwise the bare keys, which do nothing while a
/// text field has the focus.
pub open spec fn key_command_spec(key: ShortcutKey, c: KeyContext) -> Option<KeyCommand> {
    if c.command {
        command_shortcut(key, c)
    } else if c.typing {
        None
    } else {
        plain_shortcut(key, c)
    }
}

/// While a text field has the focus, only Command/Control shortcuts act,
/// and deleting is left to the text field.
pub proof fn law_typing_keeps_bare_keys(key: ShortcutKey, c: KeyContext)
    requires
        c.typing,
    ensures
        !c.command ==> key_command_spec(key, c) is None,
        key_command_spec(key, c) != Some(KeyCommand::DeleteSelection),
{
}

/// Shift turns each step of the keyboard nudge into ten pixels, in the
/// same direction.
pub proof fn law_shift_nudges_ten_times(key: ShortcutKey, c: KeyContext, dx: i32, dy: i32)
    requires
        key_command_spec(key, KeyContext { shift: false, ..c }) == Some(KeyCommand::Nudge(dx, dy)),
    ensures
        key_command_spec(key, KeyContext { shift: true, ..c }) == Some(
            KeyCommand::Nudge((10 * dx) as i32, (10 * dy) as i32),
        ),
{
}

/// With a selection and no Command/Control or text field, each arrow key
/// nudges the selection toward its own direction (document y grows
/// downward): one pixel, or ten with Shift. Up and Down, Left and Right,
/// are opposite moves.
pub proof fn law_arrows_nudge_their_way(c: KeyContext)
    requires
        !c.command,
        !c.typing,
        c.has_selection,
    ensures
        ({
            let s: i32 = if c.shift { 10 } else { 1 };
            &&& key_command_spec(ShortcutKey::ArrowUp, c) == Some(KeyCommand::Nudge(0, (-s) as i32))
            &&& key_command_spec(ShortcutKey::ArrowDown, c) == Some(KeyCommand::Nudge(0, s))
            &&& key_command_spec(ShortcutKey::ArrowLeft, c) == Some(KeyCommand::Nudge((-s) as i32, 0))
            &&& key_command_spec(ShortcutKey::ArrowRight, c) == Some(KeyCommand::Nudge(s, 0))
        }),
{
}

/// The command triggered by pressing `key` in context `c`, if any.
pub fn key_command(key: ShortcutKey, c: KeyContext) -> (r: Option<KeyCommand>)
    ensures
        r == key_command_spec(key, c),
{
    if c.command {
        match key {
            ShortcutKey::Z => Some(if c.shift { KeyCommand::Redo } else { KeyCommand::Undo }),
            ShortcutKey::D => Some(KeyCommand::DuplicateSelection),
            ShortcutKey::C => Some(if c.alt { KeyCommand::CopyStyle } else { KeyCommand::CopySelection }),
            ShortcutKey::V => Some(if c.alt { KeyCommand::PasteStyle } else { KeyCommand::Paste }),
            ShortcutKey::X => Some(KeyCommand::CutSelection),
            ShortcutKey::N => Some(KeyCommand::NewDocument),
            ShortcutKey::O => Some(KeyCommand::OpenProject),
            ShortcutKey::S => Some(KeyCommand::SaveProject),
            ShortcutKey::E => Some(KeyCommand::Export),
            ShortcutKey::CloseBracket => Some(
                KeyCommand::Reorder(if c.shift { ZMove::Front } else { ZMove::Forward }),
            ),
            ShortcutKey::OpenBracket => Some(
                KeyCommand::Reorder(if c.shift { ZMove::Back } else { ZMove::Backward }),
            ),
            ShortcutKey::Num0 => Some(KeyCommand::ResetView),
            ShortcutKey::Plus | ShortcutKey::Equals => Some(KeyCommand::ZoomIn),
            ShortcutKey::Minus => Some(KeyCommand::ZoomOut),
            ShortcutKey::Delete | ShortcutKey::Backspace => if c.typing {
                None
            } else {
                Some(KeyCommand::DeleteSelection)
            },
            _ => None,
        }
    } else if c.typing {
        None
    } else {
        let step: i32 = if c.shift { 10 } else { 1 };
        match key {
            ShortcutKey::Delete | ShortcutKey::Backspace => Some(KeyCommand::DeleteSelection),
            ShortcutKey::Enter => if c.pen_active { Some(KeyCommand::CommitPen) } else { None },
            ShortcutKey::Escape => if c.pen_active { Some(KeyCommand::CancelPen) } else { None },
            ShortcutKey::ArrowLeft => if c.has_selection { Some(KeyCommand::Nudge(-step, 0)) } else { None },
            ShortcutKey::ArrowRight => if c.has_selection { Some(KeyCommand::Nudge(step, 0)) } else { None },
            ShortcutKey::ArrowUp => if c.has_selection { Some(KeyCommand::Nudge(0, -step)) } else { None },
            ShortcutKey::ArrowDown => if c.has_selection { Some(KeyCommand::Nudge(0, step)) } else { None },
            ShortcutKey::OpenBracket => Some(KeyCommand::AdjustSize(-1)),
            ShortcutKey::CloseBracket => Some(KeyCommand::AdjustSize(1)),
            _ => None,
        }
    }
}

} // verus!
