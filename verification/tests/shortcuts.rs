use quickpaint::shortcuts::{key_command, KeyCommand, KeyContext, ShortcutKey};
use quickpaint::tools::ZMove;

fn ctx() -> KeyContext {
    KeyContext { command: false, shift: false, alt: false, typing: false, pen_active: false, has_selection: false }
}

#[test]
fn command_z_undoes_and_shift_command_z_redoes() {
    let c = KeyContext { command: true, ..ctx() };
    assert_eq!(key_command(ShortcutKey::Z, c), Some(KeyCommand::Undo));
    assert_eq!(key_command(ShortcutKey::Z, KeyContext { shift: true, ..c }), Some(KeyCommand::Redo));
}

#[test]
fn alt_switches_copy_and_paste_to_the_style() {
    let c = KeyContext { command: true, ..ctx() };
    assert_eq!(key_command(ShortcutKey::C, c), Some(KeyCommand::CopySelection));
    assert_eq!(key_command(ShortcutKey::C, KeyContext { alt: true, ..c }), Some(KeyCommand::CopyStyle));
    assert_eq!(key_command(ShortcutKey::V, c), Some(KeyCommand::Paste));
    assert_eq!(key_command(ShortcutKey::V, KeyContext { alt: true, ..c }), Some(KeyCommand::PasteStyle));
}

#[test]
fn brackets_reorder_with_command_and_resize_the_brush_without() {
    let c = KeyContext { command: true, ..ctx() };
    assert_eq!(key_command(ShortcutKey::CloseBracket, c), Some(KeyCommand::Reorder(ZMove::Forward)));
    assert_eq!(key_command(ShortcutKey::CloseBracket, KeyContext { shift: true, ..c }), Some(KeyCommand::Reorder(ZMove::Front)));
    assert_eq!(key_command(ShortcutKey::OpenBracket, KeyContext { shift: true, ..c }), Some(KeyCommand::Reorder(ZMove::Back)));
    assert_eq!(key_command(ShortcutKey::OpenBracket, ctx()), Some(KeyCommand::AdjustSize(-1)));
    assert_eq!(key_command(ShortcutKey::CloseBracket, ctx()), Some(KeyCommand::AdjustSize(1)));
}

#[test]
fn typing_disables_bare_keys_and_delete() {
    let c = KeyContext { typing: true, has_selection: true, pen_active: true, ..ctx() };
    assert_eq!(key_command(ShortcutKey::Delete, c), None);
    assert_eq!(key_command(ShortcutKey::ArrowLeft, c), None);
    assert_eq!(key_command(ShortcutKey::Enter, c), None);
    assert_eq!(key_command(ShortcutKey::Delete, KeyContext { command: true, ..c }), None);
    assert_eq!(key_command(ShortcutKey::S, KeyContext { command: true, ..c }), Some(KeyCommand::SaveProject));
    assert_eq!(key_command(ShortcutKey::Backspace, ctx()), Some(KeyCommand::DeleteSelection));
}

#[test]
fn arrows_nudge_the_selection_by_one_or_ten() {
    let c = KeyContext { has_selection: true, ..ctx() };
    assert_eq!(key_command(ShortcutKey::ArrowLeft, c), Some(KeyCommand::Nudge(-1, 0)));
    assert_eq!(key_command(ShortcutKey::ArrowDown, KeyContext { shift: true, ..c }), Some(KeyCommand::Nudge(0, 10)));
    assert_eq!(key_command(ShortcutKey::ArrowUp, ctx()), None);
}

#[test]
fn enter_and_escape_finish_the_pen_path() {
    let c = KeyContext { pen_active: true, ..ctx() };
    assert_eq!(key_command(ShortcutKey::Enter, c), Some(KeyCommand::CommitPen));
    assert_eq!(key_command(ShortcutKey::Escape, c), Some(KeyCommand::CancelPen));
    assert_eq!(key_command(ShortcutKey::Escape, ctx()), None);
}

#[test]
fn file_and_zoom_shortcuts_need_command() {
    let c = KeyContext { command: true, ..ctx() };
    assert_eq!(key_command(ShortcutKey::N, c), Some(KeyCommand::NewDocument));
    assert_eq!(key_command(ShortcutKey::O, c), Some(KeyCommand::OpenProject));
    assert_eq!(key_command(ShortcutKey::E, c), Some(KeyCommand::Export));
    assert_eq!(key_command(ShortcutKey::Num0, c), Some(KeyCommand::ResetView));
    assert_eq!(key_command(ShortcutKey::Equals, c), Some(KeyCommand::ZoomIn));
    assert_eq!(key_command(ShortcutKey::Minus, c), Some(KeyCommand::ZoomOut));
    assert_eq!(key_command(ShortcutKey::D, c), Some(KeyCommand::DuplicateSelection));
    assert_eq!(key_command(ShortcutKey::X, c), Some(KeyCommand::CutSelection));
    assert_eq!(key_command(ShortcutKey::N, ctx()), None);
    assert_eq!(key_command(ShortcutKey::Other, c), None);
}
