//! Command-based, non-linear undo history. Each command stores the state it
//! replaces and the state it installs; the history keeps every command with
//! a cursor, so any recorded state can be reached again (history panel).

use vstd::prelude::*;
use crate::document::{copy_layers, layers_view, stack_ok, DocView, Document, Layer, LayerView};

verus! {

/// A recorded edit.
#[allow(inconsistent_fields)]
pub enum Command {
    /// Replaces the layer stack and the active layer.
    SetLayers {
        before: Vec<Layer>,
        before_active: usize,
        after: Vec<Layer>,
        after_active: usize,
        label: &'static str,
    },
    /// Replaces the whole document (resize, frames, flips...).
    SetDoc { before: Document, after: Document, label: &'static str },
}

/// Value of a command.
#[allow(inconsistent_fields)]
pub enum CommandView {
    SetLayers {
        before: Seq<LayerView>,
        before_active: int,
        after: Seq<LayerView>,
        after_active: int,
    },
    SetDoc { before: DocView, after: DocView },
}

impl View for Command {
    type V = CommandView;

    open spec fn view(&self) -> CommandView {
        match self {
            Command::SetLayers { before, before_active, after, after_active, .. } => {
                CommandView::SetLayers {
                    before: layers_view(before@),
                    before_active: *before_active as int,
                    after: layers_view(after@),
                    after_active: *after_active as int,
                }
            },
            Command::SetDoc { before, after, label } => CommandView::SetDoc {
                before: before@,
                after: after@,
            },
        }
    }
}

impl CommandView {
    /// Both states that the command stores are usable.
    pub open spec fn wf(self) -> bool {
        match self {
            CommandView::SetLayers { before, before_active, after, after_active } => {
                stack_ok(before, before_active) && stack_ok(after, after_active)
            },
            CommandView::SetDoc { before, after } => before.wf() && after.wf(),
        }
    }

    /// The command was built from `d`: the state it replaces is `d`'s.
    pub open spec fn fits(self, d: DocView) -> bool {
        match self {
            CommandView::SetLayers { before, before_active, after, after_active } => {
                before == d.layers && before_active == d.active_layer
            },
            CommandView::SetDoc { before, after } => before == d,
        }
    }

    /// Document after performing the command on `d`.
    pub open spec fn apply(self, d: DocView) -> DocView {
        match self {
            CommandView::SetLayers { before, before_active, after, after_active } => DocView {
                layers: after,
                active_layer: after_active,
                ..d
            },
            CommandView::SetDoc { before, after } => after,
        }
    }

    /// Document after taking the command back on `d`.
    pub open spec fn revert(self, d: DocView) -> DocView {
        match self {
            CommandView::SetLayers { before, before_active, after, after_active } => DocView {
                layers: before,
                active_layer: before_active,
                ..d
            },
            CommandView::SetDoc { before, after } => before,
        }
    }
}

/// Undoing a command right after performing it gives back the document it
/// was built from; redoing it then gives the edited document again.
pub proof fn law_undo_after_do(d: DocView, c: CommandView)
    requires
        c.fits(d),
    ensures
        c.revert(c.apply(d)) == d,
        c.apply(c.revert(c.apply(d))) == c.apply(d),
{
}

/// Performing and taking back a well-formed command keeps a document
/// well-formed.
pub proof fn law_commands_keep_wf(d: DocView, c: CommandView)
    requires
        d.wf(),
        c.wf(),
    ensures
        c.apply(d).wf(),
        c.revert(d).wf(),
{
}

/// Value of the history: the recorded commands and how many of them are
/// currently applied.
pub struct HistoryView {
    pub commands: Seq<CommandView>,
    pub cursor: int,
}

/// The undo history.
pub struct History {
    commands: Vec<Command>,
    cursor: usize,
}

/// Values of a sequence of commands.
pub open spec fn commands_view(v: Seq<Command>) -> Seq<CommandView> {
    v.map_values(|c: Command| c@)
}

impl View for History {
    type V = HistoryView;

    closed spec fn view(&self) -> HistoryView {
        HistoryView { commands: commands_view(self.commands@), cursor: self.cursor as int }
    }
}

impl HistoryView {
    /// The cursor is in range and every command is well-formed.
    pub open spec fn wf(self) -> bool {
        &&& 0 <= self.cursor <= self.commands.len()
        &&& forall|i: int| 0 <= i < self.commands.len() ==> #[trigger] self.commands[i].wf()
    }

    /// History after recording `c` at the cursor: the redo branch is
    /// dropped.
    pub open spec fn record(self, c: CommandView) -> HistoryView {
        HistoryView { commands: self.commands.take(self.cursor).push(c), cursor: self.cursor + 1 }
    }

    /// Document reached from `d` by taking back the commands between `to`
    /// and `from` (`to <= from`), most recent first.
    pub open spec fn undo_span(self, d: DocView, from: int, to: int) -> DocView
        decreases from - to,
    {
        if from <= to {
            d
        } else {
            self.undo_span(self.commands[from - 1].revert(d), from - 1, to)
        }
    }

    /// Document reached from `d` by performing again the commands between
    /// `from` and `to` (`from <= to`), oldest first.
    pub open spec fn redo_span(self, d: DocView, from: int, to: int) -> DocView
        decreases to - from,
    {
        if to <= from {
            d
        } else {
            self.redo_span(self.commands[from].apply(d), from + 1, to)
        }
    }
}

proof fn lemma_undo_span_same_commands(h1: HistoryView, h2: HistoryView, d: DocView, from: int, to: int)
    requires
        to <= from,
        from <= h1.commands.len(),
        from <= h2.commands.len(),
        forall|i: int| to <= i < from ==> h1.commands[i] == h2.commands[i],
    ensures
        h1.undo_span(d, from, to) == h2.undo_span(d, from, to),
    decreases from - to,
{
    if from > to {
        assert(h1.commands[from - 1] == h2.commands[from - 1]);
        lemma_undo_span_same_commands(h1, h2, h1.commands[from - 1].revert(d), from - 1, to);
    }
}

/// Recording an edit built from `d` and then undoing back to an older
/// point `to` of the history reaches the same document as undoing back to
/// `to` from `d` before the edit.
pub proof fn law_record_then_undo(h: HistoryView, c: CommandView, d: DocView, to: int)
    requires
        h.wf(),
        c.fits(d),
        0 <= to <= h.cursor,
    ensures
        h.record(c).undo_span(c.apply(d), h.cursor + 1, to) == h.undo_span(d, h.cursor, to),
{
    let h1 = h.record(c);
    assert(h1.commands[h.cursor] == c);
    law_undo_after_do(d, c);
    assert(h1.undo_span(c.apply(d), h.cursor + 1, to) == h1.undo_span(d, h.cursor, to));
    lemma_undo_span_same_commands(h1, h, d, h.cursor, to);
}

proof fn lemma_undo_span_wf(h: HistoryView, d: DocView, from: int, to: int)
    requires
        h.wf(),
        d.wf(),
        0 <= to <= from <= h.commands.len(),
    ensures
        h.undo_span(d, from, to).wf(),
    decreases from - to,
{
    if from > to {
        assert(h.commands[from - 1].wf());
        law_commands_keep_wf(d, h.commands[from - 1]);
        lemma_undo_span_wf(h, h.commands[from - 1].revert(d), from - 1, to);
    }
}

proof fn lemma_redo_span_wf(h: HistoryView, d: DocView, from: int, to: int)
    requires
        h.wf(),
        d.wf(),
        0 <= from <= to <= h.commands.len(),
    ensures
        h.redo_span(d, from, to).wf(),
    decreases to - from,
{
    if to > from {
        assert(h.commands[from].wf());
        law_commands_keep_wf(d, h.commands[from]);
        lemma_redo_span_wf(h, h.commands[from].apply(d), from + 1, to);
    }
}

impl Command {
    /// Performs the command on `doc`.
    fn apply_to(&self, doc: &mut Document)
        ensures
            final(doc)@ == self@.apply(old(doc)@),
    {
        match self {
            Command::SetLayers { before, before_active, after, after_active, .. } => {
                doc.layers = copy_layers(after);
                doc.active_layer = *after_active;
            },
            Command::SetDoc { before, after, label } => {
                *doc = after.copy();
            },
        }
    }

    /// Takes the command back on `doc`.
    fn revert_on(&self, doc: &mut Document)
        ensures
            final(doc)@ == self@.revert(old(doc)@),
    {
        match self {
            Command::SetLayers { before, before_active, after, after_active, .. } => {
                doc.layers = copy_layers(before);
                doc.active_layer = *before_active;
            },
            Command::SetDoc { before, after, label } => {
                *doc = before.copy();
            },
        }
    }

    /// Short description of the command for the history panel: the label
    /// it was recorded with.
    pub open spec fn label_of(&self) -> &'static str {
        match self {
            Command::SetLayers { label, .. } => *label,
            Command::SetDoc { label, .. } => *label,
        }
    }

    /// Short description of the command for the history panel.
    pub fn label(&self) -> (r: &'static str)
        ensures
            r == self.label_of(),
    {
        match self {
            Command::SetLayers { label, .. } => label,
            Command::SetDoc { label, .. } => label,
        }
    }
}

impl History {
    /// Labels of the recorded commands, oldest first.
    pub closed spec fn labels(&self) -> Seq<&'static str> {
        self.commands@.map_values(|c: Command| c.label_of())
    }

    /// There is one label per recorded command.
    pub proof fn lemma_labels_len(&self)
        ensures
            self.labels().len() == self@.commands.len(),
    {
    }

    /// An empty history.
    pub fn new() -> (r: History)
        ensures
            r@.commands.len() == 0,
            r@.cursor == 0,
            r@.wf(),
            r.labels().len() == 0,
    {
        let r = History { commands: Vec::new(), cursor: 0 };
        assert(r@.commands =~= Seq::<CommandView>::empty());
        r
    }

    /// Number of recorded commands.
    pub fn len(&self) -> (r: usize)
        ensures
            r == self@.commands.len(),
    {
        self.commands.len()
    }

    /// Number of commands currently applied.
    pub fn cursor(&self) -> (r: usize)
        ensures
            r == self@.cursor,
    {
        self.cursor
    }

    /// Is there a command to undo?
    pub fn can_undo(&self) -> (r: bool)
        ensures
            r == (self@.cursor > 0),
    {
        self.cursor > 0
    }

    /// Is there a command to redo?
    pub fn can_redo(&self) -> (r: bool)
        requires
            self@.wf(),
        ensures
            r == (self@.cursor < self@.commands.len()),
    {
        self.cursor < self.commands.len()
    }

    /// Label of the `i`-th recorded command.
    pub fn label_at(&self, i: usize) -> (r: &'static str)
        requires
            i < self@.commands.len(),
        ensures
            r == self.labels()[i as int],
    {
        self.commands[i].label()
    }

    /// Performs `cmd` on `doc` and records it at the cursor, dropping the
    /// commands that could have been redone.
    pub fn push(&mut self, doc: &mut Document, cmd: Command)
        requires
            old(self)@.wf(),
            cmd@.wf(),
        ensures
            final(self)@ == old(self)@.record(cmd@),
            final(self)@.wf(),
            final(doc)@ == cmd@.apply(old(doc)@),
            final(self).labels() == old(self).labels().take(old(self)@.cursor).push(cmd.label_of()),
    {
        let ghost old_cmds = self@.commands;
        let ghost old_labels = self.labels();
        let ghost lab = cmd.label_of();
        self.commands.truncate(self.cursor);
        cmd.apply_to(doc);
        self.commands.push(cmd);
        self.cursor = self.commands.len();
        proof {
            assert(self@.commands =~= old_cmds.take(old(self)@.cursor).push(cmd@));
            assert(self.labels() =~= old_labels.take(old(self)@.cursor).push(lab));
        }
    }

    /// Takes back the last applied command, if any.
    pub fn undo(&mut self, doc: &mut Document) -> (r: bool)
        requires
            old(self)@.wf(),
        ensures
            final(self).labels() == old(self).labels(),
            final(self)@.wf(),
            r == (old(self)@.cursor > 0),
            final(self)@.commands == old(self)@.commands,
            r ==> final(self)@.cursor == old(self)@.cursor - 1 && final(doc)@
                == old(self)@.commands[old(self)@.cursor - 1].revert(old(doc)@),
            !r ==> final(self)@.cursor == old(self)@.cursor && final(doc)@ == old(doc)@,
    {
        if self.cursor == 0 {
            return false;
        }
        self.cursor = self.cursor - 1;
        self.commands[self.cursor].revert_on(doc);
        true
    }

    /// Performs again the next undone command, if any.
    pub fn redo(&mut self, doc: &mut Document) -> (r: bool)
        requires
            old(self)@.wf(),
        ensures
            final(self).labels() == old(self).labels(),
            final(self)@.wf(),
            r == (old(self)@.cursor < old(self)@.commands.len()),
            final(self)@.commands == old(self)@.commands,
            r ==> final(self)@.cursor == old(self)@.cursor + 1 && final(doc)@
                == old(self)@.commands[old(self)@.cursor].apply(old(doc)@),
            !r ==> final(self)@.cursor == old(self)@.cursor && final(doc)@ == old(doc)@,
    {
        if self.cursor >= self.commands.len() {
            return false;
        }
        self.commands[self.cursor].apply_to(doc);
        self.cursor = self.cursor + 1;
        true
    }

    /// Jumps to the state after the first `target` commands (bounded to the
    /// number of recorded commands), undoing or redoing as needed.
    pub fn goto(&mut self, doc: &mut Document, target: usize)
        requires
            old(self)@.wf(),
        ensures
            final(self).labels() == old(self).labels(),
            final(self)@.wf(),
            final(self)@.commands == old(self)@.commands,
            final(self)@.cursor == (if target < old(self)@.commands.len() {
                target as int
            } else {
                old(self)@.commands.len() as int
            }),
            final(self)@.cursor <= old(self)@.cursor ==> final(doc)@ == old(self)@.undo_span(
                old(doc)@,
                old(self)@.cursor,
                final(self)@.cursor,
            ),
            final(self)@.cursor >= old(self)@.cursor ==> final(doc)@ == old(self)@.redo_span(
                old(doc)@,
                old(self)@.cursor,
                final(self)@.cursor,
            ),
    {
        let goal = if target < self.commands.len() {
            target
        } else {
            self.commands.len()
        };
        let ghost h0 = self@;
        let ghost d0 = doc@;
        if goal <= self.cursor {
            while self.cursor > goal
                invariant
                    self@.wf(),
                    self@.commands == h0.commands,
                    self.labels() == old(self).labels(),
                    goal <= self@.cursor <= h0.cursor,
                    h0.undo_span(d0, h0.cursor, goal as int) == h0.undo_span(
                        doc@,
                        self@.cursor,
                        goal as int,
                    ),
                decreases self.cursor,
            {
                self.undo(doc);
            }
        } else {
            while self.cursor < goal
                invariant
                    self@.wf(),
                    self@.commands == h0.commands,
                    self.labels() == old(self).labels(),
                    h0.cursor <= self@.cursor <= goal,
                    goal <= h0.commands.len(),
                    h0.redo_span(d0, h0.cursor, goal as int) == h0.redo_span(
                        doc@,
                        self@.cursor,
                        goal as int,
                    ),
                decreases goal - self.cursor,
            {
                self.redo(doc);
            }
        }
    }
}

/// Jumping back in the history keeps the document well-formed.
pub proof fn law_history_spans_keep_wf(h: HistoryView, d: DocView, from: int, to: int)
    requires
        h.wf(),
        d.wf(),
        0 <= from <= h.commands.len(),
        0 <= to <= h.commands.len(),
    ensures
        to <= from ==> h.undo_span(d, from, to).wf(),
        from <= to ==> h.redo_span(d, from, to).wf(),
{
    if to <= from {
        lemma_undo_span_wf(h, d, from, to);
    }
    if from <= to {
        lemma_redo_span_wf(h, d, from, to);
    }
}

} // verus!
