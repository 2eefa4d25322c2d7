//! The editor's undo/redo history.

use vstd::prelude::*;

verus! {

/// An undoable editor operation on a scene `S` drawn by a renderer `R`.
///
/// A kind of command says what running and undoing it does by giving
/// `performs` and `reverts`; the defaults claim nothing. Running or undoing
/// a command keeps its name.
pub trait EditorCommand<S, R>: Send + Sync {
    /// Whether performing the operation on `scene` and `renderer` may leave
    /// the command as `cmd_after`, the scene as `scene_after` and the
    /// renderer as `renderer_after`.
    open spec fn performs(&self, scene: S, renderer: R, cmd_after: &Self, scene_after: S, renderer_after: R) -> bool {
        true
    }

    /// Whether reverting the operation on `scene` and `renderer` may leave
    /// the command as `cmd_after`, the scene as `scene_after` and the
    /// renderer as `renderer_after`.
    open spec fn reverts(&self, scene: S, renderer: R, cmd_after: &Self, scene_after: S, renderer_after: R) -> bool {
        true
    }

    /// Performs (or performs again) the operation.
    fn execute(&mut self, scene: &mut S, renderer: &mut R)
        ensures
            old(self).performs(*old(scene), *old(renderer), &*final(self), *final(scene), *final(renderer)),
            forall|n: &str|
                call_ensures(Self::name, (&*old(self),), n) <==> call_ensures(Self::name, (&*final(self),), n),
    ;

    /// Reverts the operation.
    fn undo(&mut self, scene: &mut S, renderer: &mut R)
        ensures
            old(self).reverts(*old(scene), *old(renderer), &*final(self), *final(scene), *final(renderer)),
            forall|n: &str|
                call_ensures(Self::name, (&*old(self),), n) <==> call_ensures(Self::name, (&*final(self),), n),
    ;

    /// The name shown for the operation in menus.
    fn name(&self) -> &str;
}

/// Two commands show the same name: whatever `name` may return for one it
/// may return for the other.
pub open spec fn same_name<S, R, C: EditorCommand<S, R>>(a: C, b: C) -> bool {
    forall|n: &str|
        #![trigger call_ensures(<C as EditorCommand<S, R>>::name, (&a,), n)]
        #![trigger call_ensures(<C as EditorCommand<S, R>>::name, (&b,), n)]
        call_ensures(<C as EditorCommand<S, R>>::name, (&a,), n) <==> call_ensures(
            <C as EditorCommand<S, R>>::name,
            (&b,),
            n,
        )
}

/// `n` is what `name` gives for the command `c`.
pub open spec fn named<S, R, C: EditorCommand<S, R>>(c: C, n: &str) -> bool {
    call_ensures(<C as EditorCommand<S, R>>::name, (&c,), n)
}

/// Every command of kind `C` shows one fixed name: any two names that `name`
/// may return for the same command read the same.
pub open spec fn fixed_names<S, R, C: EditorCommand<S, R>>() -> bool {
    forall|c: C, a: &str, b: &str|
        #![trigger call_ensures(<C as EditorCommand<S, R>>::name, (&c,), a), call_ensures(<C as EditorCommand<S, R>>::name, (&c,), b)]
        named::<S, R, C>(c, a) && named::<S, R, C>(c, b) ==> a@ == b@
}

/// `stack` with `command` pushed on top, losing its oldest entry when it would
/// then hold more than `max_depth` commands.
pub open spec fn push_bounded<C>(stack: Seq<C>, command: C, max_depth: nat) -> Seq<C> {
    let pushed = stack.push(command);
    if pushed.len() > max_depth {
        pushed.drop_first()
    } else {
        pushed
    }
}

/// `stack` after recording each of `cmds` in turn, first to last.
pub open spec fn push_all<C>(stack: Seq<C>, cmds: Seq<C>, max_depth: nat) -> Seq<C>
    decreases cmds.len(),
{
    if cmds.len() == 0 {
        stack
    } else {
        push_bounded(push_all(stack, cmds.drop_last(), max_depth), cmds.last(), max_depth)
    }
}

/// The undo and redo stacks of the editor, newest command last.
pub struct CommandManager<C> {
    undo_stack: Vec<C>,
    redo_stack: Vec<C>,
    max_depth: usize,
}

impl<C> CommandManager<C> {
    /// The commands that can be undone, oldest first.
    pub closed spec fn undo_commands(&self) -> Seq<C> {
        self.undo_stack@
    }

    /// The commands that can be redone, the next one to redo last.
    pub closed spec fn redo_commands(&self) -> Seq<C> {
        self.redo_stack@
    }

    /// How many commands the undo history keeps.
    pub closed spec fn depth_limit(&self) -> nat {
        self.max_depth as nat
    }

    /// The two stacks together hold at most `depth_limit` commands.
    pub open spec fn within_limit(&self) -> bool {
        self.undo_commands().len() + self.redo_commands().len() <= self.depth_limit()
    }

    /// An empty history that keeps at most `max_depth` commands.
    pub fn new(max_depth: usize) -> (m: Self)
        ensures
            m.undo_commands() == Seq::<C>::empty(),
            m.redo_commands() == Seq::<C>::empty(),
            m.depth_limit() == max_depth,
            m.within_limit(),
    {
        CommandManager { undo_stack: Vec::new(), redo_stack: Vec::new(), max_depth }
    }

    /// Records a command that has just been executed: it becomes the newest
    /// undoable command, the oldest one is dropped when the history is full,
    /// and the redo stack is emptied.
    pub fn record(&mut self, command: C)
        ensures
            final(self).undo_commands() == push_bounded(
                old(self).undo_commands(),
                command,
                old(self).depth_limit(),
            ),
            final(self).redo_commands() == Seq::<C>::empty(),
            final(self).depth_limit() == old(self).depth_limit(),
            old(self).within_limit() ==> final(self).within_limit(),
    {
        self.undo_stack.push(command);
        self.redo_stack.clear();
        if self.undo_stack.len() > self.max_depth {
            self.undo_stack.remove(0);
        }
        assert(self.undo_stack@ =~= push_bounded(
            old(self).undo_stack@,
            command,
            old(self).max_depth as nat,
        ));
    }

    /// Executes a new command on the scene and records it.
    pub fn execute<S, R>(&mut self, command: C, scene: &mut S, renderer: &mut R) where
        C: EditorCommand<S, R>,
        ensures
            exists|done: C|
                #![trigger push_bounded(old(self).undo_commands(), done, old(self).depth_limit())]
                command.performs(*old(scene), *old(renderer), &done, *final(scene), *final(renderer))
                    && same_name::<S, R, C>(done, command) && final(self).undo_commands()
                    == push_bounded(old(self).undo_commands(), done, old(self).depth_limit()),
            final(self).redo_commands() == Seq::<C>::empty(),
            final(self).depth_limit() == old(self).depth_limit(),
            old(self).within_limit() ==> final(self).within_limit(),
    {
        let mut command = command;
        command.execute(scene, renderer);
        self.record(command);
    }

    /// Undoes the newest undoable command and moves it onto the redo stack;
    /// does nothing when there is nothing to undo.
    pub fn undo<S, R>(&mut self, scene: &mut S, renderer: &mut R) where C: EditorCommand<S, R>
        ensures
            undo_step(*old(self), *final(self)),
            old(self).within_limit() ==> final(self).within_limit(),
            old(self).undo_commands().len() > 0 ==> old(self).undo_commands().last().reverts(
                *old(scene),
                *old(renderer),
                &final(self).redo_commands().last(),
                *final(scene),
                *final(renderer),
            ),
            undo_keeps_name::<S, R, C>(*old(self), *final(self)),
            old(self).undo_commands().len() == 0 ==> *final(scene) == *old(scene)
                && *final(renderer) == *old(renderer),
    {
        if let Some(command) = self.undo_stack.pop() {
            let mut command = command;
            command.undo(scene, renderer);
            self.redo_stack.push(command);
            assert(self.redo_stack@.drop_last() =~= old(self).redo_stack@);
        }
    }

    /// Executes again the command undone last and moves it back onto the undo
    /// stack; does nothing when there is nothing to redo.
    pub fn redo<S, R>(&mut self, scene: &mut S, renderer: &mut R) where C: EditorCommand<S, R>
        ensures
            redo_step(*old(self), *final(self)),
            old(self).within_limit() ==> final(self).within_limit(),
            old(self).redo_commands().len() > 0 ==> old(self).redo_commands().last().performs(
                *old(scene),
                *old(renderer),
                &final(self).undo_commands().last(),
                *final(scene),
                *final(renderer),
            ),
            redo_keeps_name::<S, R, C>(*old(self), *final(self)),
            old(self).redo_commands().len() == 0 ==> *final(scene) == *old(scene)
                && *final(renderer) == *old(renderer),
    {
        if let Some(command) = self.redo_stack.pop() {
            let mut command = command;
            command.execute(scene, renderer);
            self.undo_stack.push(command);
            assert(self.undo_stack@.drop_last() =~= old(self).undo_stack@);
        }
    }

    /// Whether there is a command to undo.
    pub fn can_undo(&self) -> (r: bool)
        ensures
            r == (self.undo_commands().len() > 0),
    {
        !self.undo_stack.is_empty()
    }

    /// Whether there is a command to redo.
    pub fn can_redo(&self) -> (r: bool)
        ensures
            r == (self.redo_commands().len() > 0),
    {
        !self.redo_stack.is_empty()
    }

    /// The name of the command that `undo` would revert, if any.
    pub fn last_undo_name<S, R>(&self) -> (r: Option<&str>) where C: EditorCommand<S, R>
        ensures
            r is Some == (self.undo_commands().len() > 0),
            r matches Some(n) ==> named::<S, R, C>(self.undo_commands().last(), n),
    {
        match self.undo_stack.last() {
            Some(c) => Some(c.name()),
            None => None,
        }
    }

    /// The name of the command that `redo` would execute again, if any.
    pub fn last_redo_name<S, R>(&self) -> (r: Option<&str>) where C: EditorCommand<S, R>
        ensures
            r is Some == (self.redo_commands().len() > 0),
            r matches Some(n) ==> named::<S, R, C>(self.redo_commands().last(), n),
    {
        match self.redo_stack.last() {
            Some(c) => Some(c.name()),
            None => None,
        }
    }
}

/// One undo: with an undoable command, the newest one leaves the undo stack
/// and, as its undo left it, becomes the next command to redo; without one,
/// nothing changes.
pub open spec fn undo_step<C>(before: CommandManager<C>, after: CommandManager<C>) -> bool {
    &&& after.depth_limit() == before.depth_limit()
    &&& if before.undo_commands().len() == 0 {
        after.undo_commands() == before.undo_commands() && after.redo_commands()
            == before.redo_commands()
    } else {
        &&& after.undo_commands() == before.undo_commands().drop_last()
        &&& after.redo_commands().len() == before.redo_commands().len() + 1
        &&& after.redo_commands().drop_last() == before.redo_commands()
    }
}

/// One redo: with a command to redo, it leaves the redo stack and, as its
/// execution left it, becomes the newest undoable command; without one,
/// nothing changes.
pub open spec fn redo_step<C>(before: CommandManager<C>, after: CommandManager<C>) -> bool {
    &&& after.depth_limit() == before.depth_limit()
    &&& if before.redo_commands().len() == 0 {
        after.undo_commands() == before.undo_commands() && after.redo_commands()
            == before.redo_commands()
    } else {
        &&& after.redo_commands() == before.redo_commands().drop_last()
        &&& after.undo_commands().len() == before.undo_commands().len() + 1
        &&& after.undo_commands().drop_last() == before.undo_commands()
    }
}

/// An undo keeps the name of the command it moves to the redo stack.
pub open spec fn undo_keeps_name<S, R, C: EditorCommand<S, R>>(
    before: CommandManager<C>,
    after: CommandManager<C>,
) -> bool {
    before.undo_commands().len() > 0 ==> same_name::<S, R, C>(
        after.redo_commands().last(),
        before.undo_commands().last(),
    )
}

/// A redo keeps the name of the command it moves to the undo stack.
pub open spec fn redo_keeps_name<S, R, C: EditorCommand<S, R>>(
    before: CommandManager<C>,
    after: CommandManager<C>,
) -> bool {
    before.redo_commands().len() > 0 ==> same_name::<S, R, C>(
        after.undo_commands().last(),
        before.redo_commands().last(),
    )
}

/// Redo after undo restores the undo stack's length and older commands, the
/// name of its newest command (the name that the Undo menu shows), and the
/// redo stack as a whole; only the command that went back and forth may have
/// changed in its own state.
pub proof fn law_redo_after_undo<S, R, C: EditorCommand<S, R>>(
    start: CommandManager<C>,
    undone: CommandManager<C>,
    redone: CommandManager<C>,
)
    requires
        start.undo_commands().len() > 0,
        undo_step(start, undone),
        undo_keeps_name::<S, R, C>(start, undone),
        redo_step(undone, redone),
        redo_keeps_name::<S, R, C>(undone, redone),
    ensures
        same_name::<S, R, C>(redone.undo_commands().last(), start.undo_commands().last()),
        redone.undo_commands().len() == start.undo_commands().len(),
        redone.undo_commands().drop_last() == start.undo_commands().drop_last(),
        redone.redo_commands() == start.redo_commands(),
        redone.depth_limit() == start.depth_limit(),
{
}

/// Undo after redo restores the redo stack's length and earlier entries, the
/// name of its newest command (the name that the Redo menu shows), and the
/// undo stack as a whole; only the command that went back and forth may have
/// changed in its own state.
pub proof fn law_undo_after_redo<S, R, C: EditorCommand<S, R>>(
    start: CommandManager<C>,
    redone: CommandManager<C>,
    undone: CommandManager<C>,
)
    requires
        start.redo_commands().len() > 0,
        redo_step(start, redone),
        redo_keeps_name::<S, R, C>(start, redone),
        undo_step(redone, undone),
        undo_keeps_name::<S, R, C>(redone, undone),
    ensures
        same_name::<S, R, C>(undone.redo_commands().last(), start.redo_commands().last()),
        undone.redo_commands().len() == start.redo_commands().len(),
        undone.redo_commands().drop_last() == start.redo_commands().drop_last(),
        undone.undo_commands() == start.undo_commands(),
        undone.depth_limit() == start.depth_limit(),
{
}

/// A recorded command is the one that undo reverts next, and the history
/// never holds more than its limit: after recording, the undo stack is
/// non-empty exactly when the limit is positive, and its newest entry is the
/// recorded command.
pub proof fn law_record_then_top<C>(stack: Seq<C>, command: C, max_depth: nat)
    requires
        stack.len() <= max_depth,
    ensures
        push_bounded(stack, command, max_depth).len() <= max_depth,
        max_depth > 0 ==> push_bounded(stack, command, max_depth).last() == command,
        max_depth == 0 ==> push_bounded(stack, command, max_depth).len() == 0,
{
}

/// Recording commands one after another into an empty history keeps the
/// newest `max_depth` of them, oldest first: undo takes them newest first,
/// and the older ones are never undone.
pub proof fn law_history_keeps_newest<C>(cmds: Seq<C>, max_depth: nat)
    ensures
        push_all(Seq::<C>::empty(), cmds, max_depth) == cmds.subrange(
            if cmds.len() > max_depth {
                cmds.len() - max_depth
            } else {
                0
            },
            cmds.len() as int,
        ),
    decreases cmds.len(),
{
    if cmds.len() > 0 {
        let prefix = cmds.drop_last();
        law_history_keeps_newest(prefix, max_depth);
        let start: int = if prefix.len() > max_depth {
            prefix.len() - max_depth
        } else {
            0
        };
        assert(prefix.subrange(start, prefix.len() as int).push(cmds.last()) =~= cmds.subrange(
            start,
            cmds.len() as int,
        ));
        assert(cmds.subrange(start, cmds.len() as int).drop_first() =~= cmds.subrange(
            start + 1,
            cmds.len() as int,
        ));
    }
}

/// For commands with a fixed name, the Undo menu shows the name of the
/// command just executed: the name of the newest undoable command after
/// `execute` reads as the executed command's name (with room for at least
/// one command in the history).
pub proof fn law_undo_label_after_execute<S, R, C: EditorCommand<S, R>>(
    before: CommandManager<C>,
    after: CommandManager<C>,
    command: C,
    done: C,
    name: &str,
    shown: &str,
)
    requires
        fixed_names::<S, R, C>(),
        before.depth_limit() > 0,
        after.undo_commands() == push_bounded(before.undo_commands(), done, before.depth_limit()),
        same_name::<S, R, C>(done, command),
        named::<S, R, C>(command, name),
        named::<S, R, C>(after.undo_commands().last(), shown),
    ensures
        shown@ == name@,
{
    assert(after.undo_commands().last() == done);
    assert(named::<S, R, C>(command, shown));
}

/// For commands with a fixed name, an undo hands the name from the Undo menu
/// to the Redo menu.
pub proof fn law_undo_moves_label<S, R, C: EditorCommand<S, R>>(
    start: CommandManager<C>,
    undone: CommandManager<C>,
    undo_label: &str,
    redo_label: &str,
)
    requires
        fixed_names::<S, R, C>(),
        start.undo_commands().len() > 0,
        undo_step(start, undone),
        undo_keeps_name::<S, R, C>(start, undone),
        named::<S, R, C>(start.undo_commands().last(), undo_label),
        named::<S, R, C>(undone.redo_commands().last(), redo_label),
    ensures
        redo_label@ == undo_label@,
{
    assert(named::<S, R, C>(start.undo_commands().last(), redo_label));
}

/// For commands with a fixed name, a redo hands the name from the Redo menu
/// to the Undo menu.
pub proof fn law_redo_moves_label<S, R, C: EditorCommand<S, R>>(
    start: CommandManager<C>,
    redone: CommandManager<C>,
    redo_label: &str,
    undo_label: &str,
)
    requires
        fixed_names::<S, R, C>(),
        start.redo_commands().len() > 0,
        redo_step(start, redone),
        redo_keeps_name::<S, R, C>(start, redone),
        named::<S, R, C>(start.redo_commands().last(), redo_label),
        named::<S, R, C>(redone.undo_commands().last(), undo_label),
    ensures
        undo_label@ == redo_label@,
{
    assert(named::<S, R, C>(start.redo_commands().last(), undo_label));
}

/// For commands with a fixed name, undo then redo leaves the Undo menu
/// showing the name it showed before.
pub proof fn law_label_after_undo_redo<S, R, C: EditorCommand<S, R>>(
    start: CommandManager<C>,
    undone: CommandManager<C>,
    redone: CommandManager<C>,
    label_before: &str,
    label_after: &str,
)
    requires
        fixed_names::<S, R, C>(),
        start.undo_commands().len() > 0,
        undo_step(start, undone),
        undo_keeps_name::<S, R, C>(start, undone),
        redo_step(undone, redone),
        redo_keeps_name::<S, R, C>(undone, redone),
        named::<S, R, C>(start.undo_commands().last(), label_before),
        named::<S, R, C>(redone.undo_commands().last(), label_after),
    ensures
        label_after@ == label_before@,
{
    law_redo_after_undo::<S, R, C>(start, undone, redone);
    assert(named::<S, R, C>(start.undo_commands().last(), label_after));
}

} // verus!
