//! A bounded undo and redo engine over any state that can apply an action
//! and hand back the action that reverts it.

use std::collections::VecDeque;
use vstd::prelude::*;

verus! {

/// Largest number of actions that the two stacks hold together.
pub const MAX_UNDO_COUNT: usize = 512;

const UNDO_STACK_STARTING_CAPACITY: usize = 256;

const REDO_STACK_STARTING_CAPACITY: usize = 128;

/// A state whose changes can be taken back and made again. Each step
/// applies one action and hands back its inverse.
pub trait Undoee: Sized {
    type UndoAction;

    type RedoAction;

    /// The state is one that actions may be applied to.
    spec fn valid(&self) -> bool;

    /// The undo action is one that may be applied to any valid state.
    spec fn undo_valid(action: Self::UndoAction) -> bool;

    /// The redo action is one that may be applied to any valid state.
    spec fn redo_valid(action: Self::RedoAction) -> bool;

    /// Undoing `action` in state `self` gives the state `after` and the
    /// action `redo`.
    spec fn undone(&self, action: Self::UndoAction, after: &Self, redo: Self::RedoAction) -> bool;

    /// Redoing `action` in state `self` gives the state `after` and the
    /// action `undo`.
    spec fn redone(&self, action: Self::RedoAction, after: &Self, undo: Self::UndoAction) -> bool;

    /// Applies an undo action and hands back the action that redoes it.
    fn undo(&mut self, action: Self::UndoAction) -> (redo: Self::RedoAction)
        requires
            old(self).valid(),
            Self::undo_valid(action),
        ensures
            final(self).valid(),
            Self::redo_valid(redo),
            old(self).undone(action, final(self), redo),
    ;

    /// Applies a redo action and hands back the action that undoes it.
    fn redo(&mut self, action: Self::RedoAction) -> (undo: Self::UndoAction)
        requires
            old(self).valid(),
            Self::redo_valid(action),
        ensures
            final(self).valid(),
            Self::undo_valid(undo),
            old(self).redone(action, final(self), undo),
    ;
}

/// The undo stack after `action` is pushed on `actions`: the oldest action
/// leaves where the stack is full.
pub open spec fn pushed<A>(actions: Seq<A>, action: A) -> Seq<A> {
    if actions.len() == MAX_UNDO_COUNT {
        actions.subrange(1, actions.len() as int).push(action)
    } else {
        actions.push(action)
    }
}

/// The undo stack after the actions of `new` are pushed on `actions`, one
/// after the other.
pub open spec fn pushed_all<A>(actions: Seq<A>, new: Seq<A>) -> Seq<A>
    decreases new.len(),
{
    if new.len() == 0 {
        actions
    } else {
        pushed(pushed_all(actions, new.drop_last()), new.last())
    }
}

/// The newest `MAX_UNDO_COUNT` actions of a list, or all where there are
/// fewer.
pub open spec fn newest<A>(actions: Seq<A>) -> Seq<A> {
    if actions.len() <= MAX_UNDO_COUNT {
        actions
    } else {
        actions.subrange(actions.len() - MAX_UNDO_COUNT, actions.len() as int)
    }
}

/// The undo stack and the redo stack of one state. The newest action is the
/// last of each.
#[derive(Debug, Clone)]
pub struct UndoStack<U: Undoee> {
    undo: VecDeque<U::UndoAction>,
    redo: VecDeque<U::RedoAction>,
}

impl<U: Undoee> UndoStack<U> {
    /// The actions that can be undone, oldest first.
    pub closed spec fn undo_actions(&self) -> Seq<U::UndoAction> {
        self.undo@
    }

    /// The actions that can be redone; the last is the one undone most
    /// recently.
    pub closed spec fn redo_actions(&self) -> Seq<U::RedoAction> {
        self.redo@
    }

    /// The two stacks together stay within the bound, and every action on
    /// them may be applied.
    pub open spec fn wf(&self) -> bool {
        &&& self.undo_actions().len() + self.redo_actions().len() <= MAX_UNDO_COUNT
        &&& forall|i: int|
            0 <= i < self.undo_actions().len() ==> U::undo_valid(#[trigger] self.undo_actions()[i])
        &&& forall|i: int|
            0 <= i < self.redo_actions().len() ==> U::redo_valid(#[trigger] self.redo_actions()[i])
    }

    /// What one undo makes of the engine `self` and of `state`. With
    /// nothing to undo, both stay as they are. Otherwise the newest undo
    /// action leaves its stack and is applied to the state, and the action
    /// that the state hands back is put on the redo stack.
    pub open spec fn undo_gives(&self, state: &U, after: &Self, state_after: &U) -> bool {
        &&& self.undo_actions().len() == 0 ==> {
            &&& *state_after == *state
            &&& after.undo_actions() == self.undo_actions()
            &&& after.redo_actions() == self.redo_actions()
        }
        &&& self.undo_actions().len() > 0 ==> {
            &&& after.undo_actions() == self.undo_actions().drop_last()
            &&& after.redo_actions().len() == self.redo_actions().len() + 1
            &&& after.redo_actions().drop_last() == self.redo_actions()
            &&& state.undone(self.undo_actions().last(), state_after, after.redo_actions().last())
        }
    }

    /// What one redo makes of the engine `self` and of `state`. With
    /// nothing to redo, both stay as they are. Otherwise the newest redo
    /// action leaves its stack and is applied to the state, and the action
    /// that the state hands back is put on the undo stack.
    pub open spec fn redo_gives(&self, state: &U, after: &Self, state_after: &U) -> bool {
        &&& self.redo_actions().len() == 0 ==> {
            &&& *state_after == *state
            &&& after.undo_actions() == self.undo_actions()
            &&& after.redo_actions() == self.redo_actions()
        }
        &&& self.redo_actions().len() > 0 ==> {
            &&& after.redo_actions() == self.redo_actions().drop_last()
            &&& after.undo_actions().len() == self.undo_actions().len() + 1
            &&& after.undo_actions().drop_last() == self.undo_actions()
            &&& state.redone(self.redo_actions().last(), state_after, after.undo_actions().last())
        }
    }

    /// An engine with nothing to undo or redo.
    pub fn new() -> (stack: Self)
        ensures
            stack.wf(),
            stack.undo_actions() == Seq::<U::UndoAction>::empty(),
            stack.redo_actions() == Seq::<U::RedoAction>::empty(),
    {
        UndoStack {
            undo: VecDeque::with_capacity(UNDO_STACK_STARTING_CAPACITY),
            redo: VecDeque::with_capacity(REDO_STACK_STARTING_CAPACITY),
        }
    }

    /// Records a new action. The oldest action is dropped where the undo
    /// stack is full, and nothing is left to redo.
    pub fn push(&mut self, action: U::UndoAction)
        requires
            old(self).wf(),
            U::undo_valid(action),
        ensures
            final(self).wf(),
            final(self).undo_actions() == pushed(old(self).undo_actions(), action),
            final(self).redo_actions() == Seq::<U::RedoAction>::empty(),
            final(self).undo_actions().len() <= MAX_UNDO_COUNT,
            final(self).undo_actions().last() == action,
    {
        if self.undo.len() == MAX_UNDO_COUNT {
            self.undo.pop_front();
        }
        self.undo.push_back(action);
        self.redo.clear();
    }

    /// Takes back the newest action, if there is one, and keeps its inverse
    /// for redo. With nothing to undo, nothing changes.
    pub fn undo(&mut self, unduee: &mut U)
        requires
            old(self).wf(),
            old(unduee).valid(),
        ensures
            final(self).wf(),
            final(unduee).valid(),
            old(self).undo_gives(old(unduee), final(self), final(unduee)),
    {
        if let Some(undo) = self.undo.pop_back() {
            let redo = unduee.undo(undo);
            self.redo.push_back(redo);
            assert(self.redo@.drop_last() =~= old(self).redo@);
            assert(self.undo@ =~= old(self).undo@.drop_last());
        }
    }

    /// Makes the action undone most recently again, if there is one, and
    /// keeps its inverse for undo. With nothing to redo, nothing changes.
    pub fn redo(&mut self, unduee: &mut U)
        requires
            old(self).wf(),
            old(unduee).valid(),
        ensures
            final(self).wf(),
            final(unduee).valid(),
            old(self).redo_gives(old(unduee), final(self), final(unduee)),
    {
        if let Some(redo) = self.redo.pop_back() {
            let undo = unduee.redo(redo);
            self.undo.push_back(undo);
            assert(self.undo@.drop_last() =~= old(self).undo@);
            assert(self.redo@ =~= old(self).redo@.drop_last());
        }
    }
}

/// A push keeps the stack within its bound: on a full stack it drops exactly
/// the oldest action and keeps the others in their order, with the new one
/// last.
pub proof fn lemma_push_keeps_newest<A>(actions: Seq<A>, action: A)
    requires
        actions.len() <= MAX_UNDO_COUNT,
    ensures
        pushed(actions, action).len() <= MAX_UNDO_COUNT,
        pushed(actions, action).last() == action,
        actions.len() < MAX_UNDO_COUNT ==> pushed(actions, action).drop_last() == actions,
        actions.len() == MAX_UNDO_COUNT ==> pushed(actions, action).drop_last()
            == actions.drop_first(),
{
    if actions.len() < MAX_UNDO_COUNT {
        assert(actions.push(action).drop_last() =~= actions);
    } else {
        assert(actions.subrange(1, actions.len() as int).push(action).drop_last()
            =~= actions.drop_first());
    }
}

/// However many actions are pushed, the undo stack never holds more than
/// `MAX_UNDO_COUNT` of them, and it holds exactly the newest ones: those
/// are what can still be undone and redone.
pub proof fn lemma_pushes_keep_newest<A>(actions: Seq<A>, new: Seq<A>)
    requires
        actions.len() <= MAX_UNDO_COUNT,
    ensures
        pushed_all(actions, new) == newest(actions + new),
        pushed_all(actions, new).len() <= MAX_UNDO_COUNT,
    decreases new.len(),
{
    if new.len() == 0 {
        assert(actions + new =~= actions);
    } else {
        lemma_pushes_keep_newest(actions, new.drop_last());
        let before = actions + new.drop_last();
        assert(actions + new =~= before.push(new.last()));
        assert(pushed(newest(before), new.last()) =~= newest(before.push(new.last())));
    }
}

} // verus!
