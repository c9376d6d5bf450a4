//! The stack used by the Bencode to JSON converter to keep track of
//! the current parsing state.

use vstd::prelude::*;

use crate::parsers::{
    JSON_ARRAY_END, JSON_ARRAY_ITEMS_SEPARATOR, JSON_OBJ_END, JSON_OBJ_FIELDS_SEPARATOR,
    JSON_OBJ_FIELD_KEY_VALUE_SEPARATOR,
};

verus! {

/// States while parsing lists or dictionaries.
///
/// There are no states for integers and strings because they
/// self-terminate and there is no recursion.  The current state is
/// always the top of the stack; it says what punctuation, if any,
/// precedes the next emitted value and what transition follows.
#[derive(Clone, Copy, Debug, PartialEq, Eq, Structural)]
pub enum State {
    /// Top level, nothing opened yet; never popped.
    Initial,
    /// A `[` was just emitted; the next byte is the first item or `]`.
    ExpectingFirstListItemOrEnd,
    /// At least one item was emitted; the next value needs a `,` first.
    ExpectingNextListItem,
    /// A `{` was just emitted; the next byte is the first key or `}`.
    ExpectingFirstDictFieldOrEnd,
    /// A key was just emitted; the next value needs a `:` first.
    ExpectingDictFieldValue,
    /// A value was just emitted; the next key needs a `,` first.
    ExpectingDictFieldKey,
}

/// A well-formed run of states: never empty, the `Initial` sentinel at
/// the bottom, and nowhere else.
pub open spec fn states_well_formed(states: Seq<State>) -> bool {
    &&& states.len() >= 1
    &&& states[0] == State::Initial
    &&& forall|i: int| 1 <= i < states.len() ==> states[i] != State::Initial
}

/// The punctuation emitted just before a new value begins under the
/// given current state.
pub open spec fn begin_emission(top: State) -> Seq<u8> {
    match top {
        State::ExpectingNextListItem => seq![JSON_ARRAY_ITEMS_SEPARATOR],
        State::ExpectingDictFieldValue => seq![JSON_OBJ_FIELD_KEY_VALUE_SEPARATOR],
        State::ExpectingDictFieldKey => seq![JSON_OBJ_FIELDS_SEPARATOR],
        _ => Seq::<u8>::empty(),
    }
}

/// The state that replaces the top of the stack when a new value
/// begins under the given current state.
pub open spec fn begin_transition(top: State) -> State {
    match top {
        State::Initial => State::Initial,
        State::ExpectingFirstListItemOrEnd => State::ExpectingNextListItem,
        State::ExpectingNextListItem => State::ExpectingNextListItem,
        State::ExpectingFirstDictFieldOrEnd => State::ExpectingDictFieldValue,
        State::ExpectingDictFieldValue => State::ExpectingDictFieldKey,
        State::ExpectingDictFieldKey => State::ExpectingDictFieldValue,
    }
}

/// Whether an end-of-container byte is legal under the given current
/// state: there must be an open container, and a dictionary must not
/// be waiting for a field value.
pub open spec fn end_accepts(top: State) -> bool {
    top != State::Initial && top != State::ExpectingDictFieldValue
}

/// The closing delimiter emitted for an end-of-container under the
/// given current state.
pub open spec fn end_emission(top: State) -> Seq<u8> {
    match top {
        State::ExpectingFirstListItemOrEnd | State::ExpectingNextListItem => seq![JSON_ARRAY_END],
        State::ExpectingFirstDictFieldOrEnd | State::ExpectingDictFieldKey => seq![JSON_OBJ_END],
        _ => Seq::<u8>::empty(),
    }
}

/// The stack of parsing states.
///
/// It is never empty: it is created holding the `Initial` sentinel,
/// which is never popped.
#[derive(Debug)]
pub struct Stack {
    items: Vec<State>,
}

impl View for Stack {
    type V = Seq<State>;

    closed spec fn view(&self) -> Seq<State> {
        self.items@
    }
}

impl Default for Stack {
    fn default() -> (stack: Self)
        ensures
            stack@ == seq![State::Initial],
    {
        let mut items: Vec<State> = Vec::new();
        items.push(State::Initial);
        proof {
            assert(items@ =~= seq![State::Initial]);
        }
        Stack { items }
    }
}

impl Stack {
    /// It pushes the state of a newly opened container.
    pub fn push(&mut self, item: State)
        ensures
            final(self)@ == old(self)@.push(item),
    {
        self.items.push(item);
    }

    /// It removes the top element; the `Initial` sentinel cannot be
    /// removed.
    pub fn pop(&mut self)
        requires
            old(self)@.len() > 1,
        ensures
            final(self)@ == old(self)@.drop_last(),
    {
        self.items.pop();
    }

    /// It replaces the top element, for a transition on the same
    /// nesting level.
    pub fn swap_top(&mut self, new_item: State)
        requires
            old(self)@.len() >= 1,
        ensures
            final(self)@ == old(self)@.drop_last().push(new_item),
    {
        self.items.pop();
        self.items.push(new_item);
    }

    /// It returns the top element on the stack without removing it.
    /// The stack is never empty because the initial state cannot be
    /// popped, so there is always one.
    pub fn peek(&self) -> (top: State)
        requires
            self@.len() >= 1,
        ensures
            top == self@.last(),
    {
        self.items[self.items.len() - 1]
    }
}

} // verus!
