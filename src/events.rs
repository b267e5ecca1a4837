//! Token edits requested for a plant, and the symbols a new plant starts with.

use vstd::prelude::*;

use crate::action::{Action, Direction};
use crate::plant::{registered, known_ids, PlantBuilderComponent};
use crate::registry::{lookup, TokenEntry};

verus! {

/// A request concerning one plant.
#[derive(Clone, Copy, Debug, PartialEq, Eq, Structural)]
pub enum GameEvent {
    /// Rebuild the plant from its options.
    TriggerUpdate,
    /// Create a new plant.
    SpawnNew,
    RemoveToken { token: char },
    /// Move the action of `prev` to the symbol `next`.
    ChangeToken { prev: char, next: char },
    ChangeAction { token: char, action: Action },
    AddToken { token: char, action: Action },
}

/// The symbols that a new plant starts with, and their actions.
pub open spec fn default_token_pairs() -> Seq<(char, Action)> {
    seq![
        ('X', Action::Nothing),
        ('F', Action::Forwards),
        ('+', Action::Rotate(Direction::XPos)),
        ('-', Action::Rotate(Direction::XNeg)),
        ('>', Action::Rotate(Direction::YPos)),
        ('<', Action::Rotate(Direction::YNeg)),
        ('^', Action::Rotate(Direction::ZPos)),
        ('v', Action::Rotate(Direction::ZNeg)),
        ('[', Action::Push),
        (']', Action::Pop),
    ]
}

/// The symbols that a new plant starts with, and their actions.
pub fn default_tokens() -> (r: Vec<(char, Action)>)
    ensures
        r@ == default_token_pairs(),
{
    let r = vec![
        ('X', Action::Nothing),
        ('F', Action::Forwards),
        ('+', Action::Rotate(Direction::XPos)),
        ('-', Action::Rotate(Direction::XNeg)),
        ('>', Action::Rotate(Direction::YPos)),
        ('<', Action::Rotate(Direction::YNeg)),
        ('^', Action::Rotate(Direction::ZPos)),
        ('v', Action::Rotate(Direction::ZNeg)),
        ('[', Action::Push),
        (']', Action::Pop),
    ];
    proof {
        assert(r@ =~= default_token_pairs());
    }
    r
}

impl PlantBuilderComponent {
    /// A builder for a new plant: the default symbols, no rules, and the
    /// start text `X`.
    pub fn new_plant() -> (r: PlantBuilderComponent)
        ensures
            r.wf(),
            r.id_count() == 10,
            forall|c: char| #[trigger]
                lookup(r.entries(), c) == registered(default_token_pairs(), c),
            r.rule_list() == Seq::<(usize, Seq<usize>)>::empty(),
            r.start_ids() == seq![0usize],
    {
        let mut b = PlantBuilderComponent::new();
        let pairs = default_tokens();
        b.set_tokens(pairs.as_slice());
        let ghost before = b.entries();
        let _ = b.set_axiom("X");
        proof {
            reveal_strlit("X");
            let s = "X"@;
            assert(s.drop_last() =~= Seq::<char>::empty());
            assert(s.last() == 'X');
            let p = default_token_pairs();
            let x = TokenEntry { symbol: 'X', id: 0, action: Action::Nothing };
            assert(registered(p, 'X') == Some(x)) by {
                reveal_with_fuel(registered, 11);
            }
            assert(lookup(before, 'X') == registered(p, 'X'));
            assert(s.len() == 1);
            assert(known_ids(before, s.drop_last()) == Seq::<usize>::empty());
            assert(known_ids(before, s) =~= seq![0usize]);
        }
        b
    }

    /// Applies a token edit; returns whether the plant must be rebuilt.
    ///
    /// Removing or adding a token always asks for a rebuild; changing the
    /// symbol or the action of a token does so only when the token was
    /// registered, and otherwise changes nothing. `TriggerUpdate` and
    /// `SpawnNew` are no token edits: they change nothing here.
    pub fn apply_event(&mut self, event: GameEvent) -> (rebuild: bool)
        requires
            old(self).wf(),
            old(self).id_count() < usize::MAX,
            event matches GameEvent::ChangeToken { next, .. } ==> next != ' ',
            event matches GameEvent::ChangeAction { token, .. } ==> token != ' ',
            event matches GameEvent::AddToken { token, .. } ==> token != ' ',
        ensures
            final(self).wf(),
            final(self).rule_list() == old(self).rule_list(),
            final(self).start_ids() == old(self).start_ids(),
            match event {
                GameEvent::TriggerUpdate => !rebuild && final(self).entries() == old(
                    self,
                ).entries(),
                GameEvent::SpawnNew => !rebuild && final(self).entries() == old(self).entries(),
                GameEvent::RemoveToken { token } => rebuild && forall|c: char| #[trigger]
                    lookup(final(self).entries(), c) == if c == token {
                        None
                    } else {
                        lookup(old(self).entries(), c)
                    },
                GameEvent::ChangeToken { prev, next } => match lookup(old(self).entries(), prev) {
                    None => !rebuild && final(self).entries() == old(self).entries(),
                    Some(e) => rebuild && forall|c: char| #[trigger]
                        lookup(final(self).entries(), c) == if c == next {
                            Some(
                                TokenEntry {
                                    symbol: next,
                                    id: old(self).id_count() as usize,
                                    action: e.action,
                                },
                            )
                        } else if c == prev {
                            None
                        } else {
                            lookup(old(self).entries(), c)
                        },
                },
                GameEvent::ChangeAction { token, action } => match lookup(
                    old(self).entries(),
                    token,
                ) {
                    None => !rebuild && final(self).entries() == old(self).entries(),
                    Some(e) => rebuild && forall|c: char| #[trigger]
                        lookup(final(self).entries(), c) == if c == token {
                            Some(
                                TokenEntry {
                                    symbol: token,
                                    id: old(self).id_count() as usize,
                                    action: action,
                                },
                            )
                        } else {
                            lookup(old(self).entries(), c)
                        },
                },
                GameEvent::AddToken { token, action } => rebuild && forall|c: char| #[trigger]
                    lookup(final(self).entries(), c) == if c == token {
                        Some(
                            TokenEntry {
                                symbol: token,
                                id: old(self).id_count() as usize,
                                action: action,
                            },
                        )
                    } else {
                        lookup(old(self).entries(), c)
                    },
            },
    {
        match event {
            GameEvent::TriggerUpdate => false,
            GameEvent::SpawnNew => false,
            GameEvent::RemoveToken { token } => {
                self.remove_token(token);
                true
            },
            GameEvent::ChangeToken { prev, next } => match self.remove_token(prev) {
                Some((_, action)) => {
                    self.add_token(next, action);
                    true
                },
                None => false,
            },
            GameEvent::ChangeAction { token, action } => match self.remove_token(token) {
                Some(_) => {
                    self.add_token(token, action);
                    true
                },
                None => false,
            },
            GameEvent::AddToken { token, action } => {
                self.add_token(token, action);
                true
            },
        }
    }
}

} // verus!
