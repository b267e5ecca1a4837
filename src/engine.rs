//! The rewrite system of `dcc_lsystem`, as the library relies on it.

use vstd::prelude::*;

use dcc_lsystem::arena::{Arena, ArenaId};
use dcc_lsystem::system::LSystem;
use dcc_lsystem::token::Token;

use crate::grammar::rewrite_map;

verus! {

#[verifier::external_type_specification]
#[verifier::external_body]
#[verifier::reject_recursive_types(T)]
pub struct ExArena<T>(Arena<T>);

#[verifier::external_type_specification]
#[verifier::external_body]
pub struct ExToken(Token);

#[verifier::external_type_specification]
#[verifier::external_body]
pub struct ExLSystem(LSystem);

/// How many tokens an arena holds.
pub uninterp spec fn arena_len(a: Arena<Token>) -> nat;

/// The production map of a system: what each id becomes in one step.
pub uninterp spec fn system_rules(l: LSystem) -> Map<usize, Seq<usize>>;

/// The current sequence of a system.
pub uninterp spec fn system_state(l: LSystem) -> Seq<usize>;

/// Relies on `Arena::new`: an arena with no entries.
#[verifier::external_body]
pub(crate) fn empty_arena() -> (a: Arena<Token>)
    ensures
        arena_len(a) == 0,
{
    Arena::new()
}

/// Relies on `Arena::push`: the token goes at the end and its index is
/// returned. `Token::new` panics on a name that holds a space.
#[verifier::external_body]
pub(crate) fn push_token(a: &mut Arena<Token>, name: char) -> (id: usize)
    requires
        name != ' ',
        arena_len(*old(a)) < usize::MAX,
    ensures
        id == arena_len(*old(a)),
        arena_len(*final(a)) == arena_len(*old(a)) + 1,
{
    a.push(Token::new(name)).0
}

/// Relies on `LSystem::new`: the system starts at `start`, and id `i`
/// becomes `productions[i]` in each step.
#[verifier::external_body]
pub(crate) fn new_system(
    arena: Arena<Token>,
    start: Vec<usize>,
    productions: Vec<Vec<usize>>,
) -> (l: LSystem)
    ensures
        system_state(l) == start@,
        forall|id: usize| #[trigger]
            system_rules(l).contains_key(id) <==> id < productions@.len(),
        forall|id: usize|
            id < productions@.len() ==> #[trigger] system_rules(l)[id] == productions@[id as int]@,
{
    let start = start.into_iter().map(ArenaId).collect();
    let rules = productions.into_iter().enumerate().map(
        |(i, p)| (ArenaId(i), p.into_iter().map(ArenaId).collect()),
    ).collect();
    LSystem::new(arena, start, rules)
}

/// Relies on `LSystem::step`: each id of the state is replaced by its
/// production. Indexing the map panics on an id that it lacks.
#[verifier::external_body]
pub(crate) fn step_system(l: &mut LSystem)
    requires
        forall|i: int|
            0 <= i < system_state(*old(l)).len() ==> system_rules(*old(l)).contains_key(
                #[trigger] system_state(*old(l))[i],
            ),
    ensures
        system_rules(*final(l)) == system_rules(*old(l)),
        system_state(*final(l)) == rewrite_map(system_rules(*old(l)), system_state(*old(l))),
{
    l.step()
}

/// Relies on `LSystem::get_state`: the ids of the current state, in order.
#[verifier::external_body]
pub(crate) fn state_ids(l: &LSystem) -> (r: Vec<usize>)
    ensures
        r@ == system_state(*l),
{
    l.get_state().iter().map(|id| id.0).collect()
}

} // verus!
