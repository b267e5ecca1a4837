//! The grammar builder and the grammar it builds.

use vstd::prelude::*;

use dcc_lsystem::system::LSystem;

use crate::action::Action;
use crate::engine::{
    empty_arena, new_system, push_token, state_ids, step_system, system_rules, system_state,
};
use crate::grammar::{
    expand, ids_below, iterate_map, lemma_iterate_map_agrees, lemma_production_below,
    lemma_rewrite_map_closed, map_closed, production, rules_below,
};
use crate::registry::{
    distinct_entries, entry_of_id, find_token, lemma_id_by_lookup, lemma_lookup_by_id,
    lemma_lookup_member, lemma_lookup_without, lemma_without_absent, lemma_without_distinct,
    lemma_without_subset, lookup, take_token, TokenEntry,
};
use crate::rule::{parse_rule, rule_shape, RuleError};
use crate::turtle::{trace_wf, turtle_run, PlantRendererComponent, Trace};

verus! {

/// A lookup of a symbol that is not registered.
#[derive(Clone, Copy, Debug, PartialEq, Eq, Structural)]
pub struct NotFound {
    pub symbol: char,
}

/// The rule text at `index` of a batch was not added, for the reason `error`.
#[derive(Clone, Copy, Debug, PartialEq, Eq, Structural)]
pub struct SetRulesError {
    pub index: usize,
    pub error: RuleError,
}

/// A compiled production rule.
pub struct Rule {
    pub lhs: usize,
    pub rhs: Vec<usize>,
}

/// The ids of `cs` in order, or the first symbol of `cs` that is not registered.
pub open spec fn resolve(entries: Seq<TokenEntry>, cs: Seq<char>) -> Result<Seq<usize>, char>
    decreases cs.len(),
{
    if cs.len() == 0 {
        Ok(Seq::empty())
    } else {
        match resolve(entries, cs.drop_last()) {
            Err(c) => Err(c),
            Ok(ids) => match lookup(entries, cs.last()) {
                None => Err(cs.last()),
                Some(e) => Ok(ids.push(e.id)),
            },
        }
    }
}

/// The ids of the registered symbols of `cs` in order; the others are dropped.
pub open spec fn known_ids(entries: Seq<TokenEntry>, cs: Seq<char>) -> Seq<usize>
    decreases cs.len(),
{
    if cs.len() == 0 {
        Seq::empty()
    } else {
        match lookup(entries, cs.last()) {
            None => known_ids(entries, cs.drop_last()),
            Some(e) => known_ids(entries, cs.drop_last()).push(e.id),
        }
    }
}

/// The rule that a rule text compiles to against the registry, or why it does not.
pub open spec fn compile_rule(entries: Seq<TokenEntry>, text: Seq<char>) -> Result<
    (usize, Seq<usize>),
    RuleError,
> {
    match rule_shape(text) {
        None => Err(RuleError::Malformed),
        Some((lhs, rhs)) => match lookup(entries, lhs) {
            None => Err(RuleError::UnknownToken(lhs)),
            Some(e) => match resolve(entries, rhs) {
                Err(c) => Err(RuleError::UnknownToken(c)),
                Ok(ids) => Ok((e.id, ids)),
            },
        },
    }
}

/// The rules that a batch of rule texts adds, in order, up to the first
/// text that fails; and that text's index and error, if one fails.
pub open spec fn compile_rules(entries: Seq<TokenEntry>, texts: Seq<Seq<char>>) -> (
    Seq<(usize, Seq<usize>)>,
    Option<(nat, RuleError)>,
)
    decreases texts.len(),
{
    if texts.len() == 0 {
        (Seq::empty(), None)
    } else {
        let (rules, failed) = compile_rules(entries, texts.drop_last());
        if failed is Some {
            (rules, failed)
        } else {
            match compile_rule(entries, texts.last()) {
                Ok(r) => (rules.push(r), None),
                Err(e) => (rules, Some(((texts.len() - 1) as nat, e))),
            }
        }
    }
}

/// The entry that `c` resolves to after registering `pairs` in order: pair
/// `k` gets id `k`, and a later pair of a symbol replaces an earlier one.
pub open spec fn registered(pairs: Seq<(char, Action)>, c: char) -> Option<TokenEntry>
    decreases pairs.len(),
{
    if pairs.len() == 0 {
        None
    } else if pairs.last().0 == c {
        Some(TokenEntry { symbol: c, id: (pairs.len() - 1) as usize, action: pairs.last().1 })
    } else {
        registered(pairs.drop_last(), c)
    }
}

/// The actions of the ids of `s` that are still registered, in order.
pub open spec fn actions_of(entries: Seq<TokenEntry>, s: Seq<usize>) -> Seq<Action>
    decreases s.len(),
{
    if s.len() == 0 {
        Seq::empty()
    } else {
        match entry_of_id(entries, s.last()) {
            None => actions_of(entries, s.drop_last()),
            Some(e) => actions_of(entries, s.drop_last()).push(e.action),
        }
    }
}

/// Builds grammars from a token registry, rule texts and a start text.
pub struct PlantBuilderComponent {
    /// For each id ever handed out, the symbol it was registered under.
    names: Vec<char>,
    /// The live registrations.
    tokens: Vec<TokenEntry>,
    rules: Vec<Rule>,
    start: Vec<usize>,
}

/// A built grammar: the rewrite system and the registrations it was built with.
pub struct PlantComponent {
    pub structure: LSystem,
    pub action_map: Vec<TokenEntry>,
}

impl PlantComponent {
    /// Every id of the state, and every id that one produces, has a production.
    pub open spec fn wf(&self) -> bool {
        map_closed(system_rules(self.structure), system_state(self.structure))
    }

    /// This grammar is what `b` builds: each id that `b` handed out rewrites
    /// by its last rule or to itself, the state is `b`'s start sequence, and
    /// each id resolves to the registration that its symbol resolves to.
    pub open spec fn built_from(&self, b: PlantBuilderComponent) -> bool {
        &&& self.action_map@ == b.entries()
        &&& forall|c: char| #[trigger]
            lookup(b.entries(), c) matches Some(e) ==> entry_of_id(self.action_map@, e.id)
                == Some(e)
        &&& forall|id: usize| #[trigger]
            entry_of_id(self.action_map@, id) matches Some(e) ==> lookup(b.entries(), e.symbol)
                == Some(e)
        &&& system_state(self.structure) == b.start_ids()
        &&& forall|id: usize| #[trigger]
            system_rules(self.structure).contains_key(id) <==> id < b.id_count()
        &&& forall|id: usize|
            id < b.id_count() ==> #[trigger] system_rules(self.structure)[id] == production(
                b.rule_list(),
                id,
            )
    }

    /// Rewrites the state `n` times.
    pub fn step_by(&mut self, n: usize)
        requires
            old(self).wf(),
        ensures
            final(self).wf(),
            final(self).action_map == old(self).action_map,
            system_rules(final(self).structure) == system_rules(old(self).structure),
            system_state(final(self).structure) == iterate_map(
                system_rules(old(self).structure),
                system_state(old(self).structure),
                n as nat,
            ),
    {
        let ghost m = system_rules(self.structure);
        let ghost s0 = system_state(self.structure);
        let mut k: usize = 0;
        while k < n
            invariant
                k <= n,
                self.wf(),
                self.action_map == old(self).action_map,
                system_rules(self.structure) == m,
                system_state(self.structure) == iterate_map(m, s0, k as nat),
            decreases n - k,
        {
            proof {
                lemma_rewrite_map_closed(m, system_state(self.structure));
            }
            step_system(&mut self.structure);
            k = k + 1;
        }
    }

    /// Rewrites the state `iterations` times and interprets the actions of
    /// the result from the origin.
    pub fn solve(&mut self, renderer: &mut PlantRendererComponent, iterations: usize) -> (r: Trace)
        requires
            old(self).wf(),
        ensures
            final(self).wf(),
            final(self).action_map == old(self).action_map,
            system_rules(final(self).structure) == system_rules(old(self).structure),
            system_state(final(self).structure) == iterate_map(
                system_rules(old(self).structure),
                system_state(old(self).structure),
                iterations as nat,
            ),
            ({
                let run = turtle_run(
                    actions_of(old(self).action_map@, system_state(final(self).structure)),
                );
                r.poses@ == run.poses && r.verts@ == run.verts
            }),
            trace_wf(r.poses@, r.verts@),
    {
        self.step_by(iterations);
        let instructions = self.render_actions();
        renderer.generate_verts(instructions.as_slice())
    }

    /// The current sequence of ids.
    pub fn state(&self) -> (r: Vec<usize>)
        ensures
            r@ == system_state(self.structure),
    {
        state_ids(&self.structure)
    }

    /// The actions of the current sequence; ids whose symbol is no longer
    /// registered are skipped.
    pub fn render_actions(&self) -> (r: Vec<Action>)
        ensures
            r@ == actions_of(self.action_map@, system_state(self.structure)),
    {
        let s = self.state();
        let mut r: Vec<Action> = Vec::new();
        let mut i: usize = 0;
        while i < s.len()
            invariant
                i <= s@.len(),
                s@ == system_state(self.structure),
                r@ == actions_of(self.action_map@, s@.take(i as int)),
            decreases s@.len() - i,
        {
            proof {
                assert(s@.take(i + 1).drop_last() == s@.take(i as int));
            }
            match find_id(&self.action_map, s[i]) {
                Some(e) => r.push(e.action),
                None => {},
            }
            i = i + 1;
        }
        proof {
            assert(s@.take(i as int) == s@);
        }
        r
    }
}

/// The entry registered under `id`, if any.
fn find_id(entries: &Vec<TokenEntry>, id: usize) -> (r: Option<TokenEntry>)
    ensures
        r == entry_of_id(entries@, id),
{
    let mut i: usize = entries.len();
    proof {
        assert(entries@.take(i as int) == entries@);
    }
    while i > 0
        invariant
            i <= entries@.len(),
            entry_of_id(entries@, id) == entry_of_id(entries@.take(i as int), id),
        decreases i,
    {
        let e = entries[i - 1];
        proof {
            assert(entries@.take(i as int).drop_last() == entries@.take(i - 1));
        }
        if e.id == id {
            return Some(e);
        }
        i = i - 1;
    }
    proof {
        assert(entries@.take(0) == Seq::<TokenEntry>::empty());
    }
    None
}

/// A symbol of `cs` that is not registered makes resolving `cs` fail, with
/// a symbol that is not registered.
pub proof fn lemma_resolve_unknown(entries: Seq<TokenEntry>, cs: Seq<char>, i: int)
    requires
        0 <= i < cs.len(),
        lookup(entries, cs[i]) is None,
    ensures
        resolve(entries, cs) matches Err(c) && lookup(entries, c) is None,
    decreases cs.len(),
{
    if i < cs.len() - 1 {
        assert(cs.drop_last()[i] == cs[i]);
        lemma_resolve_unknown(entries, cs.drop_last(), i);
    } else {
        assert(cs.last() == cs[i]);
        lemma_resolve_err_unknown(entries, cs.drop_last());
    }
}

/// When resolving fails, it fails on a symbol that is not registered.
proof fn lemma_resolve_err_unknown(entries: Seq<TokenEntry>, cs: Seq<char>)
    ensures
        resolve(entries, cs) matches Err(c) ==> lookup(entries, c) is None,
    decreases cs.len(),
{
    if cs.len() > 0 {
        lemma_resolve_err_unknown(entries, cs.drop_last());
    }
}

/// A well-shaped rule text that names a symbol that is not registered, on
/// either side, compiles to `UnknownToken` of such a symbol; `add_rule` then
/// leaves the rules as they were.
pub proof fn lemma_unknown_symbol_rejected(entries: Seq<TokenEntry>, text: Seq<char>, c: char)
    requires
        rule_shape(text) matches Some((lhs, rhs)) && (c == lhs || rhs.contains(c)),
        lookup(entries, c) is None,
    ensures
        compile_rule(entries, text) matches Err(RuleError::UnknownToken(d)) && lookup(
            entries,
            d,
        ) is None,
{
    let (lhs, rhs) = rule_shape(text)->0;
    if lookup(entries, lhs) is Some {
        let i = choose|i: int| 0 <= i < rhs.len() && rhs[i] == c;
        lemma_resolve_unknown(entries, rhs, i);
    }
}

/// Once a prefix of `cs` fails to resolve, `cs` fails with the same symbol.
proof fn lemma_resolve_prefix_err(entries: Seq<TokenEntry>, cs: Seq<char>, j: int)
    requires
        0 <= j <= cs.len(),
        resolve(entries, cs.take(j)) is Err,
    ensures
        resolve(entries, cs) == resolve(entries, cs.take(j)),
    decreases cs.len() - j,
{
    if j < cs.len() {
        assert(cs.take(j + 1).drop_last() == cs.take(j));
        lemma_resolve_prefix_err(entries, cs, j + 1);
    } else {
        assert(cs.take(j) == cs);
    }
}

/// Once a prefix of a batch fails, the whole batch stops there.
proof fn lemma_compile_rules_prefix_failed(entries: Seq<TokenEntry>, texts: Seq<Seq<char>>, j: int)
    requires
        0 <= j <= texts.len(),
        compile_rules(entries, texts.take(j)).1 is Some,
    ensures
        compile_rules(entries, texts) == compile_rules(entries, texts.take(j)),
    decreases texts.len() - j,
{
    if j < texts.len() {
        assert(texts.take(j + 1).drop_last() == texts.take(j));
        lemma_compile_rules_prefix_failed(entries, texts, j + 1);
    } else {
        assert(texts.take(j) == texts);
    }
}

impl PlantBuilderComponent {
    /// The live registrations, latest last.
    pub closed spec fn entries(&self) -> Seq<TokenEntry> {
        self.tokens@
    }

    /// The rules added, in order, as left-hand id and right-hand ids.
    pub closed spec fn rule_list(&self) -> Seq<(usize, Seq<usize>)> {
        self.rules@.map_values(|r: Rule| (r.lhs, r.rhs@))
    }

    /// The ids of the start sequence.
    pub closed spec fn start_ids(&self) -> Seq<usize> {
        self.start@
    }

    /// How many ids have been handed out; ids are `0..id_count()`.
    pub closed spec fn id_count(&self) -> nat {
        self.names@.len()
    }

    /// Ids of registrations, rules and the start sequence were all handed
    /// out, no symbol is a space, and no two registrations share a symbol or
    /// an id.
    pub closed spec fn wf(&self) -> bool {
        &&& forall|i: int| 0 <= i < self.tokens@.len() ==> self.tokens@[i].id < self.names@.len()
        &&& distinct_entries(self.tokens@)
        &&& forall|i: int| 0 <= i < self.names@.len() ==> self.names@[i] != ' '
        &&& rules_below(self.rule_list(), self.names@.len())
        &&& ids_below(self.start@, self.names@.len())
    }

    /// A builder with no tokens, no rules and an empty start sequence.
    pub fn new() -> (r: PlantBuilderComponent)
        ensures
            r.wf(),
            r.entries() == Seq::<TokenEntry>::empty(),
            r.rule_list() == Seq::<(usize, Seq<usize>)>::empty(),
            r.start_ids() == Seq::<usize>::empty(),
            r.id_count() == 0,
    {
        let r = PlantBuilderComponent {
            names: Vec::new(),
            tokens: Vec::new(),
            rules: Vec::new(),
            start: Vec::new(),
        };
        proof {
            assert(r.rule_list() =~= Seq::<(usize, Seq<usize>)>::empty());
        }
        r
    }

    /// Registers `token` with `action` under a fresh id, replacing any
    /// earlier registration of `token`; returns the id.
    pub fn add_token(&mut self, token: char, action: Action) -> (id: usize)
        requires
            old(self).wf(),
            token != ' ',
            old(self).id_count() < usize::MAX,
        ensures
            final(self).wf(),
            id == old(self).id_count(),
            forall|c: char| #[trigger]
                lookup(old(self).entries(), c) matches Some(e) ==> e.id < id,
            final(self).id_count() == old(self).id_count() + 1,
            final(self).rule_list() == old(self).rule_list(),
            final(self).start_ids() == old(self).start_ids(),
            forall|c: char| #[trigger]
                lookup(final(self).entries(), c) == if c == token {
                    Some(TokenEntry { symbol: token, id: id, action: action })
                } else {
                    lookup(old(self).entries(), c)
                },
    {
        let id = self.names.len();
        let (mut kept, _) = take_token(&self.tokens, token);
        let e = TokenEntry { symbol: token, id: id, action: action };
        proof {
            assert forall|i: int| 0 <= i < kept@.len() implies kept@[i].id < id by {
                lemma_without_subset(old(self).tokens@, token, i);
            }
            assert forall|c: char| #[trigger]
                lookup(old(self).tokens@, c) matches Some(e) ==> e.id < id by {
                lemma_lookup_member(old(self).tokens@, c);
            }
            lemma_without_distinct(old(self).tokens@, token);
            let k2 = kept@.push(e);
            assert forall|i: int, j: int| 0 <= i < j < k2.len() implies (#[trigger] k2[i]).symbol
                != (#[trigger] k2[j]).symbol && k2[i].id != k2[j].id by {
                if j < kept@.len() {
                    assert(k2[i] == kept@[i] && k2[j] == kept@[j]);
                } else {
                    assert(k2[i] == kept@[i] && k2[j] == e);
                }
            }
            assert forall|c: char| #[trigger] lookup(kept@.push(e), c) == if c == token {
                Some(e)
            } else {
                lookup(old(self).tokens@, c)
            } by {
                assert(kept@.push(e).drop_last() == kept@);
                lemma_lookup_without(old(self).tokens@, token, c);
            }
        }
        kept.push(e);
        self.tokens = kept;
        self.names.push(token);
        proof {
            assert(rules_below(self.rule_list(), self.names@.len())) by {
                assert forall|i: int| 0 <= i < self.rule_list().len() implies (
                #[trigger] self.rule_list()[i]).0 < self.names@.len() && ids_below(
                    self.rule_list()[i].1,
                    self.names@.len(),
                ) by {
                    assert(old(self).rule_list()[i] == self.rule_list()[i]);
                }
            }
        }
        id
    }

    /// Unregisters `token`; returns the id and action it had, if it was registered.
    pub fn remove_token(&mut self, token: char) -> (r: Option<(usize, Action)>)
        requires
            old(self).wf(),
        ensures
            final(self).wf(),
            final(self).id_count() == old(self).id_count(),
            final(self).rule_list() == old(self).rule_list(),
            final(self).start_ids() == old(self).start_ids(),
            r == match lookup(old(self).entries(), token) {
                Some(e) => Some((e.id, e.action)),
                None => None,
            },
            lookup(old(self).entries(), token) is None ==> final(self).entries() == old(
                self,
            ).entries(),
            forall|c: char| #[trigger]
                lookup(final(self).entries(), c) == if c == token {
                    None
                } else {
                    lookup(old(self).entries(), c)
                },
    {
        let (kept, found) = take_token(&self.tokens, token);
        proof {
            assert forall|i: int| 0 <= i < kept@.len() implies kept@[i].id < self.names@.len() by {
                lemma_without_subset(old(self).tokens@, token, i);
            }
            lemma_without_distinct(old(self).tokens@, token);
            assert forall|c: char| #[trigger] lookup(kept@, c) == if c == token {
                None
            } else {
                lookup(old(self).tokens@, c)
            } by {
                lemma_lookup_without(old(self).tokens@, token, c);
            }
            if found is None {
                lemma_without_absent(old(self).tokens@, token);
            }
        }
        self.tokens = kept;
        match found {
            Some(e) => Some((e.id, e.action)),
            None => None,
        }
    }

    /// The id and action of `token`.
    pub fn get_token(&self, token: char) -> (r: Result<(usize, Action), NotFound>)
        ensures
            r == match lookup(self.entries(), token) {
                Some(e) => Ok((e.id, e.action)),
                None => Err(NotFound { symbol: token }),
            },
    {
        match find_token(&self.tokens, token) {
            Some(e) => Ok((e.id, e.action)),
            None => Err(NotFound { symbol: token }),
        }
    }

    /// Starts over with the given registrations, in order: pair `k` gets id
    /// `k`, a later pair of a symbol replaces an earlier one, and the rules
    /// and the start sequence are cleared.
    pub fn set_tokens(&mut self, tokens: &[(char, Action)])
        requires
            forall|i: int| 0 <= i < tokens@.len() ==> (#[trigger] tokens@[i]).0 != ' ',
            tokens@.len() < usize::MAX,
        ensures
            final(self).wf(),
            final(self).id_count() == tokens@.len(),
            final(self).rule_list() == Seq::<(usize, Seq<usize>)>::empty(),
            final(self).start_ids() == Seq::<usize>::empty(),
            forall|c: char| #[trigger]
                lookup(final(self).entries(), c) == registered(tokens@, c),
    {
        *self = PlantBuilderComponent::new();
        let mut i: usize = 0;
        while i < tokens.len()
            invariant
                i <= tokens@.len(),
                tokens@.len() < usize::MAX,
                forall|j: int| 0 <= j < tokens@.len() ==> (#[trigger] tokens@[j]).0 != ' ',
                self.wf(),
                self.id_count() == i,
                self.rule_list() == Seq::<(usize, Seq<usize>)>::empty(),
                self.start_ids() == Seq::<usize>::empty(),
                forall|c: char| #[trigger]
                    lookup(self.entries(), c) == registered(tokens@.take(i as int), c),
            decreases tokens@.len() - i,
        {
            let (token, action) = tokens[i];
            let ghost before = self.entries();
            self.add_token(token, action);
            proof {
                let p = tokens@.take(i + 1);
                assert(p.drop_last() == tokens@.take(i as int));
                assert(p.last() == tokens@[i as int]);
                assert forall|c: char| #[trigger]
                    lookup(self.entries(), c) == registered(p, c) by {
                    assert(lookup(before, c) == registered(tokens@.take(i as int), c));
                }
            }
            i = i + 1;
        }
        proof {
            assert(tokens@.take(i as int) == tokens@);
        }
    }

    /// The ids of `cs`, or the first symbol of `cs` that is not registered.
    fn resolve_symbols(&self, cs: &Vec<char>) -> (r: Result<Vec<usize>, char>)
        requires
            self.wf(),
        ensures
            match resolve(self.entries(), cs@) {
                Ok(ids) => r matches Ok(v) && v@ == ids && ids_below(ids, self.id_count()),
                Err(c) => r == Err::<Vec<usize>, char>(c),
            },
    {
        let mut v: Vec<usize> = Vec::new();
        let mut i: usize = 0;
        proof {
            assert(cs@.take(0) == Seq::<char>::empty());
        }
        while i < cs.len()
            invariant
                self.wf(),
                i <= cs@.len(),
                resolve(self.entries(), cs@.take(i as int)) == Ok::<Seq<usize>, char>(v@),
                ids_below(v@, self.id_count()),
            decreases cs@.len() - i,
        {
            let c = cs[i];
            proof {
                assert(cs@.take(i + 1).drop_last() == cs@.take(i as int));
                assert(cs@.take(i + 1).last() == c);
                lemma_lookup_member(self.tokens@, c);
            }
            match find_token(&self.tokens, c) {
                Some(e) => {
                    v.push(e.id);
                },
                None => {
                    proof {
                        lemma_resolve_prefix_err(self.entries(), cs@, i + 1);
                    }
                    return Err(c);
                },
            }
            i = i + 1;
        }
        proof {
            assert(cs@.take(i as int) == cs@);
        }
        Ok(v)
    }

    /// Parses a rule text and adds the rule it names; on an error the rules
    /// stay as they were.
    pub fn add_rule(&mut self, rule: &str) -> (r: Result<(), RuleError>)
        requires
            old(self).wf(),
        ensures
            final(self).wf(),
            final(self).entries() == old(self).entries(),
            final(self).id_count() == old(self).id_count(),
            final(self).start_ids() == old(self).start_ids(),
            match compile_rule(old(self).entries(), rule@) {
                Ok(p) => r is Ok && final(self).rule_list() == old(self).rule_list().push(p),
                Err(e) => r == Err::<(), RuleError>(e) && final(self).rule_list() == old(
                    self,
                ).rule_list(),
            },
    {
        let (lhs, rhs) = match parse_rule(rule) {
            Ok(p) => p,
            Err(e) => {
                return Err(e);
            },
        };
        proof {
            lemma_lookup_member(self.tokens@, lhs);
        }
        let lhs_id = match find_token(&self.tokens, lhs) {
            Some(e) => e.id,
            None => {
                return Err(RuleError::UnknownToken(lhs));
            },
        };
        let ids = match self.resolve_symbols(&rhs) {
            Ok(v) => v,
            Err(c) => {
                return Err(RuleError::UnknownToken(c));
            },
        };
        let ghost added = (lhs_id, ids@);
        self.rules.push(Rule { lhs: lhs_id, rhs: ids });
        proof {
            assert(self.rule_list() =~= old(self).rule_list().push(added));
            assert(rules_below(self.rule_list(), self.names@.len())) by {
                assert forall|i: int| 0 <= i < self.rule_list().len() implies (
                #[trigger] self.rule_list()[i]).0 < self.names@.len() && ids_below(
                    self.rule_list()[i].1,
                    self.names@.len(),
                ) by {
                    if i < old(self).rule_list().len() {
                        assert(old(self).rule_list()[i] == self.rule_list()[i]);
                    }
                }
            }
        }
        Ok(())
    }

    /// Clears the rules and adds those of `rules` in order, stopping at the
    /// first text that fails; the rules added before it stay.
    pub fn set_rules(&mut self, rules: &[&str]) -> (r: Result<(), SetRulesError>)
        requires
            old(self).wf(),
        ensures
            final(self).wf(),
            final(self).entries() == old(self).entries(),
            final(self).id_count() == old(self).id_count(),
            final(self).start_ids() == old(self).start_ids(),
            ({
                let (added, failed) = compile_rules(
                    old(self).entries(),
                    rules@.map_values(|t: &str| t@),
                );
                &&& final(self).rule_list() == added
                &&& r == match failed {
                    None => Ok(()),
                    Some((i, e)) => Err(SetRulesError { index: i as usize, error: e }),
                }
            }),
    {
        let ghost texts = rules@.map_values(|t: &str| t@);
        self.rules = Vec::new();
        proof {
            assert(self.rule_list() =~= Seq::<(usize, Seq<usize>)>::empty());
            assert(texts.take(0) == Seq::<Seq<char>>::empty());
            assert(rules_below(self.rule_list(), self.names@.len()));
        }
        let mut i: usize = 0;
        while i < rules.len()
            invariant
                i <= rules@.len(),
                texts == rules@.map_values(|t: &str| t@),
                self.wf(),
                self.entries() == old(self).entries(),
                self.id_count() == old(self).id_count(),
                self.start_ids() == old(self).start_ids(),
                compile_rules(self.entries(), texts.take(i as int)) == (
                    self.rule_list(),
                    None::<(nat, RuleError)>,
                ),
            decreases rules@.len() - i,
        {
            proof {
                assert(texts.take(i + 1).drop_last() == texts.take(i as int));
                assert(texts.take(i + 1).last() == rules@[i as int]@);
            }
            match self.add_rule(rules[i]) {
                Ok(()) => {},
                Err(e) => {
                    proof {
                        lemma_compile_rules_prefix_failed(self.entries(), texts, i + 1);
                    }
                    return Err(SetRulesError { index: i, error: e });
                },
            }
            i = i + 1;
        }
        proof {
            assert(texts.take(i as int) == texts);
        }
        Ok(())
    }

    /// Sets the start sequence to the ids of the registered symbols of
    /// `text`, in order; symbols that are not registered are dropped.
    pub fn set_axiom(&mut self, text: &str) -> (r: Result<(), RuleError>)
        requires
            old(self).wf(),
        ensures
            final(self).wf(),
            r is Ok,
            final(self).entries() == old(self).entries(),
            final(self).id_count() == old(self).id_count(),
            final(self).rule_list() == old(self).rule_list(),
            final(self).start_ids() == known_ids(old(self).entries(), text@),
    {
        let cs = crate::rule::chars_of(text);
        let mut ids: Vec<usize> = Vec::new();
        let mut i: usize = 0;
        while i < cs.len()
            invariant
                self.wf(),
                self == old(self),
                i <= cs@.len(),
                ids@ == known_ids(self.entries(), cs@.take(i as int)),
                ids_below(ids@, self.id_count()),
            decreases cs@.len() - i,
        {
            let c = cs[i];
            proof {
                assert(cs@.take(i + 1).drop_last() == cs@.take(i as int));
                assert(cs@.take(i + 1).last() == c);
                lemma_lookup_member(self.tokens@, c);
            }
            match find_token(&self.tokens, c) {
                Some(e) => ids.push(e.id),
                None => {},
            }
            i = i + 1;
        }
        proof {
            assert(cs@.take(i as int) == cs@);
        }
        self.start = ids;
        Ok(())
    }

    /// What `id` rewrites to under the current rules.
    fn production_of(&self, id: usize) -> (r: Vec<usize>)
        ensures
            r@ == production(self.rule_list(), id),
    {
        let mut j: usize = self.rules.len();
        proof {
            assert(self.rule_list().take(j as int) == self.rule_list());
        }
        while j > 0
            invariant
                j <= self.rules@.len(),
                production(self.rule_list(), id) == production(self.rule_list().take(j as int), id),
            decreases j,
        {
            proof {
                assert(self.rule_list().take(j as int).drop_last() == self.rule_list().take(j - 1));
                assert(self.rule_list().take(j as int).last() == self.rule_list()[j - 1]);
            }
            if self.rules[j - 1].lhs == id {
                let rhs = &self.rules[j - 1].rhs;
                let mut out: Vec<usize> = Vec::new();
                let mut k: usize = 0;
                while k < rhs.len()
                    invariant
                        k <= rhs@.len(),
                        out@ == rhs@.take(k as int),
                    decreases rhs@.len() - k,
                {
                    out.push(rhs[k]);
                    k = k + 1;
                    proof {
                        assert(out@ == rhs@.take(k as int));
                    }
                }
                proof {
                    assert(rhs@.take(k as int) == rhs@);
                }
                return out;
            }
            j = j - 1;
        }
        proof {
            assert(self.rule_list().take(0) == Seq::<(usize, Seq<usize>)>::empty());
        }
        vec![id]
    }

    /// Builds the grammar: a rewrite system whose ids are those handed out,
    /// each rewriting by its last rule or to itself, starting from the start
    /// sequence; with the current registrations for resolving actions.
    pub fn generate(&self) -> (p: PlantComponent)
        requires
            self.wf(),
        ensures
            p.wf(),
            p.built_from(*self),
    {
        let mut arena = empty_arena();
        let mut productions: Vec<Vec<usize>> = Vec::new();
        let mut i: usize = 0;
        while i < self.names.len()
            invariant
                self.wf(),
                i <= self.names@.len(),
                crate::engine::arena_len(arena) == i,
                productions@.len() == i,
                forall|j: int| 0 <= j < i ==> (#[trigger] productions@[j])@ == production(
                    self.rule_list(),
                    j as usize,
                ),
            decreases self.names@.len() - i,
        {
            push_token(&mut arena, self.names[i]);
            productions.push(self.production_of(i));
            i = i + 1;
        }
        let mut start: Vec<usize> = Vec::new();
        let mut k: usize = 0;
        while k < self.start.len()
            invariant
                k <= self.start@.len(),
                start@ == self.start@.take(k as int),
            decreases self.start@.len() - k,
        {
            start.push(self.start[k]);
            k = k + 1;
            proof {
                assert(start@ == self.start@.take(k as int));
            }
        }
        proof {
            assert(self.start@.take(k as int) == self.start@);
        }
        let mut action_map: Vec<TokenEntry> = Vec::new();
        let mut t: usize = 0;
        while t < self.tokens.len()
            invariant
                t <= self.tokens@.len(),
                action_map@ == self.tokens@.take(t as int),
            decreases self.tokens@.len() - t,
        {
            action_map.push(self.tokens[t]);
            t = t + 1;
            proof {
                assert(action_map@ == self.tokens@.take(t as int));
            }
        }
        proof {
            assert(self.tokens@.take(t as int) == self.tokens@);
        }
        let structure = new_system(arena, start, productions);
        let p = PlantComponent { structure, action_map };
        proof {
            assert forall|c: char| #[trigger]
                lookup(self.entries(), c) matches Some(e) ==> entry_of_id(p.action_map@, e.id)
                    == Some(e) by {
                lemma_lookup_by_id(self.tokens@, c);
            }
            assert forall|id: usize| #[trigger]
                entry_of_id(p.action_map@, id) matches Some(e) ==> lookup(self.entries(), e.symbol)
                    == Some(e) by {
                lemma_id_by_lookup(self.tokens@, id);
            }
            let m = system_rules(p.structure);
            let n = self.names@.len();
            assert forall|id: usize, j: int|
                m.contains_key(id) && 0 <= j < m[id].len() implies m.contains_key(
                #[trigger] m[id][j],
            ) by {
                lemma_production_below(self.rule_list(), id, n);
            }
        }
        p
    }

    /// Sets the start sequence from `text` and the rules from `rules`, then
    /// builds the grammar; a rule text that fails leaves the rules before it
    /// in place and the grammar is built all the same.
    pub fn rebuild(&mut self, text: &str, rules: &[&str]) -> (p: PlantComponent)
        requires
            old(self).wf(),
        ensures
            final(self).wf(),
            final(self).entries() == old(self).entries(),
            final(self).id_count() == old(self).id_count(),
            final(self).start_ids() == known_ids(old(self).entries(), text@),
            final(self).rule_list() == compile_rules(
                old(self).entries(),
                rules@.map_values(|t: &str| t@),
            ).0,
            p.wf(),
            p.built_from(*final(self)),
    {
        let _ = self.set_axiom(text);
        let _ = self.set_rules(rules);
        self.generate()
    }

    /// The sequence after `iterations` generations of the grammar, starting
    /// from the start sequence.
    pub fn expand(&self, iterations: usize) -> (r: Vec<usize>)
        requires
            self.wf(),
        ensures
            r@ == expand(self.rule_list(), self.start_ids(), iterations as nat),
    {
        let mut p = self.generate();
        let ghost m = system_rules(p.structure);
        p.step_by(iterations);
        proof {
            lemma_iterate_map_agrees(
                m,
                self.rule_list(),
                self.start_ids(),
                self.id_count(),
                iterations as nat,
            );
        }
        p.state()
    }
}

/// Every live registration has an id that the builder handed out, so the
/// next id it hands out is new.
pub proof fn lemma_ids_issued(b: PlantBuilderComponent)
    requires
        b.wf(),
    ensures
        forall|c: char| #[trigger] lookup(b.entries(), c) matches Some(e) ==> e.id < b.id_count(),
{
    assert forall|c: char| #[trigger] lookup(b.entries(), c) matches Some(e) ==> e.id
        < b.id_count() by {
        lemma_lookup_member(b.tokens@, c);
    }
}

impl Default for PlantBuilderComponent {
    fn default() -> (r: PlantBuilderComponent)
        ensures
            r.wf(),
            r.entries() == Seq::<TokenEntry>::empty(),
            r.rule_list() == Seq::<(usize, Seq<usize>)>::empty(),
            r.start_ids() == Seq::<usize>::empty(),
            r.id_count() == 0,
    {
        PlantBuilderComponent::new()
    }
}

} // verus!
