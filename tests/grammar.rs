use lsystem_plant::action::{Action, Direction};
use lsystem_plant::events::{default_tokens, GameEvent};
use lsystem_plant::plant::{NotFound, PlantBuilderComponent, SetRulesError};
use lsystem_plant::rule::{parse_rule, RuleError};

fn scenario_builder() -> PlantBuilderComponent {
    let mut b = PlantBuilderComponent::new();
    b.set_tokens(&[
        ('X', Action::Nothing),
        ('F', Action::Forwards),
        ('+', Action::Rotate(Direction::XPos)),
        ('[', Action::Push),
        (']', Action::Pop),
    ]);
    b
}

#[test]
fn ids_follow_registration_order() {
    let b = scenario_builder();
    assert_eq!(b.get_token('X'), Ok((0, Action::Nothing)));
    assert_eq!(b.get_token('F'), Ok((1, Action::Forwards)));
    assert_eq!(b.get_token(']'), Ok((4, Action::Pop)));
    assert_eq!(b.get_token('Q'), Err(NotFound { symbol: 'Q' }));
}

#[test]
fn later_duplicate_overwrites_earlier() {
    let mut b = PlantBuilderComponent::new();
    b.set_tokens(&[('A', Action::Nothing), ('B', Action::Push), ('A', Action::Forwards)]);
    assert_eq!(b.get_token('A'), Ok((2, Action::Forwards)));
    assert_eq!(b.get_token('B'), Ok((1, Action::Push)));
}

#[test]
fn reregistering_gives_a_fresh_id() {
    let mut b = scenario_builder();
    let id = b.add_token('F', Action::Nothing);
    assert_eq!(id, 5);
    assert_eq!(b.get_token('F'), Ok((5, Action::Nothing)));
}

#[test]
fn remove_token_reports_the_entry() {
    let mut b = scenario_builder();
    assert_eq!(b.remove_token('F'), Some((1, Action::Forwards)));
    assert_eq!(b.remove_token('F'), None);
    assert_eq!(b.get_token('F'), Err(NotFound { symbol: 'F' }));
    assert_eq!(b.get_token('X'), Ok((0, Action::Nothing)));
}

#[test]
fn parse_rule_shapes() {
    let (l, r) = parse_rule("X=F[+F]F").unwrap();
    assert_eq!(l, 'X');
    assert_eq!(r, vec!['F', '[', '+', 'F', ']', 'F']);
    let (l, r) = parse_rule("  X  =  F F\t+ ").unwrap();
    assert_eq!(l, 'X');
    assert_eq!(r, vec!['F', 'F', '+']);
    let (l, r) = parse_rule("X=").unwrap();
    assert_eq!(l, 'X');
    assert!(r.is_empty());
    assert_eq!(parse_rule("XF"), Err(RuleError::Malformed));
    assert_eq!(parse_rule("=F"), Err(RuleError::Malformed));
    assert_eq!(parse_rule("   "), Err(RuleError::Malformed));
    assert_eq!(parse_rule(""), Err(RuleError::Malformed));
    assert_eq!(parse_rule("XY=F"), Err(RuleError::Malformed));
}

#[test]
fn scenario_expansion() {
    let mut b = scenario_builder();
    b.set_axiom("X").unwrap();
    b.set_rules(&["X=F[+F]F"]).unwrap();
    // F [ + F ] F
    assert_eq!(b.expand(1), vec![1, 3, 2, 1, 4, 1]);
}

#[test]
fn expansion_is_deterministic() {
    let mut b = scenario_builder();
    b.set_axiom("X").unwrap();
    b.set_rules(&["X=F[+X]FX", "F=FF"]).unwrap();
    let first = b.expand(3);
    let second = b.expand(3);
    assert_eq!(first, second);
    assert!(first.len() > 1);
}

#[test]
fn zero_iterations_give_the_start() {
    let mut b = scenario_builder();
    b.set_axiom("XFX").unwrap();
    b.set_rules(&["X=F[+F]F"]).unwrap();
    assert_eq!(b.expand(0), vec![0, 1, 0]);
}

#[test]
fn terminal_symbols_stay() {
    let mut b = scenario_builder();
    b.set_axiom("FX+").unwrap();
    b.set_rules(&["X=XX"]).unwrap();
    assert_eq!(b.expand(1), vec![1, 0, 0, 2]);
    assert_eq!(b.expand(2), vec![1, 0, 0, 0, 0, 2]);
}

#[test]
fn later_rule_replaces_earlier() {
    let mut b = scenario_builder();
    b.set_axiom("X").unwrap();
    b.add_rule("X=F").unwrap();
    b.add_rule("X=++").unwrap();
    assert_eq!(b.expand(1), vec![2, 2]);
}

#[test]
fn unknown_token_rule_is_rejected() {
    let mut b = scenario_builder();
    b.set_axiom("X").unwrap();
    b.add_rule("X=F").unwrap();
    assert_eq!(b.add_rule("X=FQ"), Err(RuleError::UnknownToken('Q')));
    assert_eq!(b.add_rule("Q=F"), Err(RuleError::UnknownToken('Q')));
    assert_eq!(b.add_rule("X=Z+Q"), Err(RuleError::UnknownToken('Z')));
    assert_eq!(b.expand(1), vec![1]);
}

#[test]
fn set_rules_stops_at_first_failure() {
    let mut b = scenario_builder();
    b.set_axiom("X").unwrap();
    b.add_rule("F=FF").unwrap();
    let r = b.set_rules(&["X=F+", "X", "X=FF"]);
    assert_eq!(r, Err(SetRulesError { index: 1, error: RuleError::Malformed }));
    // the earlier rule for F is gone, the first of the batch stays
    assert_eq!(b.expand(2), vec![1, 2]);
}

#[test]
fn axiom_drops_unknown_symbols() {
    let mut b = scenario_builder();
    assert!(b.set_axiom("XQFZ").is_ok());
    assert_eq!(b.expand(0), vec![0, 1]);
}

#[test]
fn removed_token_is_skipped_in_actions() {
    let mut b = scenario_builder();
    b.set_axiom("XF").unwrap();
    b.remove_token('X');
    let plant = b.generate();
    assert_eq!(plant.state(), vec![0, 1]);
    assert_eq!(plant.render_actions(), vec![Action::Forwards]);
}

#[test]
fn step_by_advances_the_state() {
    let mut b = scenario_builder();
    b.set_axiom("X").unwrap();
    b.set_rules(&["X=FX"]).unwrap();
    let mut plant = b.generate();
    assert_eq!(plant.state(), vec![0]);
    plant.step_by(2);
    assert_eq!(plant.state(), vec![1, 1, 0]);
    assert_eq!(
        plant.render_actions(),
        vec![Action::Forwards, Action::Forwards, Action::Nothing]
    );
}

#[test]
fn new_plant_has_default_tokens() {
    let b = PlantBuilderComponent::new_plant();
    assert_eq!(default_tokens().len(), 10);
    assert_eq!(b.get_token('X'), Ok((0, Action::Nothing)));
    assert_eq!(b.get_token('v'), Ok((7, Action::Rotate(Direction::ZNeg))));
    assert_eq!(b.get_token(']'), Ok((9, Action::Pop)));
    assert_eq!(b.expand(0), vec![0]);
}

#[test]
fn default_options_grow() {
    let mut b = PlantBuilderComponent::new_plant();
    b.set_rules(&["X=[+F][^F][-F][vF]FX", "F=FX"]).unwrap();
    assert_eq!(
        b.expand(1),
        vec![8, 2, 1, 9, 8, 6, 1, 9, 8, 3, 1, 9, 8, 7, 1, 9, 1, 0]
    );
}

#[test]
fn token_events() {
    let mut b = scenario_builder();
    assert!(!b.apply_event(GameEvent::TriggerUpdate));
    assert!(!b.apply_event(GameEvent::ChangeToken { prev: 'Q', next: 'R' }));
    assert!(b.apply_event(GameEvent::ChangeToken { prev: 'F', next: 'G' }));
    assert_eq!(b.get_token('F'), Err(NotFound { symbol: 'F' }));
    assert_eq!(b.get_token('G'), Ok((5, Action::Forwards)));
    assert!(b.apply_event(GameEvent::ChangeAction { token: 'G', action: Action::Push }));
    assert_eq!(b.get_token('G'), Ok((6, Action::Push)));
    assert!(!b.apply_event(GameEvent::ChangeAction { token: 'Q', action: Action::Push }));
    assert!(b.apply_event(GameEvent::AddToken { token: 'Q', action: Action::Pop }));
    assert_eq!(b.get_token('Q'), Ok((7, Action::Pop)));
    assert!(b.apply_event(GameEvent::RemoveToken { token: 'Q' }));
    assert!(b.apply_event(GameEvent::RemoveToken { token: 'Q' }));
    assert_eq!(b.get_token('Q'), Err(NotFound { symbol: 'Q' }));
}

#[test]
fn labels() {
    assert_eq!(Action::Nothing.label(), "Do nothing");
    assert_eq!(Action::Forwards.label(), "Move forwards");
    assert_eq!(Action::Rotate(Direction::ZPos).label(), "Rotate up");
    assert_eq!(Action::Rotate(Direction::XNeg).label(), "Rotate left");
    assert_eq!(Action::Push.label(), "Push transform");
    assert_eq!(Action::Pop.label(), "Pop transform");
    assert_eq!(Direction::YNeg.label(), "back");
}

#[test]
fn zero_steps_render_the_start_actions() {
    let mut b = PlantBuilderComponent::default();
    b.set_tokens(&[('X', Action::Nothing), ('F', Action::Forwards)]);
    b.set_axiom("XQF").unwrap();
    b.set_rules(&["X=XX"]).unwrap();
    let mut p = b.generate();
    p.step_by(0);
    assert_eq!(p.render_actions(), vec![Action::Nothing, Action::Forwards]);
}

#[test]
fn terminal_keeps_its_action() {
    let mut b = PlantBuilderComponent::default();
    b.set_tokens(&[('X', Action::Nothing), ('F', Action::Forwards)]);
    b.set_axiom("XF").unwrap();
    b.set_rules(&["X=XX"]).unwrap();
    let mut p = b.generate();
    p.step_by(2);
    assert_eq!(
        p.render_actions(),
        vec![Action::Nothing, Action::Nothing, Action::Nothing, Action::Nothing, Action::Forwards]
    );
}

#[test]
fn scenario_renders_actions() {
    let mut b = scenario_builder();
    let mut p = b.rebuild("X", &["X=F[+F]F"]);
    p.step_by(1);
    assert_eq!(
        p.render_actions(),
        vec![
            Action::Forwards,
            Action::Push,
            Action::Rotate(Direction::XPos),
            Action::Forwards,
            Action::Pop,
            Action::Forwards,
        ]
    );
}

#[test]
fn rebuild_keeps_rules_before_a_failure() {
    let mut b = scenario_builder();
    let p = b.rebuild("XQ", &["X=F", "X=Q", "F=FF"]);
    assert_eq!(p.state(), vec![0]);
    assert_eq!(b.expand(1), vec![1]);
}

#[test]
fn new_ids_are_fresh() {
    let mut b = scenario_builder();
    b.remove_token('X');
    let id = b.add_token('Y', Action::Nothing);
    assert_eq!(id, 5);
    for c in ['F', '+', '[', ']'] {
        assert_ne!(b.get_token(c).unwrap().0, id);
    }
}
