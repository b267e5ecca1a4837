use glam::{EulerRot, Quat, Vec3};
use lsystem_plant::action::{Action, Direction};
use lsystem_plant::plant::PlantBuilderComponent;
use lsystem_plant::turtle::{Move, PlantRendererComponent, Pose, Trace, Vertex};

fn positions(trace: &Trace, segment_length: f32, degrees: f32) -> Vec<Option<Vec3>> {
    let mut poses = vec![(Vec3::ZERO, Quat::IDENTITY)];
    for p in &trace.poses {
        let (pos, rot) = poses[p.base];
        poses.push(match p.step {
            Move::Forward => (pos + (rot * Vec3::Y) * segment_length, rot),
            Move::Turn(d) => {
                let a = degrees.to_radians();
                let (x, y, z) = match d {
                    Direction::XPos => (a, 0.0, 0.0),
                    Direction::XNeg => (-a, 0.0, 0.0),
                    Direction::YPos => (0.0, a, 0.0),
                    Direction::YNeg => (0.0, -a, 0.0),
                    Direction::ZPos => (0.0, 0.0, a),
                    Direction::ZNeg => (0.0, 0.0, -a),
                };
                (pos, rot * Quat::from_euler(EulerRot::XYZ, x, y, z))
            }
        });
    }
    trace
        .verts
        .iter()
        .map(|v| match v {
            Vertex::Point(i) => Some(poses[*i].0),
            Vertex::Break => None,
        })
        .collect()
}

fn close(a: Vec3, b: Vec3) -> bool {
    (a - b).length() < 1e-5
}

#[test]
fn scenario_trace() {
    let mut b = PlantBuilderComponent::new();
    b.set_tokens(&[
        ('X', Action::Nothing),
        ('F', Action::Forwards),
        ('+', Action::Rotate(Direction::XPos)),
        ('[', Action::Push),
        (']', Action::Pop),
    ]);
    b.set_axiom("X").unwrap();
    b.set_rules(&["X=F[+F]F"]).unwrap();
    let mut plant = b.generate();
    let mut renderer = PlantRendererComponent::new();
    let trace = plant.solve(&mut renderer, 1);
    assert_eq!(
        trace.poses,
        vec![
            Pose { base: 0, step: Move::Forward },
            Pose { base: 1, step: Move::Turn(Direction::XPos) },
            Pose { base: 2, step: Move::Forward },
            Pose { base: 1, step: Move::Forward },
        ]
    );
    assert_eq!(
        trace.verts,
        vec![
            Vertex::Point(1),
            Vertex::Point(3),
            Vertex::Break,
            Vertex::Point(1),
            Vertex::Point(4),
        ]
    );
    let pts = positions(&trace, 1.0, 90.0);
    assert_eq!(pts.len(), 5);
    assert!(close(pts[0].unwrap(), Vec3::new(0.0, 1.0, 0.0)));
    assert!(close(pts[1].unwrap(), Vec3::new(0.0, 1.0, 1.0)));
    assert!(pts[2].is_none());
    assert!(close(pts[3].unwrap(), Vec3::new(0.0, 1.0, 0.0)));
    assert!(close(pts[4].unwrap(), Vec3::new(0.0, 2.0, 0.0)));
}

#[test]
fn nothing_emits_current_point() {
    let mut r = PlantRendererComponent::new();
    let t = r.generate_verts(&[Action::Nothing, Action::Forwards, Action::Nothing]);
    assert_eq!(t.verts, vec![Vertex::Point(0), Vertex::Point(1), Vertex::Point(1)]);
    assert_eq!(t.poses, vec![Pose { base: 0, step: Move::Forward }]);
}

#[test]
fn rotation_emits_no_point() {
    let mut r = PlantRendererComponent::new();
    let t = r.generate_verts(&[Action::Rotate(Direction::ZNeg)]);
    assert!(t.verts.is_empty());
    assert_eq!(t.poses, vec![Pose { base: 0, step: Move::Turn(Direction::ZNeg) }]);
    assert_eq!(r.state.cursor, 1);
}

#[test]
fn unmatched_pop_is_ignored() {
    let mut r = PlantRendererComponent::new();
    let t = r.generate_verts(&[Action::Pop, Action::Pop]);
    assert!(t.verts.is_empty());
    assert!(t.poses.is_empty());
    assert_eq!(r.state.cursor, 0);
    let t = r.generate_verts(&[Action::Pop, Action::Forwards]);
    assert_eq!(t.verts, vec![Vertex::Point(1)]);
}

#[test]
fn balanced_branches_restore_cursor() {
    let mut r = PlantRendererComponent::new();
    let acts = [
        Action::Forwards,
        Action::Push,
        Action::Rotate(Direction::YPos),
        Action::Push,
        Action::Forwards,
        Action::Pop,
        Action::Forwards,
        Action::Pop,
        Action::Forwards,
    ];
    let t = r.generate_verts(&acts);
    let breaks = t.verts.iter().filter(|v| **v == Vertex::Break).count();
    assert_eq!(breaks, 2);
    assert_eq!(
        t.verts,
        vec![
            Vertex::Point(1),
            Vertex::Point(3),
            Vertex::Break,
            Vertex::Point(2),
            Vertex::Point(4),
            Vertex::Break,
            Vertex::Point(1),
            Vertex::Point(5),
        ]
    );
    assert!(r.state.states.is_empty());
}

#[test]
fn each_run_starts_afresh() {
    let mut r = PlantRendererComponent::new();
    r.generate_verts(&[Action::Forwards, Action::Push, Action::Push]);
    assert_eq!(r.state.states.len(), 2);
    let t = r.generate_verts(&[Action::Pop]);
    assert!(t.verts.is_empty());
}

#[test]
fn render_state_stack() {
    let mut s = lsystem_plant::turtle::RenderState::new();
    assert_eq!(s.pop(), None);
    s.push(3);
    s.push(5);
    assert_eq!(s.pop(), Some(5));
    assert_eq!(s.pop(), Some(3));
    assert_eq!(s.pop(), None);
}
