use battle_arena::actions::Action;
use battle_arena::replay::{ReplayMapConfig, ReplayPlayer, ReplayRecorder};
use battle_arena::units::Team;
use battle_arena::victory::GameOutcome;

#[test]
fn ids_assigned_in_order_of_first_appearance() {
    let mut r = ReplayRecorder::new(5);
    assert_eq!(r.get_or_assign_id(40), 0);
    assert_eq!(r.get_or_assign_id(17), 1);
    assert_eq!(r.get_or_assign_id(40), 0);
    assert_eq!(r.get_or_assign_id(3), 2);
    assert_eq!(r.get_or_assign_id(17), 1);
}

#[test]
fn empty_turn_leaves_no_frame() {
    let mut r = ReplayRecorder::new(5);
    r.end_turn(1, 0);
    r.record_action(8, Team::Red, Action::Stay);
    r.end_turn(2, 0);
    r.end_turn(3, 0);
    let f = r.replay_file(ReplayMapConfig { width: 20, height: 15, units_per_team: 6 }, None);
    assert_eq!(f.frames.len(), 1);
    assert_eq!(f.frames[0].turn, 2);
}

#[test]
fn recorded_turns_round_trip_frame_for_frame() {
    let turns: Vec<(u32, Vec<(u32, Team, Action)>)> = vec![
        (1, vec![(100, Team::Red, Action::Move(0, 1)), (200, Team::Blue, Action::Stay)]),
        (2, vec![(200, Team::Blue, Action::Move(-1, 1)), (100, Team::Red, Action::Move(1, 0)), (300, Team::Red, Action::Stay)]),
        (3, vec![(300, Team::Red, Action::Move(0, -1))]),
    ];
    let mut r = ReplayRecorder::new(99);
    for (turn, acts) in &turns {
        for &(e, t, a) in acts {
            r.record_action(e, t, a);
        }
        r.end_turn(*turn, 0);
    }
    let map = ReplayMapConfig { width: 20, height: 15, units_per_team: 6 };
    let file = r.replay_file(map, Some(GameOutcome::RedWins));
    assert_eq!(file.initial_seed, 99);
    assert_eq!(file.map_config, map);
    assert_eq!(file.final_outcome, Some(GameOutcome::RedWins));
    let handle_of = [100u32, 200, 300];
    let mut player = ReplayPlayer::from_file(file);
    for (turn, acts) in &turns {
        let f = player.get_next_frame().unwrap();
        assert_eq!(f.turn, *turn);
        assert_eq!(f.rng_seed, 0);
        assert_eq!(f.actions.len(), acts.len());
        for (ra, &(e, t, a)) in f.actions.iter().zip(acts.iter()) {
            assert_eq!(handle_of[ra.entity_id as usize], e);
            assert_eq!(ra.team, t);
            assert_eq!(ra.action, a);
        }
    }
    assert!(player.get_next_frame().is_none());
    assert!(player.get_next_frame().is_none());
    player.reset();
    assert_eq!(player.get_next_frame().unwrap().turn, 1);
}
