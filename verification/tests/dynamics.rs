//! The decisions of the ball and robot dynamics analysis.

use ssl_sim::double::Double;
use ssl_sim::logtool::dynamics::chips;
use ssl_sim::logtool::dynamics::chips::{BounceFact, FitSample, HopFact, Run, Takeoff};
use ssl_sim::logtool::dynamics::collisions;
use ssl_sim::logtool::dynamics::collisions::{
    Change, ContactFact, Outcome, Surface, Wall, WallFact,
};
use ssl_sim::logtool::dynamics::dribble;
use ssl_sim::logtool::dynamics::dribble::{Dribbling, End, Held, HeldFact, NearSample, Pool};
use ssl_sim::logtool::dynamics::kicks;
use ssl_sim::logtool::dynamics::kicks::{Departure, KickFact, Local, Onset, ProfileSample};
use ssl_sim::logtool::dynamics::load;
use ssl_sim::logtool::dynamics::load::{SourceFrame, SourceInfo, Team, TeamNames};
use ssl_sim::logtool::dynamics::robots;
use ssl_sim::logtool::dynamics::robots::{Reach, SpeedAccel, StepSample, Use};
use ssl_sim::logtool::dynamics::rolling;
use ssl_sim::logtool::dynamics::rolling::{EpisodeFact, RollSample, Stretch};
use ssl_sim::logtool::dynamics::stats;
use ssl_sim::logtool::dynamics::stats::{Binned, Histogram};
use ssl_sim::logtool::dynamics::track;
use ssl_sim::logtool::dynamics::track::{Candidates, NearRobot, Prediction, Surroundings, WindowStep};

fn d(x: f64) -> Double {
    Double::from_bits(x.to_bits())
}

fn ds(v: &[f64]) -> Vec<Double> {
    v.iter().map(|x| d(*x)).collect()
}

// ---------------------------------------------------------------- stats

#[test]
fn numbers_are_sorted_and_partitioned() {
    let v = ds(&[3.0, 1.0, 2.0, 2.0]);
    let s = stats::sorted(&v);
    assert_eq!(s, ds(&[1.0, 2.0, 2.0, 3.0]));
    let odd = ds(&[2.0, f64::INFINITY, f64::NAN, 1.0, f64::NEG_INFINITY]);
    assert_eq!(stats::sorted(&odd), ds(&[f64::NEG_INFINITY, 1.0, 2.0, f64::INFINITY]));
    assert_eq!(stats::order(&v), vec![1, 2, 3, 0]);
    assert_eq!(stats::partition_point(&s, d(2.0), false), 1);
    assert_eq!(stats::partition_point(&s, d(2.0), true), 3);
    assert_eq!(stats::median_of(&v), d(2.0));
    assert_eq!(stats::distinct(&vec![4, 2, 4, 1]), vec![1, 2, 4]);
    assert_eq!(stats::dedup(&ds(&[1.0, 1.0, 2.0, 1.0])), vec![0, 2, 3]);
    assert_eq!(stats::places(&vec![true, false, true]), vec![0, 2]);
}

#[test]
fn histograms_hold_every_number() {
    let at = |x: f64, bin: usize| Binned { x: d(x), bin };
    let v = vec![at(-1.0, 0), at(0.0, 0), at(0.5, 1), at(0.9, 1), at(1.0, 9), at(3.0, 9)];
    let h = Histogram::new(&v, d(0.0), d(1.0), 2);
    assert_eq!((h.counts.clone(), h.below, h.above), (vec![1, 2], 1, 2));
    assert_eq!(h.bars(10), vec![5, 10]);
}

// ----------------------------------------------------------------- load

#[test]
fn games_teams_and_competitions_are_named() {
    assert_eq!(load::game_name("2026-03-01_A-vs-B.log"), "2026-03-01_A-vs-B");
    assert_eq!(load::competition_of("2026-03-01_A"), "GO26");
    assert_eq!(load::competition_of("2026-07-01_A"), "RC26");
    assert_eq!(load::competition_of("2025-07-01_A"), "other");
    assert_eq!(load::team_of(1), Team::Yellow);
    assert_eq!(load::team_of(2), Team::Blue);
    let mut names = TeamNames::new();
    names.observe("Immortals", "TIGERs Mannheim");
    assert_eq!(names.of(Team::Blue), "TIGERs Mannheim");
    assert!(names.team_key(Team::Yellow, "GO26").contains("Immortals"));
    assert!(load::contains("TIGERs", "GER") && !load::contains("TIGERs", "ger"));
    assert!(load::contains("x", "") && load::starts_with("abc", "ab"));
}

#[test]
fn kick_events_decide_between_sources() {
    let source = |name: &str, kicks: u64, heights: u64, frames: u64| {
        let mut s = SourceInfo::new(name, d(0.0));
        s.frames = frames;
        s.frames_with_kick = kicks;
        s.frames_with_ball_z = heights;
        s
    };
    let list = vec![source("AutoRef", 0, 9, 9), source("TIGERs", 1, 2, 9), source("X", 1, 2, 9)];
    assert_eq!(load::choose_source(&list, None), Some(2));
    assert_eq!(load::choose_source(&list, Some("GER")), Some(1));
    assert_eq!(load::choose_source(&list, Some("nobody")), Some(2));
    assert_eq!(load::choose_source(&Vec::new(), None), None);
    let mut s = SourceInfo::new("s", d(1.0));
    assert_eq!((s.t_first, s.t_last, s.frames), (d(1.0), d(1.0), 0));
    let frame = SourceFrame { t: d(2.0), ball_z: Some(d(0.5)), ball_vel: true, robot_vel: false, kick: true };
    s.observe(frame, &vec![1, 2]);
    assert_eq!(
        (s.frames, s.frames_with_ball_z, s.frames_with_ball_vel, s.frames_with_robot_vel, s.frames_with_kick),
        (1, 1, 1, 0, 1)
    );
    assert_eq!((s.t_first, s.t_last), (d(1.0), d(2.0)));
}

#[test]
fn commands_hold_until_the_next_one() {
    let times = ds(&[1.0, 2.0]);
    let commands = vec![0, 3];
    assert_eq!(load::command_at(&times, &commands, d(0.5)), None);
    assert_eq!(load::command_at(&times, &commands, d(1.0)), Some(0));
    assert_eq!(load::command_at(&times, &commands, d(5.0)), Some(3));
    assert!(!load::running(Some(0)) && !load::not_halted(Some(0)));
    assert!(load::running(Some(3)) && load::not_halted(Some(3)));
    assert!(!load::running(Some(1)) && load::not_halted(Some(1)), "stopped, not halted");
    assert_eq!(load::bracket(&ds(&[1.0, 2.0, 3.0]), d(2.5)), Some(2));
    assert_eq!(load::bracket(&ds(&[1.0, 2.0, 3.0]), d(3.5)), None);
    assert_eq!(load::best_offset(&ds(&[3.0, 1.0, 1.0])), Some(1));
}

// ---------------------------------------------------------------- track

#[test]
fn the_ball_is_searched_where_it_was_last_seen() {
    assert_eq!(track::prediction(Some(d(0.05)), Some(d(0.01))), Prediction::SameCamera);
    assert_eq!(track::prediction(Some(d(0.5)), Some(d(0.2))), Prediction::AnyCamera);
    assert_eq!(track::prediction(None, Some(d(2.0))), Prediction::Stale);
    assert_eq!(track::prediction(None, None), Prediction::Nothing);
    assert_eq!(track::nearest_passing(&ds(&[3.0, 1.0, 1.0]), Some(d(2.0))), Some(1));
    assert_eq!(track::nearest_passing(&ds(&[3.0]), Some(d(2.0))), None);
    assert_eq!(track::nearest_passing(&ds(&[3.0]), None), Some(0));
    assert_eq!(track::nearest_passing(&ds(&[f64::NAN]), None), Some(0));
    assert_eq!(track::largest_ball(&vec![None, Some(5), Some(9), Some(9)]), Some(3));
    let c = Candidates {
        same_age: Some(d(0.05)),
        any_age: Some(d(0.05)),
        from_same: ds(&[0.5, 0.1]),
        same_gate: d(0.3),
        from_any: ds(&[0.0, 0.1]),
        any_gate: d(1.0),
        areas: vec![None, None],
    };
    assert_eq!(track::choose_ball(&c), Some(1));
    assert_eq!(track::choose_ball(&Candidates { same_age: None, ..c.clone() }), Some(0));
    assert_eq!(track::choose_ball(&Candidates { same_gate: d(0.05), ..c }), None);
}

#[test]
fn stale_robots_are_not_near() {
    let at = |age: f64, dist: f64| NearRobot { age: d(age), dist: d(dist) };
    assert_eq!(track::nearest_present(&vec![at(0.5, 0.1), at(0.05, 0.4), at(0.05, 0.2)]), Some(2));
    assert_eq!(track::nearest_present(&vec![at(0.5, 0.1)]), None);
    assert_eq!(track::reach(&ds(&[1.0, 2.0, 3.0]), 0, d(2.0)), 1);
    assert!(track::is_dual(2, Some(1), d(0.001)) && !track::is_dual(1, Some(1), d(0.001)));
    assert_eq!(track::height_from(Some(d(0.01)), Some(d(0.02))), Some(true));
    assert_eq!(track::height_from(None, None), None);
}

#[test]
fn velocities_span_neighbours_of_the_same_camera() {
    assert_eq!(track::neighbour(&vec![2, 1, 1], &ds(&[0.01, 0.02, 0.03]), 1), Some(1));
    assert_eq!(track::neighbour(&vec![2, 2], &ds(&[0.01, 0.02]), 1), None);
    assert_eq!(track::neighbour(&vec![1], &ds(&[0.06]), 1), Some(0));
    assert_eq!(track::neighbour(&vec![1], &ds(&[0.07]), 1), None);
    assert_eq!(track::span(4, Some(2), Some(5)), Some((2, 5)));
    assert_eq!(track::span(4, None, Some(5)), Some((4, 5)));
    assert_eq!(track::span(4, Some(2), None), Some((2, 4)));
    assert_eq!(track::span(4, None, None), None);
    let s = Surroundings {
        cams_before: vec![1],
        gaps_before: ds(&[0.01]),
        cams_after: vec![2, 1],
        gaps_after: ds(&[0.01, 0.02]),
    };
    assert_eq!(track::velocity_span(&s, 1, 1, 4), Some((0, 3)));
    assert_eq!(track::previous_same_camera(&vec![1, 2, 1], 2, 8), Some(0));
    assert_eq!(track::next_moving(&vec![1, 2, 1], &vec![true, true, true], 0, 8), Some(2));
    assert_eq!(track::next_moving(&vec![1, 2, 1], &vec![true, true, false], 0, 8), None);
}

#[test]
fn poses_are_taken_around_an_instant() {
    let times = ds(&[1.0, 2.0, 3.0]);
    assert_eq!(track::around(&times, d(2.2)), Some((1, 2)));
    assert_eq!(track::nearer(1, 2, d(0.2), d(0.8)), 1);
    assert_eq!(track::nearer(1, 2, d(0.9), d(0.8)), 2);
    assert!(track::pose_known(d(0.01)) && !track::pose_known(d(1.0)));
    assert_eq!(track::other_side(1, 3, true), Some(2));
    assert_eq!(track::other_side(1, 3, false), Some(0));
    assert_eq!(track::other_side(2, 3, true), None);
    let step = |gap: f64, dist: f64| WindowStep { gap: d(gap), dist: d(dist), turn: d(0.0) };
    assert!(track::is_smooth(&vec![step(0.01, 0.01), step(0.01, 0.01)]));
    assert!(!track::is_smooth(&vec![step(0.01, 5.0)]));
    assert!(!track::is_smooth(&vec![step(0.5, 0.01)]));
}

// ---------------------------------------------------------------- kicks

#[test]
fn kicks_closer_than_the_separation_are_refinements() {
    // Starts at 0.0, 0.1 and 1.0: the second replaces the first.
    assert_eq!(kicks::tracker_kicks(&ds(&[9.0, 0.1, 0.9])), vec![1, 2]);
    assert_eq!(kicks::third_same_camera(&vec![1, 2, 1, 1, 1], &vec![true; 5], 0), Some(4));
    assert!(kicks::is_matched(&ds(&[0.5, 0.1])) && !kicks::is_matched(&ds(&[0.5])));
    assert!(kicks::may_be_kicked(true, d(0.1)) && !kicks::may_be_kicked(false, d(0.1)));
    assert!(!kicks::may_be_kicked(true, d(0.5)));
    let onset = Onset { span: d(0.03), jump: d(2.0), lx: d(0.1), ly: d(0.0) };
    assert!(kicks::kick_starts(onset, None));
    assert!(kicks::kick_starts(onset, Some(d(1.0))));
    assert!(!kicks::kick_starts(onset, Some(d(0.1))));
    assert!(!kicks::kick_starts(Onset { jump: d(0.5), ..onset }, None));
    assert!(!kicks::kick_starts(Onset { jump: d(1.0), ..onset }, None));
    assert!(!kicks::kick_starts(Onset { ly: d(0.2), ..onset }, None));
}

#[test]
fn the_peak_of_a_kick_is_its_highest_speed() {
    let at = |early: bool, v: f64| ProfileSample { early, v: d(v) };
    let profile = vec![at(true, 9.0), at(false, 1.0), at(false, 5.0), at(false, 5.0)];
    assert_eq!(kicks::find_peak(&profile), Some(2));
    assert_eq!(kicks::find_peak(&vec![at(true, 1.0), at(false, 0.0)]), None);
    assert_eq!(kicks::rise(&ds(&[0.1, 2.0, 5.0]), d(0.5), d(4.0)), Some((0, 2)));
    assert_eq!(kicks::rise(&ds(&[0.1, 2.0]), d(0.5), d(4.0)), None);
    let gone = |cam: u32, dist: f64| Departure { cam, dist: d(dist) };
    let s = vec![gone(1, 0.2), gone(2, 0.3), gone(2, 0.4), gone(2, 0.05), gone(2, 0.5), gone(2, 0.6)];
    assert_eq!(kicks::best_camera(&s), Some(2));
    assert_eq!(kicks::direction_samples(&s, 2), vec![1, 2, 4, 5]);
}

fn kick(vz: f64) -> KickFact {
    KickFact {
        vz: d(vz),
        v_tracker: d(5.0),
        v_peak_raw: d(5.1),
        v_in_speed: Some(d(0.05)),
        v_in_normal: Some(d(0.05)),
        ball_local: Some(Local { x: d(0.1), y: d(0.0) }),
    }
}

#[test]
fn kicks_are_straight_or_chips() {
    let list = vec![kick(0.0), kick(1.0), KickFact { v_in_speed: Some(d(1.0)), ..kick(0.0) }];
    assert_eq!(kicks::select_kicks(&list, kicks::Selection::Straight), vec![0, 2]);
    assert_eq!(kicks::select_kicks(&list, kicks::Selection::Chip), vec![1]);
    assert_eq!(kicks::select_kicks(&list, kicks::Selection::Clean), vec![0]);
    assert!(list[1].is_chip() && !list[0].is_chip());
    assert!(list[0].is_clean() && !list[2].is_clean() && !list[1].is_clean());
}

// ---------------------------------------------------------------- chips

#[test]
fn flights_are_runs_of_airborne_frames() {
    let z = |v: f64| Some(d(v));
    let heights = vec![z(0.0), z(0.1), z(0.2), z(0.0), None, z(0.3)];
    let runs = chips::airborne_runs(&heights);
    assert_eq!(runs, vec![Run { first: 1, last: 2 }, Run { first: 5, last: 5 }]);
    assert_eq!(chips::merge_runs(&runs, &ds(&[0.0, 0.1])), vec![Run { first: 1, last: 5 }]);
    assert_eq!(chips::merge_runs(&runs, &ds(&[0.0, 0.5])), runs);
    assert_eq!(chips::find_flights(&runs, &ds(&[0.0, 0.1])), vec![Run { first: 1, last: 5 }]);
    assert!(chips::find_flights(&runs, &ds(&[0.0, 0.5])).is_empty(), "too short");
}

#[test]
fn bounces_lie_inside_a_flight() {
    let z = ds(&[0.1, 0.3, 0.2, 0.01, 0.2, 0.3, 0.05]);
    let raised: Vec<Double> = ds(&[0.13, 0.33, 0.23, 0.04, 0.23, 0.33, 0.08]);
    let found = chips::find_bounces(&z, &raised, Run { first: 0, last: 6 });
    assert_eq!(found, vec![3]);
    assert_eq!(chips::frames_around(3, 7), Some((0, 6)));
    assert_eq!(chips::frames_around(3, 6), None);
    assert_eq!(chips::bounce_class(0), None);
    assert_eq!(chips::bounce_class(1), Some(true), "the first one after the kick");
    assert_eq!(chips::bounce_class(2), Some(false));
}

#[test]
fn the_takeoff_is_the_nearest_kick() {
    let at = |eligible: bool, apart: f64| Takeoff { eligible, apart: d(apart) };
    assert_eq!(chips::nearest_takeoff(&vec![at(true, 0.2), at(false, 0.0), at(true, 0.1)]), Some(2));
    assert_eq!(chips::nearest_takeoff(&vec![at(false, 0.0)]), None);
    assert!(chips::kick_takes_off(d(1.0), d(0.1)).eligible);
    assert!(!chips::kick_takes_off(d(0.1), d(0.1)).eligible, "a straight kick");
    assert!(!chips::kick_takes_off(d(1.0), d(0.5)).eligible, "too far away");
}

#[test]
fn fits_need_samples_and_must_be_good() {
    let at = |t: f64, dist: f64| FitSample { t: d(t), dist: d(dist) };
    let s: Vec<FitSample> = (0..8).map(|i| at(i as f64, 0.01)).collect();
    assert_eq!(chips::keep_samples(&s, d(1.0), d(6.0), d(0.1)).unwrap(), vec![1, 2, 3, 4, 5, 6]);
    assert_eq!(chips::keep_samples(&s, d(1.0), d(3.0), d(0.1)), None);
    assert!(chips::enough_samples(6) && !chips::enough_samples(5));
    assert!(chips::accepts_fit(d(0.5), d(0.001)) && !chips::accepts_fit(d(0.5), d(0.5)));
    assert!(!chips::accepts_fit(d(0.01), d(0.001)), "too short a hop");
    assert!(chips::rises_at_all(d(1.0)) && !chips::rises_at_all(d(0.0)));
    assert!(chips::fits_meet(d(0.01), d(0.01), d(1.0)));
    assert!(!chips::fits_meet(d(1.0), d(0.01), d(1.0)));
    let hop = |idx: usize| HopFact { idx, tf: d(0.4), tracker_apex: d(0.3), apex_ratio: d(1.0) };
    assert_eq!(chips::bounce_is_timed(hop(0), hop(2), 3, true), None, "not one after the other");
    let list = vec![
        BounceFact { vz_in: d(1.5), damping_z: d(0.5) },
        BounceFact { vz_in: d(2.5), damping_z: d(0.6) },
    ];
    assert_eq!(chips::select_bounces(&list, d(1.0), d(2.0)), None, "too few");
}

// ----------------------------------------------------------- collisions

#[test]
fn sudden_changes_are_events() {
    let change = Change {
        gap: d(0.02),
        dv: d(1.0),
        speed_before: d(2.0),
        speed_after: d(1.0),
    };
    assert!(collisions::event_starts(change, None));
    assert!(!collisions::event_starts(change, Some(d(0.05))));
    assert!(!collisions::event_starts(Change { dv: d(0.1), ..change }, None));
    assert!(!collisions::event_starts(Change { gap: d(0.5), ..change }, None));
    assert!(collisions::near_kick(&ds(&[0.1]), &Vec::new()));
    assert!(!collisions::near_kick(&ds(&[0.5]), &Vec::new()));
    assert!(collisions::grounded(d(0.0)) && !collisions::grounded(d(0.5)));
    assert_eq!(collisions::closest_approach(&ds(&[0.3, 0.1, 0.15])), Some(1));
    assert_eq!(collisions::closest_approach(&ds(&[0.3])), None);
}

#[test]
fn contacts_are_sorted_by_surface_and_outcome() {
    assert_eq!(collisions::robot_surface(d(0.1), d(0.5)), Surface::Face);
    assert_eq!(collisions::robot_surface(d(1.0), d(0.5)), Surface::Hull);
    assert_eq!(collisions::robot_outcome(d(1.0), d(1.0)), Outcome::Rebound);
    assert_eq!(collisions::robot_outcome(d(0.0), d(0.1)), Outcome::Captured);
    assert_eq!(collisions::robot_outcome(d(0.0), d(2.0)), Outcome::Other);
    assert!(collisions::approaches(d(-1.0)) && !collisions::approaches(d(0.0)));
    assert!(collisions::slides(d(0.4)) && !collisions::slides(d(0.39)));
    assert!(collisions::slides(d(1.0)) && !collisions::slides(d(0.1)));
    assert!(!collisions::counts(Surface::Face, true), "a kick, not a bounce");
    let contact = |surface: Surface, outcome: Outcome| ContactFact { surface, outcome, approach: d(1.0) };
    let list = vec![
        contact(Surface::Hull, Outcome::Rebound),
        contact(Surface::Face, Outcome::Captured),
        contact(Surface::Hull, Outcome::Other),
    ];
    assert_eq!(collisions::select_contacts(&list, Surface::Hull, None), vec![0, 2]);
    assert_eq!(collisions::select_contacts(&list, Surface::Hull, Some(Outcome::Rebound)), vec![0]);
}

#[test]
fn walls_are_found_posts_first() {
    let far = WallFact {
        post_nn: d(5.0),
        post_np: d(5.0),
        post_pn: d(5.0),
        post_pp: d(5.0),
        back: d(5.0),
        in_goal: false,
        negative_x: true,
        x_nan: false,
        end: d(5.0),
        side: d(5.0),
    };
    assert_eq!(collisions::find_wall(far), None);
    assert_eq!(collisions::find_wall(WallFact { side: d(0.01), ..far }), Some(Wall::Side));
    assert_eq!(
        collisions::find_wall(WallFact { side: d(0.01), end: d(0.01), ..far }),
        Some(Wall::End)
    );
    let post = collisions::find_wall(WallFact { post_np: d(0.01), end: d(0.01), ..far }).unwrap();
    assert_eq!(collisions::wall_surface(post), Surface::Post);
    let back = WallFact { back: d(0.01), in_goal: true, ..far };
    assert_eq!(
        collisions::wall_surface(collisions::find_wall(back).unwrap()),
        Surface::GoalBack
    );
    assert!(collisions::walls_apply(d(12.0), false) && !collisions::walls_apply(d(12.0), true));
    assert_eq!(collisions::wall_outcome(d(1.0)), Outcome::Rebound);
}

// -------------------------------------------------------------- dribble

fn held(t: f64) -> Held {
    Held {
        t: d(t),
        lx: d(0.1),
        ly: d(0.0),
        speed: d(1.0),
        a_h: d(0.0),
        a_l: d(0.0),
        a_abs: d(0.0),
        omega: d(0.0),
    }
}

#[test]
fn held_balls_are_collected_per_robot() {
    let key = dribble::key_of(Team::Blue, 3);
    assert_eq!(dribble::robot_of(key), (Team::Blue, 3));
    assert!(dribble::key_of(Team::Yellow, 9) < dribble::key_of(Team::Blue, 0));
    let mut open = Dribbling::new();
    open.hold(key, held(1.0));
    open.hold(key, held(1.1));
    assert_eq!(open.last_times(), ds(&[1.1]));
    assert!(open.close_stale(&ds(&[0.05])).is_empty());
    let closed = open.close_stale(&ds(&[0.5]));
    assert_eq!((closed.len(), closed[0].key, closed[0].samples.len()), (1, key, 2));
    assert!(open.last_times().is_empty());
    assert!(dribble::in_zone(d(0.1), d(0.0)) && !dribble::in_zone(d(0.1), d(0.2)));
    assert!(dribble::is_away(d(0.5), d(0.0)) && !dribble::is_away(d(0.1), d(0.0)));
    assert!(dribble::is_away(d(0.17), d(0.0)) && dribble::is_away(d(0.1), d(0.08)));
}

#[test]
fn episodes_need_time_samples_and_speed() {
    assert!(dribble::is_episode(10, d(0.5), d(1.0)));
    assert!(!dribble::is_episode(9, d(0.5), d(1.0)));
    assert!(!dribble::is_episode(10, d(0.1), d(1.0)));
    assert!(!dribble::is_episode(10, d(0.5), d(0.5)));
    assert!(!dribble::is_episode(10, d(0.5), d(0.1)));
    assert_eq!(dribble::largest(&ds(&[1.0, 3.0, 2.0])), d(3.0));
    assert_eq!(dribble::classify_end(true, true, true, d(1.0)), End::Kick);
    assert_eq!(dribble::classify_end(false, true, true, d(1.0)), End::Loss);
    assert_eq!(dribble::classify_end(false, true, true, d(0.1)), End::Release);
    assert_eq!(dribble::classify_end(false, false, false, d(1.0)), End::Occluded);
    assert_eq!(dribble::classify_end(false, false, true, d(1.0)), End::Unknown);
    assert_eq!(End::Loss.name(), "loss");
    assert!(dribble::is_kicked(&ds(&[0.05])) && !dribble::is_kicked(&ds(&[0.5])));
}

#[test]
fn held_samples_are_pooled() {
    let fact = |speed: f64, a: f64| HeldFact { speed: d(speed), a_h: d(a), a_abs: d(a) };
    let list = vec![fact(0.1, 0.1), fact(1.0, 2.0)];
    assert_eq!(dribble::select_held(&list, Pool::Still), vec![0]);
    assert_eq!(dribble::select_held(&list, Pool::Moving), vec![1]);
    let x = ds(&[0.05, 0.1, 0.15]);
    // The further out, the fewer.
    let counts: Vec<usize> =
        [0.0, 0.07, 0.12, 0.2].iter().map(|th| dribble::count_beyond(&x, d(*th), true)).collect();
    assert_eq!(counts, vec![3, 2, 1, 0]);
    let s = vec![
        NearSample { cam: 1, apart: d(0.0) },
        NearSample { cam: 2, apart: d(0.00001) },
    ];
    assert_eq!(dribble::robot_sample(&s, 0, 2), Some(1));
    assert!(dribble::pairs_up(1, 1, d(0.0)));
}

// --------------------------------------------------------------- robots

#[test]
fn glitches_are_left_out() {
    assert_eq!(robots::sample_use(false, true, d(1.0), d(1.0), d(1.0)), Use::Skip);
    assert_eq!(robots::sample_use(true, true, d(9.0), d(1.0), d(1.0)), Use::Glitch);
    assert_eq!(
        robots::sample_use(true, true, d(1.0), d(1.0), d(1.0)),
        Use::Counts { moving: true, standing: false }
    );
    assert_eq!(
        robots::sample_use(true, true, d(0.01), d(1.0), d(1.0)),
        Use::Counts { moving: false, standing: true }
    );
    assert!(robots::speeds_up(d(1.0)) && !robots::speeds_up(d(-1.0)));
    assert!(robots::team_counts(1000) && !robots::team_counts(999));
    let at = |v: f64, a: f64| SpeedAccel { v: d(v), a: d(a) };
    let list = vec![at(1.2, 2.0), at(1.4, -2.0), at(2.0, 2.0)];
    assert_eq!(robots::select_bin(&list, d(1.0), d(1.5), true), vec![0]);
    assert_eq!(robots::select_bin(&list, d(1.0), d(1.5), false), vec![1]);
    assert!(robots::is_fast(d(3.0)) && !robots::is_fast(d(2.0)));
}

#[test]
fn steps_start_from_rest() {
    let at = |speed: f64| StepSample { has_velocity: true, speed: d(speed), gap: d(0.02), tangential: d(1.0) };
    // Long enough at rest, then a rise.
    let mut s: Vec<StepSample> = (0..20).map(|_| at(0.01)).collect();
    for v in [0.3, 0.8, 1.4, 2.2, 2.3] {
        s.push(at(v));
    }
    let n = s.len();
    let reach = Reach {
        rest_limit: (0..n).map(|i| (i + 500).min(n).max(i + 1)).collect(),
        rest_least: (0..n).map(|i| i + 12).collect(),
        step: (0..n).map(|i| (i + 75).min(n)).collect(),
    };
    let c = robots::next_step(&s, &reach, 0).expect("a step");
    assert_eq!((c.to, c.peak), (n, d(2.3)));
    assert!(c.from >= 19 && c.from <= 20);
    let (rise, next) = robots::follow_rise(&s, c, d(0.23), d(2.07));
    assert_eq!((rise.t10, rise.t90), (Some(20), Some(23)));
    assert!(next > c.from);
    assert!(robots::step_counts(d(0.2), d(3.0), d(2.3)));
    assert!(!robots::step_counts(d(0.01), d(3.0), d(2.3)), "too quick to be true");
    // Never at rest: no step.
    let moving: Vec<StepSample> = (0..n).map(|_| at(1.0)).collect();
    assert!(robots::next_step(&moving, &reach, 0).is_none());
}

// -------------------------------------------------------------- rolling

#[test]
fn free_rolling_is_cut_into_stretches() {
    let at = |near: f64, speed: f64| RollSample {
        near_dist: d(near),
        z: d(0.0),
        has_velocity: true,
        speed: d(speed),
        gap: d(0.02),
        since: None,
    };
    let mut s = vec![at(1.0, 2.0); 3];
    s.push(at(0.1, 2.0));
    s.extend(vec![at(1.0, 1.0); 2]);
    let found = rolling::segment(&s);
    assert_eq!(found, vec![Stretch { start: 0, end: 3 }, Stretch { start: 4, end: 6 }]);
    // Exactly as fast and as far from a robot as it must be.
    assert_eq!(rolling::segment(&vec![at(0.25, 0.3); 2]), vec![Stretch { start: 0, end: 2 }]);
    assert_eq!(rolling::segment(&vec![at(0.24, 0.3); 2]), Vec::new());
    assert!(rolling::is_episode(Stretch { start: 0, end: 20 }, d(0.5), d(1.0)));
    assert!(!rolling::is_episode(Stretch { start: 0, end: 19 }, d(0.5), d(1.0)));
    assert!(!rolling::is_episode(Stretch { start: 0, end: 20 }, d(0.1), d(1.0)));
    assert!(!rolling::is_episode(Stretch { start: 0, end: 20 }, d(0.5), d(0.1)));
}

#[test]
fn pooled_fits_take_a_range_of_speeds() {
    let v = ds(&[0.1, 0.5, 2.0, 3.9, 4.0, f64::NAN]);
    assert_eq!(rolling::select_pooled(&v, rolling::Pool::Slow), vec![1]);
    assert_eq!(rolling::select_pooled(&v, rolling::Pool::Wide), vec![1, 2, 3]);
    assert!(rolling::gives_pooled(d(1.0), d(1.0), d(0.003)));
    assert!(!rolling::gives_pooled(d(0.9), d(1.0), d(0.0)), "still sliding");
    assert!(!rolling::gives_pooled(d(1.0), d(1.0), d(0.004)), "fits badly");
    assert!(rolling::enough_around(14) && !rolling::enough_around(13));
    assert_eq!(rolling::count_beaten(&ds(&[10.0, 10.5, -3.0, 99.0])), 2);
}

#[test]
fn clocks_are_compared_by_moving_robots() {
    assert!(load::compares_clocks(d(0.8)) && !load::compares_clocks(d(0.79)));
    assert!(load::bridges(d(0.05)) && !load::bridges(d(0.051)));
    assert!(load::refines(1, 3, d(0.1)) && !load::refines(1, 3, d(0.0)));
    assert!(!load::refines(0, 3, d(0.1)) && !load::refines(2, 3, d(0.1)));
}

#[test]
fn refits_only_drop_rows() {
    let mask = vec![true, false, true, true];
    let kept = rolling::reject_outliers(&mask, &ds(&[0.1, 5.0, 0.2]), d(1.0));
    assert_eq!(kept, vec![true, false, false, true]);
    assert!(rolling::may_anchor(d(1.0), d(1.1), d(0.1), d(0.5)).eligible);
    assert!(!rolling::may_anchor(d(1.2), d(1.1), d(0.1), d(0.5)).eligible, "later than the start");
    assert!(!rolling::may_anchor(d(1.0), d(1.1), d(0.1), d(5.0)).eligible, "too far away");
}

#[test]
fn episodes_are_selected_by_what_they_show() {
    let e = EpisodeFact {
        v_start: d(1.0),
        duration: d(1.0),
        slide_dur: d(0.0),
        roll_dur: d(1.0),
        a_slide: d(f64::NAN),
        a_roll: d(-0.3),
        a_roll_abs: d(0.3),
        kick: None,
        dir_deg: d(10.0),
    };
    assert_eq!(rolling::select_episodes(&vec![e], rolling::Selection::Roll), vec![0]);
    assert!(rolling::select_episodes(&vec![e], rolling::Selection::Slide).is_empty());
    assert_eq!(rolling::select_direction(&vec![e], d(0.0), d(45.0)), vec![0]);
    assert!(rolling::select_direction(&vec![e], d(45.0), d(90.0)).is_empty());
    let x = ds(&[0.5, 1.5, 1.7]);
    assert_eq!(rolling::select_range(&x, d(1.0), d(2.0), 2), Some(vec![1, 2]));
    assert_eq!(rolling::select_range(&x, d(1.0), d(2.0), 3), None);
}
