use horse_race::race::{Horse, Race, RaceStatus};
use horse_race::render::sorted_standings;
use horse_race::screen::TermOp;

fn race_with_advances(advances: [u32; 7]) -> Race {
    Race {
        horses: advances.iter().map(|&a| Horse { advance: a }).collect(),
        status: RaceStatus::Running,
    }
}

#[test]
fn new_race_is_at_the_start() {
    let race = Race::new();
    assert_eq!(race.horses.len(), 7);
    assert!(race.horses.iter().all(|h| h.advance == 0));
    assert!(!race.is_finished());
}

#[test]
fn win_detected_on_crossing_tick() {
    // A zero tick advances every horse by exactly one.
    let mut race = race_with_advances([49, 0, 0, 0, 0, 0, 0]);
    race.tick(0);
    assert!(race.is_finished());
    assert_eq!(race.horses[0].advance, 50);
}

#[test]
fn no_win_before_the_line() {
    let mut race = race_with_advances([45, 3, 3, 3, 3, 3, 3]);
    race.tick(0);
    assert!(!race.is_finished());
    assert_eq!(race.horses[0].advance, 46);
}

#[test]
fn win_detected_past_the_line() {
    // A big tick can carry a horse past the line, not exactly onto it.
    let mut race = race_with_advances([48, 0, 0, 0, 0, 0, 0]);
    race.tick(3); // low digit 3, so horse 0 gains 4
    assert!(race.is_finished());
    assert_eq!(race.horses[0].advance, 52);
}

#[test]
fn all_zero_ticks_run_the_full_course() {
    let mut race = Race::new();
    let mut ticks: u32 = 0;
    while !race.is_finished() {
        race.tick(0);
        ticks += 1;
        // Every horse moves in lockstep on zero ticks.
        for h in &race.horses {
            assert_eq!(h.advance, ticks);
        }
        if ticks == 44 {
            assert!(race.horses.iter().all(|h| h.advance == 44));
            assert!(!race.is_finished());
        }
        assert!(ticks <= 50);
    }
    assert_eq!(ticks, 50);
    assert!(race.horses.iter().all(|h| h.advance == 50));

    // All seven horses tie at 50; the stable tie-break declares horse 0.
    let standings = sorted_standings(&race.horses);
    assert_eq!(standings[0], (0, 50));

    let ops = horse_race::render::render_final(&race.horses);
    match &ops[ops.len() - 2] {
        TermOp::Text(t) => assert_eq!(t, "horse 0 won!"),
        other => panic!("expected the winner text, got {:?}", other),
    }
}
