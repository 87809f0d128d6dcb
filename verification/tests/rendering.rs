use horse_race::race::Horse;
use horse_race::render::{color_for, horse_line, render_final, render_running, sorted_standings};
use horse_race::screen::{erase_ops, HorseColor, TermOp};

fn horses(advances: &[u32]) -> Vec<Horse> {
    advances.iter().map(|&a| Horse { advance: a }).collect()
}

#[test]
fn palette_cycles_over_five_colors() {
    assert_eq!(color_for(0), HorseColor::Red);
    assert_eq!(color_for(1), HorseColor::Green);
    assert_eq!(color_for(2), HorseColor::Magenta);
    assert_eq!(color_for(3), HorseColor::Blue);
    assert_eq!(color_for(4), HorseColor::Cyan);
    assert_eq!(color_for(5), HorseColor::Red);
    assert_eq!(color_for(6), HorseColor::Green);
}

#[test]
fn line_at_the_start_has_full_padding() {
    let expected = format!("3{}|", " ".repeat(49));
    assert_eq!(horse_line(0, 3), expected);
}

#[test]
fn line_midway_pads_to_the_finish() {
    let expected = format!("{}2{}|", "_".repeat(5), " ".repeat(44));
    assert_eq!(horse_line(5, 2), expected);
}

#[test]
fn line_at_the_finish_elides_the_marker() {
    assert_eq!(horse_line(49, 1), format!("{}1", "_".repeat(49)));
    assert_eq!(horse_line(50, 0), format!("{}0", "_".repeat(50)));
    assert_eq!(horse_line(52, 4), format!("{}4", "_".repeat(52)));
}

#[test]
fn standings_sort_descending() {
    let h = horses(&[3, 17, 9]);
    assert_eq!(sorted_standings(&h), vec![(1, 17), (2, 9), (0, 3)]);
}

#[test]
fn standings_tie_break_keeps_index_order() {
    let h = horses(&[12, 9, 12]);
    assert_eq!(sorted_standings(&h), vec![(0, 12), (2, 12), (1, 9)]);
}

#[test]
fn running_render_is_one_colored_line_per_horse() {
    let h = horses(&[0, 7]);
    let ops = render_running(&h);
    let expected = vec![
        TermOp::SetColor(HorseColor::Red),
        TermOp::Text(horse_line(0, 0)),
        TermOp::Newline,
        TermOp::SetColor(HorseColor::Green),
        TermOp::Text(horse_line(7, 1)),
        TermOp::Newline,
    ];
    assert_eq!(ops, expected);
}

#[test]
fn final_render_sorts_and_announces_the_winner() {
    let h = horses(&[12, 9, 12]);
    let ops = render_final(&h);
    let expected = vec![
        TermOp::SetColor(HorseColor::Red),
        TermOp::Text(horse_line(12, 0)),
        TermOp::Newline,
        TermOp::SetColor(HorseColor::Magenta),
        TermOp::Text(horse_line(12, 2)),
        TermOp::Newline,
        TermOp::SetColor(HorseColor::Green),
        TermOp::Text(horse_line(9, 1)),
        TermOp::Newline,
        TermOp::SetColor(HorseColor::Red),
        TermOp::Text(String::from("horse 0 won!")),
        TermOp::Newline,
    ];
    assert_eq!(ops, expected);
}

#[test]
fn erase_returns_then_clears_upwards() {
    let ops = erase_ops(3);
    let expected = vec![
        TermOp::CarriageReturn,
        TermOp::CursorUp,
        TermOp::DeleteLine,
        TermOp::CursorUp,
        TermOp::DeleteLine,
        TermOp::CursorUp,
        TermOp::DeleteLine,
    ];
    assert_eq!(ops, expected);
}

#[test]
fn erase_of_nothing_only_returns_to_line_start() {
    assert_eq!(erase_ops(0), vec![TermOp::CarriageReturn]);
}
