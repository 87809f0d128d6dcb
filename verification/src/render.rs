//! The race renderer: per-horse colored track lines, the sorted final
//! standings with their winner announcement, and the command sequences
//! that paint them.

use vstd::prelude::*;
use vstd::string::StringExecFns;
use crate::race::Horse;
use crate::screen::{
    HorseColor, TermOp, lemma_triples_write_lines, line_triple_at, writes_lines,
};
use crate::WINNING_NUM;

verus! {

/// The color assigned to the horse at index `i`: the fixed five-color
/// palette, cycled.
pub open spec fn spec_color_for(i: nat) -> HorseColor {
    if i % 5 == 0 {
        HorseColor::Red
    } else if i % 5 == 1 {
        HorseColor::Green
    } else if i % 5 == 2 {
        HorseColor::Magenta
    } else if i % 5 == 3 {
        HorseColor::Blue
    } else {
        HorseColor::Cyan
    }
}

/// Looks up the palette color for the horse at index `i`.
pub fn color_for(i: usize) -> (c: HorseColor)
    ensures
        c == spec_color_for(i as nat),
{
    match i % 5 {
        0 => HorseColor::Red,
        1 => HorseColor::Green,
        2 => HorseColor::Magenta,
        3 => HorseColor::Blue,
        _ => HorseColor::Cyan,
    }
}

/// `n` copies of the character `c`.
pub open spec fn char_repeat(c: char, n: nat) -> Seq<char> {
    Seq::new(n, |k: int| c)
}

/// The decimal digit character for a single-digit index.
pub open spec fn digit_char(i: int) -> char {
    if i == 0 {
        '0'
    } else if i == 1 {
        '1'
    } else if i == 2 {
        '2'
    } else if i == 3 {
        '3'
    } else if i == 4 {
        '4'
    } else if i == 5 {
        '5'
    } else if i == 6 {
        '6'
    } else if i == 7 {
        '7'
    } else if i == 8 {
        '8'
    } else {
        '9'
    }
}

/// The one-character text for a single-digit horse index.
fn digit_str(i: usize) -> (s: &'static str)
    requires
        i < 10,
    ensures
        s@ == seq![digit_char(i as int)],
{
    let s: &'static str = match i {
        0 => "0",
        1 => "1",
        2 => "2",
        3 => "3",
        4 => "4",
        5 => "5",
        6 => "6",
        7 => "7",
        8 => "8",
        _ => "9",
    };
    proof {
        reveal_strlit("0");
        reveal_strlit("1");
        reveal_strlit("2");
        reveal_strlit("3");
        reveal_strlit("4");
        reveal_strlit("5");
        reveal_strlit("6");
        reveal_strlit("7");
        reveal_strlit("8");
        reveal_strlit("9");
        assert(s@ =~= seq![digit_char(i as int)]);
    }
    s
}

/// `n` copies of a one-character piece, as an owned string.
fn repeat_piece(piece: &str, n: usize) -> (s: String)
    requires
        piece@.len() == 1,
    ensures
        s@ == char_repeat(piece@[0], n as nat),
{
    let mut s = String::new();
    proof {
        assert(s@ =~= char_repeat(piece@[0], 0));
    }
    let mut i: usize = 0;
    while i < n
        invariant
            i <= n,
            piece@.len() == 1,
            s@ == char_repeat(piece@[0], i as nat),
        decreases n - i,
    {
        s.append(piece);
        proof {
            assert(s@ =~= char_repeat(piece@[0], (i + 1) as nat));
        }
        i += 1;
    }
    s
}

/// The text of one rendered track line: the progress run, then the
/// horse's index; then, only while the horse is still short of the
/// winning line, the padding out to the line and the finish-line glyph.
pub open spec fn spec_horse_line(advance: nat, number: nat) -> Seq<char> {
    let track = char_repeat('_', advance) + seq![digit_char(number as int)];
    if advance < (WINNING_NUM - 1) as nat {
        track + char_repeat(' ', ((WINNING_NUM - 1) as nat - advance) as nat) + seq!['|']
    } else {
        track
    }
}

/// Finish-line elision: a horse at or past the line gets a bare track —
/// no padding, no marker — so its line is exactly its advance plus the
/// one index character.
pub proof fn lemma_finish_line_elision(advance: nat, number: nat)
    requires
        advance >= (WINNING_NUM - 1) as nat,
    ensures
        spec_horse_line(advance, number) == char_repeat('_', advance) + seq![
            digit_char(number as int),
        ],
        spec_horse_line(advance, number).len() == advance + 1,
{
}

/// A horse still at the start gets no progress run, the full field of
/// `WINNING_NUM - 1` padding spaces, and the finish-line marker.
pub proof fn lemma_start_line_padding(number: nat)
    ensures
        spec_horse_line(0, number) == seq![digit_char(number as int)] + char_repeat(
            ' ',
            (WINNING_NUM - 1) as nat,
        ) + seq!['|'],
        spec_horse_line(0, number).len() == (WINNING_NUM + 1) as nat,
{
    assert(char_repeat('_', 0) =~= Seq::<char>::empty());
    assert(spec_horse_line(0, number) =~= seq![digit_char(number as int)] + char_repeat(
        ' ',
        (WINNING_NUM - 1) as nat,
    ) + seq!['|']);
}

/// Renders one track line as text.
pub fn horse_line(advance: u32, number: usize) -> (s: String)
    requires
        number < 10,
    ensures
        s@ == spec_horse_line(advance as nat, number as nat),
{
    proof {
        reveal_strlit("_");
        reveal_strlit(" ");
        reveal_strlit("|");
    }
    let mut s = repeat_piece("_", advance as usize);
    s.append(digit_str(number));
    if advance < WINNING_NUM - 1 {
        let pad = repeat_piece(" ", (WINNING_NUM - 1 - advance) as usize);
        s.append(pad.as_str());
        s.append("|");
    }
    proof {
        assert(s@ =~= spec_horse_line(advance as nat, number as nat));
    }
    s
}

/// Descending by advance, with ties broken by original index ascending —
/// the order a stable descending sort leaves entries carrying their
/// original index.
pub open spec fn sorted_desc_stable(s: Seq<(usize, u32)>) -> bool {
    forall|k1: int, k2: int|
        0 <= k1 < k2 < s.len() ==> ((#[trigger] s[k1]).1 > (#[trigger] s[k2]).1 || (s[k1].1
            == s[k2].1 && s[k1].0 < s[k2].0))
}

/// Some entry of `s` carries the original index `j`.
pub open spec fn appears_in(s: Seq<(usize, u32)>, j: int) -> bool {
    exists|k: int| 0 <= k < s.len() && (#[trigger] s[k]).0 == j
}

/// `s` is the final standings of `horses`: one `(index, advance)` entry
/// per horse, each index exactly once, in stable descending order of
/// advance.
pub open spec fn standings_view(s: Seq<(usize, u32)>, horses: Seq<Horse>) -> bool {
    &&& s.len() == horses.len()
    &&& forall|k: int|
        0 <= k < s.len() ==> (#[trigger] s[k]).0 < horses.len() && s[k].1 == horses[s[k].0
            as int].advance
    &&& forall|k1: int, k2: int| 0 <= k1 < k2 < s.len() ==> (#[trigger] s[k1]).0 != (#[trigger] s[k2]).0
    &&& forall|j: int| 0 <= j < horses.len() ==> #[trigger] appears_in(s, j)
    &&& sorted_desc_stable(s)
}

/// Sorts the horses into final standings: entries `(original index,
/// advance)` in descending order of advance, equal advances keeping
/// their original index order.
pub fn sorted_standings(horses: &Vec<Horse>) -> (s: Vec<(usize, u32)>)
    ensures
        standings_view(s@, horses@),
{
    let n: usize = horses.len();
    let mut s: Vec<(usize, u32)> = Vec::new();
    let mut i: usize = 0;
    while i < n
        invariant
            i <= n,
            n == horses@.len(),
            s@.len() == i as nat,
            forall|k: int|
                0 <= k < s@.len() ==> (#[trigger] s@[k]).0 < i && s@[k].1 == horses@[s@[k].0
                    as int].advance,
            forall|k1: int, k2: int|
                0 <= k1 < k2 < s@.len() ==> (#[trigger] s@[k1]).0 != (#[trigger] s@[k2]).0,
            forall|j: int| 0 <= j < i ==> #[trigger] appears_in(s@, j),
            sorted_desc_stable(s@),
        decreases n - i,
    {
        let adv: u32 = horses[i].advance;
        let ghost prev = s@;
        let mut pos: usize = s.len();
        while pos > 0 && s[pos - 1].1 < adv
            invariant
                pos <= s@.len(),
                s@ == prev,
                forall|k: int| pos <= k < s@.len() ==> (#[trigger] s@[k]).1 < adv,
            decreases pos,
        {
            pos -= 1;
        }
        s.insert(pos, (i, adv));
        proof {
            prev.insert_ensures(pos as int, (i, adv));
            assert(s@ == prev.insert(pos as int, (i, adv)));
            // Everything left of the insertion point has at least this
            // advance: the scan stopped at the first entry not below it,
            // and the prefix is sorted.
            assert forall|k: int| 0 <= k < pos implies prev[k].1 >= adv by {
                if k < pos - 1 {
                    assert(prev[k].1 > prev[pos - 1].1 || (prev[k].1 == prev[pos - 1].1
                        && prev[k].0 < prev[pos - 1].0));
                }
            }
            assert forall|k1: int, k2: int|
                0 <= k1 < k2 < s@.len() implies ((#[trigger] s@[k1]).1 > (#[trigger] s@[k2]).1 || (
            s@[k1].1 == s@[k2].1 && s@[k1].0 < s@[k2].0)) by {
                if k2 < pos {
                } else if k1 > pos {
                    assert(s@[k1] == prev[k1 - 1] && s@[k2] == prev[k2 - 1]);
                } else if k1 < pos && k2 == pos {
                    assert(s@[k1] == prev[k1] && s@[k2] == (i, adv));
                    assert(prev[k1].1 >= adv);
                    assert(prev[k1].0 < i);
                } else if k1 == pos && k2 > pos {
                    assert(s@[k1] == (i, adv) && s@[k2] == prev[k2 - 1]);
                    assert(prev[k2 - 1].1 < adv);
                } else if k1 < pos && k2 > pos {
                    assert(s@[k1] == prev[k1] && s@[k2] == prev[k2 - 1]);
                }
            }
            assert forall|j: int| 0 <= j < i + 1 implies #[trigger] appears_in(s@, j) by {
                if j == i {
                    assert(s@[pos as int].0 == j);
                } else {
                    assert(appears_in(prev, j));
                    let k: int = choose|k: int| 0 <= k < prev.len() && (#[trigger] prev[k]).0 == j;
                    if k < pos {
                        assert(s@[k].0 == j);
                    } else {
                        assert(s@[k + 1].0 == j);
                    }
                }
            }
        }
        i += 1;
    }
    s
}

/// The horse at index `w` has won: nobody travelled further, and among
/// those who travelled as far it has the lowest index.
pub open spec fn is_winner(horses: Seq<Horse>, w: int) -> bool {
    &&& 0 <= w < horses.len()
    &&& forall|j: int| 0 <= j < horses.len() ==> (#[trigger] horses[j]).advance <= horses[w].advance
    &&& forall|j: int| 0 <= j < w ==> (#[trigger] horses[j]).advance < horses[w].advance
}

/// The head of the standings is the winner: it carries the greatest
/// advance, and every horse of equal advance has a higher index.
pub proof fn lemma_standings_head_wins(s: Seq<(usize, u32)>, horses: Seq<Horse>)
    requires
        standings_view(s, horses),
        horses.len() >= 1,
    ensures
        is_winner(horses, s[0].0 as int),
{
    let w: int = s[0].0 as int;
    assert forall|j: int|
        0 <= j < horses.len() implies (#[trigger] horses[j]).advance <= horses[w].advance by {
        assert(appears_in(s, j));
        let k: int = choose|k: int| 0 <= k < s.len() && (#[trigger] s[k]).0 == j;
        if k > 0 {
            assert(s[0].1 > s[k].1 || (s[0].1 == s[k].1 && s[0].0 < s[k].0));
        }
    }
    assert forall|j: int| 0 <= j < w implies (#[trigger] horses[j]).advance < horses[w].advance by {
        assert(appears_in(s, j));
        let k: int = choose|k: int| 0 <= k < s.len() && (#[trigger] s[k]).0 == j;
        assert(k != 0);
        assert(s[0].1 > s[k].1 || (s[0].1 == s[k].1 && s[0].0 < s[k].0));
    }
}

/// Tie-break stability: two entries of equal advance stand in the
/// standings in their original index order — the lower index first.
pub proof fn lemma_tie_break_stability(
    s: Seq<(usize, u32)>,
    horses: Seq<Horse>,
    k1: int,
    k2: int,
)
    requires
        standings_view(s, horses),
        0 <= k1 < k2 < s.len(),
        s[k1].1 == s[k2].1,
    ensures
        s[k1].0 < s[k2].0,
{
}

/// The `i`-th three-command group of `ops` paints the track line of the
/// horse `number` at `advance`, in that horse's palette color.
pub open spec fn horse_line_at(ops: Seq<TermOp>, i: int, advance: nat, number: nat) -> bool {
    &&& ops[3 * i] == TermOp::SetColor(spec_color_for(number))
    &&& ops[3 * i + 1] matches TermOp::Text(t) && t@ == spec_horse_line(advance, number)
    &&& ops[3 * i + 2] == TermOp::Newline
}

/// Renders the live race, one line per horse in index order: the command
/// sequence paints exactly one colored track line per horse.
pub fn render_running(horses: &Vec<Horse>) -> (ops: Vec<TermOp>)
    requires
        horses@.len() <= 10,
    ensures
        ops@.len() == 3 * horses@.len(),
        forall|i: int|
            0 <= i < horses@.len() ==> horse_line_at(
                ops@,
                i,
                (#[trigger] horses@[i]).advance as nat,
                i as nat,
            ),
        writes_lines(ops@, horses@.len() as nat),
{
    let n: usize = horses.len();
    let mut ops: Vec<TermOp> = Vec::new();
    let mut i: usize = 0;
    while i < n
        invariant
            i <= n,
            n == horses@.len() <= 10,
            ops@.len() == 3 * i as nat,
            forall|k: int|
                0 <= k < i ==> horse_line_at(
                    ops@,
                    k,
                    (#[trigger] horses@[k]).advance as nat,
                    k as nat,
                ),
        decreases n - i,
    {
        ops.push(TermOp::SetColor(color_for(i)));
        ops.push(TermOp::Text(horse_line(horses[i].advance, i)));
        ops.push(TermOp::Newline);
        i += 1;
    }
    proof {
        assert forall|k: int| 0 <= k < n implies #[trigger] line_triple_at(ops@, k) by {
            assert(horse_line_at(ops@, k, horses@[k].advance as nat, k as nat));
        }
        lemma_triples_write_lines(ops@, n as nat);
    }
    ops
}

/// The winner announcement text for the horse at index `number`.
pub open spec fn spec_winner_text(number: nat) -> Seq<char> {
    "horse "@ + seq![digit_char(number as int)] + " won!"@
}

/// Renders the winner announcement text.
fn winner_text(number: usize) -> (s: String)
    requires
        number < 10,
    ensures
        s@ == spec_winner_text(number as nat),
{
    let mut s = String::from_str("horse ");
    s.append(digit_str(number));
    s.append(" won!");
    s
}

/// The last three-command group of `ops` announces the winner of
/// `horses`, colored with the winner's own palette color.
pub open spec fn winner_line_at(ops: Seq<TermOp>, horses: Seq<Horse>) -> bool {
    exists|w: int|
        #[trigger] is_winner(horses, w) && {
            let base: int = 3 * horses.len() as int;
            &&& ops[base] == TermOp::SetColor(spec_color_for(w as nat))
            &&& ops[base + 1] matches TermOp::Text(t) && t@ == spec_winner_text(w as nat)
            &&& ops[base + 2] == TermOp::Newline
        }
}

/// Renders the finished race: one line per horse in final standings
/// order — descending advance, ties kept in original index order — then
/// one line declaring the winner, the head of the standings.
pub fn render_final(horses: &Vec<Horse>) -> (ops: Vec<TermOp>)
    requires
        1 <= horses@.len() <= 10,
    ensures
        ops@.len() == 3 * (horses@.len() + 1),
        exists|s: Seq<(usize, u32)>|
            #[trigger] standings_view(s, horses@) && forall|i: int|
                0 <= i < horses@.len() ==> horse_line_at(
                    ops@,
                    i,
                    (#[trigger] s[i]).1 as nat,
                    s[i].0 as nat,
                ),
        winner_line_at(ops@, horses@),
        writes_lines(ops@, (horses@.len() + 1) as nat),
{
    let n: usize = horses.len();
    let standings = sorted_standings(horses);
    let mut ops: Vec<TermOp> = Vec::new();
    let mut i: usize = 0;
    while i < n
        invariant
            i <= n,
            n == horses@.len() <= 10,
            standings_view(standings@, horses@),
            ops@.len() == 3 * i as nat,
            forall|k: int|
                0 <= k < i ==> horse_line_at(
                    ops@,
                    k,
                    (#[trigger] standings@[k]).1 as nat,
                    standings@[k].0 as nat,
                ),
        decreases n - i,
    {
        let number: usize = standings[i].0;
        let advance: u32 = standings[i].1;
        ops.push(TermOp::SetColor(color_for(number)));
        ops.push(TermOp::Text(horse_line(advance, number)));
        ops.push(TermOp::Newline);
        i += 1;
    }
    let winner: usize = standings[0].0;
    proof {
        lemma_standings_head_wins(standings@, horses@);
    }
    ops.push(TermOp::SetColor(color_for(winner)));
    ops.push(TermOp::Text(winner_text(winner)));
    ops.push(TermOp::Newline);
    proof {
        assert(is_winner(horses@, winner as int));
        assert forall|k: int| 0 <= k < n + 1 implies #[trigger] line_triple_at(ops@, k) by {
            if k < n {
                assert(horse_line_at(
                    ops@,
                    k,
                    standings@[k].1 as nat,
                    standings@[k].0 as nat,
                ));
            }
        }
        lemma_triples_write_lines(ops@, (n + 1) as nat);
    }
    ops
}

} // verus!
