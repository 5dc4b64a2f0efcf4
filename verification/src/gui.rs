use vstd::prelude::*;
use crate::components::{CombatStats, Name, Position};
use crate::gamelog::GameLog;
use crate::map::GameMap;

verus! {

/// Text to print at a cell of the screen.
pub struct ScreenText {
    pub x: i32,
    pub y: i32,
    pub text: String,
}

/// The view of a list of screen texts: column, row and characters of each.
pub open spec fn texts_view(ts: Seq<ScreenText>) -> Seq<(int, int, Seq<char>)> {
    ts.map_values(|t: ScreenText| (t.x as int, t.y as int, t.text@))
}

/// The character for decimal digit `d`.
pub open spec fn digit_char(d: int) -> char {
    (48 + d) as char
}

/// The decimal digits of `n`, most significant first, with no leading zeros.
pub open spec fn digits(n: nat) -> Seq<char>
    decreases n,
{
    if n < 10 {
        seq![digit_char(n as int)]
    } else {
        digits(n / 10).push(digit_char((n % 10) as int))
    }
}

/// `n` written in decimal, with a leading '-' when negative.
pub open spec fn decimal(n: int) -> Seq<char> {
    if n < 0 { seq!['-'] + digits((-n) as nat) } else { digits(n as nat) }
}

/// The one-character string for decimal digit `d`.
fn digit_str(d: u32) -> (s: &'static str)
    requires
        d < 10,
    ensures
        s@ == seq![digit_char(d as int)],
{
    if d == 0 {
        proof { reveal_strlit("0"); }
        "0"
    } else if d == 1 {
        proof { reveal_strlit("1"); }
        "1"
    } else if d == 2 {
        proof { reveal_strlit("2"); }
        "2"
    } else if d == 3 {
        proof { reveal_strlit("3"); }
        "3"
    } else if d == 4 {
        proof { reveal_strlit("4"); }
        "4"
    } else if d == 5 {
        proof { reveal_strlit("5"); }
        "5"
    } else if d == 6 {
        proof { reveal_strlit("6"); }
        "6"
    } else if d == 7 {
        proof { reveal_strlit("7"); }
        "7"
    } else if d == 8 {
        proof { reveal_strlit("8"); }
        "8"
    } else {
        proof { reveal_strlit("9"); }
        "9"
    }
}

/// Appends the decimal digits of `m` to `s`, most significant first.
fn push_digits(s: &mut String, m: u32)
    ensures
        final(s)@ == old(s)@ + digits(m as nat),
    decreases m,
{
    if m >= 10 {
        push_digits(s, m / 10);
    }
    s.append(digit_str(m % 10));
}

/// `n` written in decimal, with a leading '-' when negative, as `i32`'s `to_string`
/// writes it.
pub fn decimal_string(n: i32) -> (s: String)
    ensures
        s@ == decimal(n as int),
{
    let mut s = String::new();
    if n < 0 {
        proof { reveal_strlit("-"); }
        s.append("-");
        let m: i64 = -(n as i64);
        push_digits(&mut s, m as u32);
    } else {
        push_digits(&mut s, n as u32);
    }
    s
}

/// The health line of the status bar: " HP: <hp> / <max_hp>".
pub fn health_text(stats: &CombatStats) -> (s: String)
    ensures
        s@ == " HP: "@ + decimal(stats.hp as int) + " / "@ + decimal(stats.max_hp as int),
{
    let mut s = String::from_str(" HP: ");
    let hp = decimal_string(stats.hp);
    s.append(hp.as_str());
    s.append(" / ");
    let max_hp = decimal_string(stats.max_hp);
    s.append(max_hp.as_str());
    s
}

/// The index of the map cell under an entity at `p`: its coordinates and the map's
/// width converted to `usize` (a negative value wraps), row times width plus column.
pub open spec fn cell_under(map: GameMap, p: Position) -> int {
    (p.y as usize) * (map.width as usize) + (p.x as usize)
}

/// The indices, in order, of the entities at `ps` that stand on a cell in view.
pub open spec fn shown_entities(map: GameMap, ps: Seq<Position>) -> Seq<usize>
    decreases ps.len(),
{
    if ps.len() == 0 {
        Seq::empty()
    } else {
        let rest = shown_entities(map, ps.drop_last());
        if map.visible_tiles@[cell_under(map, ps.last())] { rest.push((ps.len() - 1) as usize) } else { rest }
    }
}

/// Which of the entities standing at `positions` are drawn: those on a cell in view,
/// by their index in `positions`, in order.
pub fn entities_in_view(map: &GameMap, positions: &Vec<Position>) -> (shown: Vec<usize>)
    requires
        forall|k: int| 0 <= k < positions@.len()
            ==> #[trigger] cell_under(*map, positions@[k]) < map.visible_tiles@.len(),
    ensures
        shown@ == shown_entities(*map, positions@),
{
    let mut shown: Vec<usize> = Vec::new();
    let n = positions.len();
    let mut k: usize = 0;
    assert(positions@.take(0) =~= Seq::<Position>::empty());
    while k < n
        invariant
            n == positions@.len(),
            k <= n,
            forall|j: int| 0 <= j < positions@.len()
                ==> #[trigger] cell_under(*map, positions@[j]) < map.visible_tiles@.len(),
            shown@ == shown_entities(*map, positions@.take(k as int)),
        decreases n - k,
    {
        assert(positions@.take(k + 1).drop_last() =~= positions@.take(k as int));
        let p = positions[k];
        assert(cell_under(*map, p) < map.visible_tiles@.len());
        assert(map.visible_tiles@.len() == map.visible_tiles.len());
        let idx = map.xy_idx(p.x, p.y);
        if map.visible_tiles[idx] {
            shown.push(k);
        }
        k = k + 1;
    }
    assert(positions@.take(n as int) =~= positions@);
    shown
}

/// The log lines shown in the status bar: the newest first, from row 45 down, at most
/// four of them (rows 45 to 48), at column 2.
pub open spec fn log_rows(entries: Seq<Seq<char>>) -> Seq<(int, int, Seq<char>)> {
    let n = entries.len() as int;
    let shown = if n < 4 { n } else { 4 };
    Seq::new(shown as nat, |i: int| (2int, 45 + i, entries[n - 1 - i]))
}

/// The log lines to print in the status bar.
pub fn log_lines(log: &GameLog) -> (lines: Vec<ScreenText>)
    requires
        log.entries@.len() <= i32::MAX - 45,
    ensures
        texts_view(lines@) == log_rows(crate::damage_system::log_view(*log)),
{
    let ghost ev = crate::damage_system::log_view(*log);
    let mut lines: Vec<ScreenText> = Vec::new();
    let n = log.entries.len();
    let mut y: i32 = 45;
    let mut k: usize = 0;
    while k < n
        invariant
            n == log.entries@.len(),
            n <= i32::MAX - 45,
            ev == crate::damage_system::log_view(*log),
            k <= n,
            y == 45 + k,
            texts_view(lines@) == log_rows(ev.take(n as int).skip(n - k)).take(if k < 4 { k as int } else { 4 }),
        decreases n - k,
    {
        let s = &log.entries[n - 1 - k];
        if y < 49 {
            let ghost before = lines@;
            lines.push(ScreenText { x: 2, y, text: s.clone() });
            assert(texts_view(lines@) =~= texts_view(before).push((2int, y as int, s@)));
        }
        y = y + 1;
        k = k + 1;
        assert(texts_view(lines@) =~= log_rows(ev.take(n as int).skip(n - k)).take(if k < 4 { k as int } else { 4 }));
    }
    assert(ev.take(n as int).skip(0) =~= ev);
    lines
}

/// The number of bytes `s` takes in UTF-8, which is what a string's `len` gives.
pub open spec fn byte_len(s: Seq<char>) -> int {
    vstd::utf8::encode_utf8(s).len() as int
}

/// The names, in order, of the entries of `named` that stand at `(mx, my)`.
pub open spec fn names_at(named: Seq<(Name, Position)>, mx: i32, my: i32) -> Seq<Seq<char>>
    decreases named.len(),
{
    if named.len() == 0 {
        Seq::empty()
    } else {
        let rest = names_at(named.drop_last(), mx, my);
        let (n, p) = named.last();
        if p.x == mx && p.y == my { rest.push(n.name@) } else { rest }
    }
}

/// The longest byte length among `names`, or 0 when there are none.
pub open spec fn longest(names: Seq<Seq<char>>) -> int
    decreases names.len(),
{
    if names.len() == 0 {
        0
    } else {
        let rest = longest(names.drop_last());
        let l = byte_len(names.last());
        if rest < l { l } else { rest }
    }
}

/// `n` blank cells on row `y`, the `i`-th at column `x0 + step * i`.
pub open spec fn pads(x0: int, step: int, y: int, n: int) -> Seq<(int, int, Seq<char>)>
    decreases n,
{
    if n <= 0 {
        Seq::empty()
    } else {
        pads(x0, step, y, n - 1).push((x0 + step * (n - 1), y, " "@))
    }
}

/// One tooltip row for name `s` on row `y`, in a box `width` wide: when the mouse is
/// right of column 40 the name is left of the mouse and blanks run leftwards from two
/// cells left of the mouse; otherwise the name starts four cells right of the mouse and
/// blanks run rightwards from two cells right of it. Either way there are
/// `width - len(s) - 1` blanks.
pub open spec fn tooltip_row(s: Seq<char>, width: int, mx: int, y: int) -> Seq<(int, int, Seq<char>)> {
    let pad = width - byte_len(s) - 1;
    if mx > 40 {
        seq![(mx - width, y, s)] + pads(mx - 2, -1, y, pad)
    } else {
        seq![(mx + 4, y, s)] + pads(mx + 2, 1, y, pad)
    }
}

/// The rows for `names`, the `k`-th on row `my + k`.
pub open spec fn tooltip_rows(names: Seq<Seq<char>>, width: int, mx: int, my: int) -> Seq<(int, int, Seq<char>)>
    decreases names.len(),
{
    if names.len() == 0 {
        Seq::empty()
    } else {
        tooltip_rows(names.drop_last(), width, mx, my) + tooltip_row(
            names.last(),
            width,
            mx,
            my + names.len() - 1,
        )
    }
}

/// The tooltip at mouse cell `(mx, my)` for the names found there: nothing if there are
/// none; else a box three cells wider than the longest name, one name a row from the
/// mouse's row down, and an arrow pointing at the mouse ("->" two cells left of it when
/// it is right of column 40, else "<-" one cell right of it).
pub open spec fn tooltip_layout(names: Seq<Seq<char>>, mx: int, my: int) -> Seq<(int, int, Seq<char>)> {
    if names.len() == 0 {
        Seq::empty()
    } else {
        let width = longest(names) + 3;
        if mx > 40 {
            tooltip_rows(names, width, mx, my).push((mx - 2, my, "->"@))
        } else {
            tooltip_rows(names, width, mx, my).push((mx + 1, my, "<-"@))
        }
    }
}

/// Every name of `names`, the `k`-th on row `my + k`, starts a row of the tooltip's
/// rows in a box `width` wide: at column `mx - width` when the mouse is right of
/// column 40, else at column `mx + 4`.
proof fn lemma_rows_hold_names(names: Seq<Seq<char>>, width: int, mx: int, my: int, k: int)
    requires
        0 <= k < names.len(),
    ensures
        tooltip_rows(names, width, mx, my).contains((if mx > 40 { mx - width } else { mx + 4 }, my + k, names[k])),
    decreases names.len(),
{
    let e = (if mx > 40 { mx - width } else { mx + 4 }, my + k, names[k]);
    let rest = names.drop_last();
    let rr = tooltip_rows(rest, width, mx, my);
    let row = tooltip_row(names.last(), width, mx, my + names.len() - 1);
    let all = tooltip_rows(names, width, mx, my);
    assert(all == rr + row);
    if k < rest.len() {
        lemma_rows_hold_names(rest, width, mx, my, k);
        assert(rest[k] == names[k]);
        let j = choose|j: int| 0 <= j < rr.len() && rr[j] == e;
        assert(all[j] == e);
    } else {
        assert(names[k] == names.last());
        assert(row[0] == e);
        assert(all[rr.len() as int] == e);
    }
}

/// Law: whichever side of the mouse the tooltip is drawn on, the `k`-th name found
/// under the mouse is printed on row `my + k`, so distinct names get distinct rows:
/// left of the mouse in a box three cells wider than the longest name when the mouse
/// is right of column 40, else four cells right of the mouse.
pub proof fn lemma_tooltip_name_rows(names: Seq<Seq<char>>, mx: int, my: int, k: int)
    requires
        0 <= k < names.len(),
    ensures
        tooltip_layout(names, mx, my).contains(
            (if mx > 40 { mx - (longest(names) + 3) } else { mx + 4 }, my + k, names[k]),
        ),
{
    let width = longest(names) + 3;
    let e = (if mx > 40 { mx - width } else { mx + 4 }, my + k, names[k]);
    lemma_rows_hold_names(names, width, mx, my, k);
    let rows = tooltip_rows(names, width, mx, my);
    let j = choose|j: int| 0 <= j < rows.len() && rows[j] == e;
    assert(tooltip_layout(names, mx, my)[j] == e);
}

/// The tooltip for the mouse at `(mx, my)` fits in `i32` coordinates.
pub open spec fn tooltip_fits(named: Seq<(Name, Position)>, mx: i32, my: i32) -> bool {
    let names = names_at(named, mx, my);
    &&& forall|k: int| 0 <= k < names.len() ==> byte_len(#[trigger] names[k]) <= i32::MAX - 3
    &&& my + names.len() <= i32::MAX
    &&& mx <= 40 ==> mx + longest(names) + 4 <= i32::MAX
}

proof fn lemma_longest_bounds(names: Seq<Seq<char>>, bound: int)
    requires
        forall|k: int| 0 <= k < names.len() ==> byte_len(#[trigger] names[k]) <= bound,
        0 <= bound,
    ensures
        0 <= longest(names) <= bound,
        forall|k: int| 0 <= k < names.len() ==> byte_len(#[trigger] names[k]) <= longest(names),
    decreases names.len(),
{
    if names.len() > 0 {
        let rest = names.drop_last();
        assert forall|k: int| 0 <= k < rest.len() implies byte_len(#[trigger] rest[k]) <= bound by {
            assert(rest[k] == names[k]);
        }
        lemma_longest_bounds(rest, bound);
        assert forall|k: int| 0 <= k < names.len() implies byte_len(#[trigger] names[k]) <= longest(names) by {
            if k < rest.len() {
                assert(rest[k] == names[k]);
            }
        }
    }
}

/// The names of the entries of `named` that stand at `(mx, my)`, in order.
fn collect_names_at(named: &Vec<(Name, Position)>, mx: i32, my: i32) -> (names: Vec<String>)
    ensures
        names@.map_values(|s: String| s@) == names_at(named@, mx, my),
{
    let mut names: Vec<String> = Vec::new();
    let n = named.len();
    let mut i: usize = 0;
    assert(named@.take(0) =~= Seq::<(Name, Position)>::empty());
    while i < n
        invariant
            n == named@.len(),
            i <= n,
            names@.map_values(|s: String| s@) == names_at(named@.take(i as int), mx, my),
        decreases n - i,
    {
        assert(named@.take(i + 1).drop_last() =~= named@.take(i as int));
        let (nm, pos) = &named[i];
        if pos.x == mx && pos.y == my {
            let ghost before = names@;
            names.push(nm.name.clone());
            assert(names@.map_values(|s: String| s@) =~= before.map_values(|s: String| s@).push(nm.name@));
        }
        i = i + 1;
    }
    assert(named@.take(n as int) =~= named@);
    names
}

/// The tooltip to draw where the mouse is: nothing if the mouse is right of or below
/// the map (`mx >= map_width` or `my >= map_height`), else `tooltip_layout` of the
/// names of the entries of `named` standing under the mouse.
pub fn tooltip_texts(map_width: i32, map_height: i32, mx: i32, my: i32, named: &Vec<(Name, Position)>) -> (texts: Vec<ScreenText>)
    requires
        !(mx >= map_width || my >= map_height) ==> tooltip_fits(named@, mx, my),
    ensures
        mx >= map_width || my >= map_height ==> texts@.len() == 0,
        !(mx >= map_width || my >= map_height) ==> texts_view(texts@) == tooltip_layout(
            names_at(named@, mx, my),
            mx as int,
            my as int,
        ),
{
    let mut texts: Vec<ScreenText> = Vec::new();
    if mx >= map_width || my >= map_height {
        return texts;
    }
    let tooltip = collect_names_at(named, mx, my);
    let ghost names = names_at(named@, mx, my);
    assert(names.len() == tooltip@.len());
    assert forall|k: int| 0 <= k < names.len() implies #[trigger] names[k] == tooltip@[k]@ by {
        assert(tooltip@.map_values(|s: String| s@)[k] == tooltip@[k]@);
    }
    if tooltip.len() == 0 {
        return texts;
    }
    proof {
        lemma_longest_bounds(names, i32::MAX - 3);
    }
    let mut width: i32 = 0;
    let n = tooltip.len();
    let mut i: usize = 0;
    while i < n
        invariant
            n == tooltip@.len(),
            n == names.len(),
            i <= n,
            forall|k: int| 0 <= k < names.len() ==> #[trigger] names[k] == tooltip@[k]@,
            forall|k: int| 0 <= k < names.len() ==> byte_len(#[trigger] names[k]) <= i32::MAX - 3,
            width == longest(names.take(i as int)),
        decreases n - i,
    {
        assert(names.take(i + 1).drop_last() =~= names.take(i as int));
        let l = tooltip[i].as_str().len();
        assert(l == byte_len(names[i as int]));
        if width < l as i32 {
            width = l as i32;
        }
        i = i + 1;
    }
    assert(names.take(n as int) =~= names);
    width = width + 3;
    let mut y: i32 = my;
    let mut k: usize = 0;
    while k < n
        invariant
            n == tooltip@.len(),
            n == names.len(),
            n > 0,
            k <= n,
            forall|j: int| 0 <= j < names.len() ==> #[trigger] names[j] == tooltip@[j]@,
            forall|j: int| 0 <= j < names.len() ==> byte_len(#[trigger] names[j]) <= longest(names),
            0 <= longest(names) <= i32::MAX - 3,
            width == longest(names) + 3,
            my + n <= i32::MAX,
            mx <= 40 ==> mx + longest(names) + 4 <= i32::MAX,
            y == my + k,
            texts_view(texts@) == tooltip_rows(names.take(k as int), width as int, mx as int, my as int),
        decreases n - k,
    {
        assert(names.take(k + 1).drop_last() =~= names.take(k as int));
        let s = &tooltip[k];
        let len = s.as_str().len() as i32;
        assert(len == byte_len(names[k as int]));
        let padding = (width - len) - 1;
        let ghost row_start = texts_view(texts@);
        if mx > 40 {
            let left_x = mx - width;
            let arrow_x = mx - 2;
            texts.push(ScreenText { x: left_x, y, text: s.clone() });
            let mut p: i32 = 0;
            while p < padding
                invariant
                    0 <= p <= padding,
                    padding == width - len - 1,
                    arrow_x == mx - 2,
                    mx > 40,
                    texts_view(texts@) == row_start + seq![(left_x as int, y as int, s@)] + pads(arrow_x as int, -1, y as int, p as int),
                decreases padding - p,
            {
                let ghost before = texts_view(texts@);
                texts.push(ScreenText { x: arrow_x - p, y, text: String::from_str(" ") });
                assert(texts_view(texts@) =~= before.push(((arrow_x - p) as int, y as int, " "@)));
                p = p + 1;
            }
        } else {
            let left_x = mx + 3;
            let arrow_x = mx + 1;
            texts.push(ScreenText { x: left_x + 1, y, text: s.clone() });
            let mut p: i32 = 0;
            while p < padding
                invariant
                    0 <= p <= padding,
                    padding == width - len - 1,
                    0 <= len,
                    arrow_x == mx + 1,
                    mx <= 40,
                    mx + width + 1 <= i32::MAX,
                    texts_view(texts@) == row_start + seq![((left_x + 1) as int, y as int, s@)] + pads(arrow_x as int + 1, 1, y as int, p as int),
                decreases padding - p,
            {
                let ghost before = texts_view(texts@);
                texts.push(ScreenText { x: arrow_x + 1 + p, y, text: String::from_str(" ") });
                assert(texts_view(texts@) =~= before.push(((arrow_x + 1 + p) as int, y as int, " "@)));
                p = p + 1;
            }
        }
        assert(texts_view(texts@) =~= tooltip_rows(names.take(k + 1), width as int, mx as int, my as int));
        y = y + 1;
        k = k + 1;
    }
    assert(names.take(n as int) =~= names);
    let ghost rows = texts_view(texts@);
    if mx > 40 {
        texts.push(ScreenText { x: mx - 2, y: my, text: String::from_str("->") });
        assert(texts_view(texts@) =~= rows.push(((mx - 2) as int, my as int, "->"@)));
    } else {
        texts.push(ScreenText { x: mx + 1, y: my, text: String::from_str("<-") });
        assert(texts_view(texts@) =~= rows.push(((mx + 1) as int, my as int, "<-"@)));
    }
    texts
}

} // verus!
