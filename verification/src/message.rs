//! The text messages by which players see each other's boards: `Gaming: ` followed by one
//! `([x, y],Colour)` per cell.
use vstd::prelude::*;
use crate::vectors::{BVec, bvec_text};
use crate::buyo_game::{BType, btype_name, btype_named, lowercase, color};

verus! {

/// The text of one cell: `([x, y],Colour)`.
pub open spec fn cell_text(c: (BVec, BType)) -> Seq<char> {
    seq!['('] + bvec_text(c.0) + seq![','] + btype_name(c.1) + seq![')']
}

/// The texts of the cells, one after the other.
pub open spec fn cells_text(cells: Seq<(BVec, BType)>) -> Seq<char>
    decreases cells.len(),
{
    if cells.len() == 0 {
        Seq::empty()
    } else {
        cells_text(cells.drop_last()) + cell_text(cells.last())
    }
}

/// The message of a player who is playing: `Gaming: `, the cells of the board, then the
/// cells of the falling piece.
pub open spec fn game_message(board: Seq<(BVec, BType)>, piece: Seq<(BVec, BType)>) -> Seq<char> {
    "Gaming: "@ + cells_text(board) + cells_text(piece)
}

/// Appends the texts of `cells` to `s`.
fn append_cells(s: &mut String, cells: &Vec<(BVec, BType)>)
    ensures
        final(s)@ == old(s)@ + cells_text(cells@),
{
    let ghost start = s@;
    let mut i: usize = 0;
    while i < cells.len()
        invariant
            i <= cells@.len(),
            s@ == start + cells_text(cells@.take(i as int)),
        decreases cells@.len() - i,
    {
        let (v, t) = cells[i];
        let ghost before = s@;
        proof {
            reveal_strlit("(");
            reveal_strlit(",");
            reveal_strlit(")");
        }
        assert("("@ =~= seq!['(']);
        assert(","@ =~= seq![',']);
        assert(")"@ =~= seq![')']);
        s.append("(");
        let vt = v.to_string();
        s.append(vt.as_str());
        s.append(",");
        let tt = t.to_string();
        s.append(tt.as_str());
        s.append(")");
        assert(cells@.take(i + 1).drop_last() =~= cells@.take(i as int));
        assert(s@ =~= before + cell_text(cells@[i as int]));
        i = i + 1;
    }
    assert(cells@.take(cells@.len() as int) =~= cells@);
}

/// The message of a player who is playing, with the cells of the board and of the falling
/// piece.
pub fn serialize_game(board: &Vec<(BVec, BType)>, piece: &Vec<(BVec, BType)>) -> (s: String)
    ensures
        s@ == game_message(board@, piece@),
{
    proof {
        reveal_strlit("Gaming: ");
    }
    let mut s = String::from_str("Gaming: ");
    append_cells(&mut s, board);
    append_cells(&mut s, piece);
    s
}

/// `c` is a decimal digit.
pub open spec fn is_digit(c: char) -> bool {
    48 <= (c as int) <= 57
}

/// `c` lies between `A` and `z`, the characters a colour name is read from.
pub open spec fn is_name_char(c: char) -> bool {
    65 <= (c as int) <= 122
}

/// How many digits follow one another in `s` from index `i`.
pub open spec fn digit_len(s: Seq<char>, i: int) -> nat
    decreases s.len() - i,
{
    if 0 <= i < s.len() && is_digit(s[i]) {
        1 + digit_len(s, i + 1)
    } else {
        0
    }
}

/// How many name characters follow one another in `s` from index `i`.
pub open spec fn name_len(s: Seq<char>, i: int) -> nat
    decreases s.len() - i,
{
    if 0 <= i < s.len() && is_name_char(s[i]) {
        1 + name_len(s, i + 1)
    } else {
        0
    }
}

/// The cell text `([x, y],Name)` that starts at index `p` of `s`, with as many digits and
/// name characters as follow: the bounds `(x0, x1, y0, y1, n0, n1)` of the digits of `x`,
/// of `y` and of the name, the closing bracket being at `n1`.
pub open spec fn match_at(s: Seq<char>, p: int) -> Option<(int, int, int, int, int, int)> {
    if 0 <= p && p + 1 < s.len() && s[p] == '(' && s[p + 1] == '[' {
        let x1 = p + 2 + digit_len(s, p + 2);
        if x1 + 1 < s.len() && s[x1] == ',' && s[x1 + 1] == ' ' {
            let y1 = x1 + 2 + digit_len(s, x1 + 2);
            if y1 + 1 < s.len() && s[y1] == ']' && s[y1 + 1] == ',' {
                let n1 = y1 + 2 + name_len(s, y1 + 2);
                if n1 < s.len() && s[n1] == ')' {
                    Some((p + 2, x1, x1 + 2, y1, y1 + 2, n1))
                } else {
                    None
                }
            } else {
                None
            }
        } else {
            None
        }
    } else {
        None
    }
}

/// The cell texts of `s` from index `pos` on, leftmost first, none overlapping the one
/// before.
pub open spec fn scan(s: Seq<char>, pos: int) -> Seq<(int, int, int, int, int, int)>
    decreases s.len() - pos,
{
    if pos < 0 || pos >= s.len() {
        Seq::empty()
    } else {
        match match_at(s, pos) {
            Some(m) => seq![m] + scan(s, m.5 + 1),
            None => scan(s, pos + 1),
        }
    }
}

/// The number written by the digits of `s` from index `a` up to `b`.
pub open spec fn digits_value(s: Seq<char>, a: int, b: int) -> int
    decreases b - a,
{
    if b <= a {
        0
    } else {
        10 * digits_value(s, a, b - 1) + ((s[b - 1] as int) - 48)
    }
}

/// The digits from `a` up to `b` make a number that `u32` holds.
pub open spec fn number_ok(s: Seq<char>, a: int, b: int) -> bool {
    a < b && digits_value(s, a, b) <= u32::MAX
}

/// A cell text can be read: both numbers fit in `u32` and the name, in any letter case,
/// is a colour.
pub open spec fn capture_ok(s: Seq<char>, m: (int, int, int, int, int, int)) -> bool {
    &&& number_ok(s, m.0, m.1)
    &&& number_ok(s, m.2, m.3)
    &&& btype_named(lowercase(s.subrange(m.4, m.5))) is Some
}

/// The cell a cell text stands for.
pub open spec fn capture_cell(s: Seq<char>, m: (int, int, int, int, int, int)) -> (BVec, BType) {
    (
        BVec { x: (digits_value(s, m.0, m.1) as u32) as i32, y: (digits_value(s, m.2, m.3) as u32) as i32 },
        btype_named(lowercase(s.subrange(m.4, m.5)))->0,
    )
}

/// `t` occurs in `s` at index `i`.
pub open spec fn occurs_at(s: Seq<char>, t: Seq<char>, i: int) -> bool {
    0 <= i && i + t.len() <= s.len() && s.subrange(i, i + t.len()) == t
}

/// The last index before `n` at which `t` occurs in `s`, or `-1`.
pub open spec fn last_occurrence(s: Seq<char>, t: Seq<char>, n: int) -> int
    decreases n,
{
    if n <= 0 {
        -1
    } else if occurs_at(s, t, n - 1) {
        n - 1
    } else {
        last_occurrence(s, t, n - 1)
    }
}

/// What follows the last `Gaming: ` of a message (the whole message when there is none).
pub open spec fn board_part(s: Seq<char>) -> Seq<char> {
    let j = last_occurrence(s, "Gaming: "@, s.len() as int);
    if j >= 0 {
        s.skip(j + "Gaming: "@.len())
    } else {
        s
    }
}

/// The cell texts of a message: those of its board part when it mentions `Gaming`, none
/// otherwise.
pub open spec fn message_captures(s: Seq<char>) -> Seq<(int, int, int, int, int, int)> {
    if exists|i: int| occurs_at(s, "Gaming"@, i) {
        scan(board_part(s), 0)
    } else {
        Seq::empty()
    }
}

/// Every cell text of the message can be read.
pub open spec fn message_ok(s: Seq<char>) -> bool {
    forall|k: int| 0 <= k < message_captures(s).len() ==> capture_ok(board_part(s), #[trigger] message_captures(s)[k])
}

/// The cells a message stands for, in the order of their texts.
pub open spec fn message_cells(s: Seq<char>) -> Seq<(BVec, BType)> {
    message_captures(s).map_values(|m: (int, int, int, int, int, int)| capture_cell(board_part(s), m))
}

/// The bounds of a cell text as integers.
pub open spec fn bounds_int(m: (usize, usize, usize, usize, usize, usize)) -> (int, int, int, int, int, int) {
    (m.0 as int, m.1 as int, m.2 as int, m.3 as int, m.4 as int, m.5 as int)
}

/// Whether `t` occurs in `s` at index `i`.
fn occurs_now(s: &str, t: &str, i: usize) -> (r: bool)
    ensures
        r == occurs_at(s@, t@, i as int),
{
    let n = s.unicode_len();
    let m = t.unicode_len();
    if i > n || m > n - i {
        return false;
    }
    let mut k: usize = 0;
    while k < m
        invariant
            n == s@.len(),
            m == t@.len(),
            i + m <= n,
            k <= m,
            forall|j: int| 0 <= j < k ==> s@[i + j] == t@[j],
        decreases m - k,
    {
        if s.get_char(i + k) != t.get_char(k) {
            assert(s@.subrange(i as int, i + m)[k as int] != t@[k as int]);
            return false;
        }
        k = k + 1;
    }
    assert(s@.subrange(i as int, i + m) =~= t@);
    true
}

/// The index after the digits of `s` that start at `i`.
fn digit_end(s: &str, i: usize) -> (r: usize)
    requires
        i <= s@.len(),
    ensures
        r == i + digit_len(s@, i as int),
        r <= s@.len(),
{
    let n = s.unicode_len();
    let mut k: usize = i;
    loop
        invariant_except_break
            n == s@.len(),
            i <= k <= n,
            digit_len(s@, i as int) == (k - i) + digit_len(s@, k as int),
        ensures
            k == i + digit_len(s@, i as int),
            k <= n,
            n == s@.len(),
        decreases n - k,
    {
        if k >= n {
            break;
        }
        let c = s.get_char(k);
        if !('0' <= c && c <= '9') {
            break;
        }
        k = k + 1;
    }
    k
}

/// The index after the name characters of `s` that start at `i`.
fn name_end(s: &str, i: usize) -> (r: usize)
    requires
        i <= s@.len(),
    ensures
        r == i + name_len(s@, i as int),
        r <= s@.len(),
{
    let n = s.unicode_len();
    let mut k: usize = i;
    loop
        invariant_except_break
            n == s@.len(),
            i <= k <= n,
            name_len(s@, i as int) == (k - i) + name_len(s@, k as int),
        ensures
            k == i + name_len(s@, i as int),
            k <= n,
            n == s@.len(),
        decreases n - k,
    {
        if k >= n {
            break;
        }
        let c = s.get_char(k);
        if !('A' <= c && c <= 'z') {
            break;
        }
        k = k + 1;
    }
    k
}

/// The characters of a run of digits are digits.
proof fn lemma_digit_run(s: Seq<char>, i: int, k: int)
    requires
        0 <= i <= k < i + digit_len(s, i),
    ensures
        0 <= k < s.len(),
        is_digit(s[k]),
    decreases k - i,
{
    if k > i {
        lemma_digit_run(s, i + 1, k);
    }
}

/// A number written with digits is not negative.
proof fn lemma_value_nonneg(s: Seq<char>, a: int, b: int)
    requires
        forall|j: int| a <= j < b ==> is_digit(#[trigger] s[j]),
    ensures
        digits_value(s, a, b) >= 0,
    decreases b - a,
{
    if b > a {
        lemma_value_nonneg(s, a, b - 1);
        assert(is_digit(s[b - 1]));
    }
}

/// A number written with more digits is not smaller.
proof fn lemma_value_grows(s: Seq<char>, a: int, k: int, b: int)
    requires
        a <= k <= b,
        forall|j: int| a <= j < b ==> is_digit(#[trigger] s[j]),
    ensures
        0 <= digits_value(s, a, k) <= digits_value(s, a, b),
    decreases b - k,
{
    lemma_value_nonneg(s, a, k);
    if k < b {
        lemma_value_grows(s, a, k, b - 1);
        assert(is_digit(s[b - 1]));
    }
}

/// The cell text that starts at index `p` of `s` (see `match_at`).
fn match_at_now(s: &str, p: usize) -> (r: Option<(usize, usize, usize, usize, usize, usize)>)
    ensures
        r is None ==> match_at(s@, p as int) is None,
        r matches Some(m) ==> match_at(s@, p as int) == Some(bounds_int(m)),
        r matches Some(m) ==> m.5 < s@.len(),
{
    let n = s.unicode_len();
    if p >= n || n - p < 2 || s.get_char(p) != '(' || s.get_char(p + 1) != '[' {
        return None;
    }
    let x1 = digit_end(s, p + 2);
    if x1 >= n || n - x1 < 2 || s.get_char(x1) != ',' || s.get_char(x1 + 1) != ' ' {
        return None;
    }
    let y1 = digit_end(s, x1 + 2);
    if y1 >= n || n - y1 < 2 || s.get_char(y1) != ']' || s.get_char(y1 + 1) != ',' {
        return None;
    }
    let n1 = name_end(s, y1 + 2);
    if n1 >= n || s.get_char(n1) != ')' {
        return None;
    }
    Some((p + 2, x1, x1 + 2, y1, y1 + 2, n1))
}

/// The number written by the digits from `a` up to `b`, when there is at least one and
/// `u32` holds it.
fn number_now(s: &str, a: usize, b: usize) -> (r: Option<u32>)
    requires
        a <= b <= s@.len(),
        forall|j: int| a <= j < b ==> is_digit(#[trigger] s@[j]),
    ensures
        r == if number_ok(s@, a as int, b as int) {
            Some(digits_value(s@, a as int, b as int) as u32)
        } else {
            None::<u32>
        },
{
    if a == b {
        return None;
    }
    let mut v: u64 = 0;
    let mut k: usize = a;
    while k < b
        invariant
            a <= k <= b <= s@.len(),
            forall|j: int| a <= j < b ==> is_digit(#[trigger] s@[j]),
            v == digits_value(s@, a as int, k as int),
            v <= u32::MAX,
        decreases b - k,
    {
        let c = s.get_char(k);
        assert(is_digit(s@[k as int]));
        let d = (c as u32 - 48) as u64;
        let w = v * 10 + d;
        if w > 0xffff_ffff {
            proof {
                lemma_value_grows(s@, a as int, k + 1, b as int);
            }
            return None;
        }
        v = w;
        k = k + 1;
    }
    Some(v as u32)
}

/// The cell texts of `s` from index `pos` on (see `scan`).
fn scan_now(s: &str) -> (r: Vec<(usize, usize, usize, usize, usize, usize)>)
    ensures
        r@.map_values(|m: (usize, usize, usize, usize, usize, usize)| bounds_int(m)) == scan(s@, 0),
        forall|k: int| 0 <= k < r@.len() ==> match_at(s@, (#[trigger] r@[k]).0 - 2) == Some(bounds_int(r@[k])),
{
    let n = s.unicode_len();
    let mut caps: Vec<(usize, usize, usize, usize, usize, usize)> = Vec::new();
    let mut pos: usize = 0;
    while pos < n
        invariant
            n == s@.len(),
            pos <= n,
            caps@.map_values(|m: (usize, usize, usize, usize, usize, usize)| bounds_int(m)) + scan(s@, pos as int) == scan(s@, 0),
            forall|k: int| 0 <= k < caps@.len() ==> match_at(s@, (#[trigger] caps@[k]).0 - 2) == Some(bounds_int(caps@[k])),
        decreases n - pos,
    {
        let ghost before = caps@;
        match match_at_now(s, pos) {
            Some(m) => {
                caps.push(m);
                proof {
                    assert(caps@.map_values(|m: (usize, usize, usize, usize, usize, usize)| bounds_int(m)) =~= before.map_values(|m: (usize, usize, usize, usize, usize, usize)| bounds_int(m)).push(bounds_int(m)));
                    assert(scan(s@, pos as int) == seq![bounds_int(m)] + scan(s@, m.5 + 1));
                    assert(caps@.map_values(|m: (usize, usize, usize, usize, usize, usize)| bounds_int(m)) + scan(s@, m.5 + 1) =~= before.map_values(|m: (usize, usize, usize, usize, usize, usize)| bounds_int(m)) + scan(s@, pos as int));
                    assert forall|k: int| 0 <= k < caps@.len() implies match_at(s@, (#[trigger] caps@[k]).0 - 2) == Some(bounds_int(caps@[k])) by {
                        if k < before.len() {
                            assert(caps@[k] == before[k]);
                        }
                    }
                }
                pos = m.5 + 1;
            },
            None => {
                pos = pos + 1;
            },
        }
    }
    assert(scan(s@, pos as int) =~= Seq::<(int, int, int, int, int, int)>::empty());
    assert(caps@.map_values(|m: (usize, usize, usize, usize, usize, usize)| bounds_int(m)) + Seq::<(int, int, int, int, int, int)>::empty() =~= caps@.map_values(|m: (usize, usize, usize, usize, usize, usize)| bounds_int(m)));
    caps
}

/// Whether the text mentions `Gaming`.
fn mentions_gaming(s: &str) -> (r: bool)
    ensures
        r == exists|i: int| occurs_at(s@, "Gaming"@, i),
{
    proof {
        reveal_strlit("Gaming");
    }
    let n = s.unicode_len();
    let mut i: usize = 0;
    while i < n
        invariant
            n == s@.len(),
            i <= n,
            forall|j: int| 0 <= j < i ==> !occurs_at(s@, "Gaming"@, j),
        decreases n - i,
    {
        if occurs_now(s, "Gaming", i) {
            return true;
        }
        i = i + 1;
    }
    assert("Gaming"@.len() == 6);
    assert forall|j: int| !occurs_at(s@, "Gaming"@, j) by {
        if j >= n {
            assert(j + "Gaming"@.len() > s@.len());
        }
    }
    false
}

/// What follows the last `Gaming: ` of the text (all of it when there is none).
fn board_part_now(s: &str) -> (r: &str)
    ensures
        r@ == board_part(s@),
{
    proof {
        reveal_strlit("Gaming: ");
    }
    let n = s.unicode_len();
    let mut last: Option<usize> = None;
    let mut i: usize = 0;
    while i < n
        invariant
            n == s@.len(),
            i <= n,
            "Gaming: "@.len() == 8,
            last_occurrence(s@, "Gaming: "@, i as int) == match last {
                Some(j) => j as int,
                None => -1,
            },
            last matches Some(j) ==> occurs_at(s@, "Gaming: "@, j as int),
        decreases n - i,
    {
        if occurs_now(s, "Gaming: ", i) {
            last = Some(i);
        }
        i = i + 1;
    }
    match last {
        Some(j) => s.substring_char(j + 8, n),
        None => s,
    }
}

/// The cells of a message, in the order of their texts, or `None` when a cell text cannot
/// be read: a number with no digit, or too big for `u32`, or a name that is no colour.
pub fn deserialize_game_checked(game: &str) -> (r: Option<Vec<(BVec, BType)>>)
    ensures
        r is Some <==> message_ok(game@),
        r matches Some(v) ==> v@ == message_cells(game@),
{
    let ghost s = game@;
    if !mentions_gaming(game) {
        assert(message_captures(s) =~= Seq::<(int, int, int, int, int, int)>::empty());
        assert(message_cells(s) =~= Seq::<(BVec, BType)>::empty());
        return Some(Vec::new());
    }
    let part = board_part_now(game);
    let caps = scan_now(part);
    let ghost p = part@;
    let ghost mc = caps@.map_values(|m: (usize, usize, usize, usize, usize, usize)| bounds_int(m));
    assert(mc == message_captures(s));
    assert(p == board_part(s));
    let mut cells: Vec<(BVec, BType)> = Vec::new();
    let mut k: usize = 0;
    while k < caps.len()
        invariant
            s == game@,
            p == part@,
            mc == caps@.map_values(|m: (usize, usize, usize, usize, usize, usize)| bounds_int(m)),
            mc == message_captures(s),
            p == board_part(s),
            forall|q: int| 0 <= q < caps@.len() ==> match_at(p, (#[trigger] caps@[q]).0 - 2) == Some(bounds_int(caps@[q])),
            k <= caps@.len(),
            forall|q: int| 0 <= q < k ==> capture_ok(p, #[trigger] mc[q]),
            cells@ == mc.take(k as int).map_values(|m: (int, int, int, int, int, int)| capture_cell(p, m)),
        decreases caps@.len() - k,
    {
        let m = caps[k];
        assert(mc[k as int] == bounds_int(m));
        let ghost pp = (m.0 - 2) as int;
        assert(match_at(p, pp) == Some(bounds_int(m)));
        assert forall|j: int| m.0 <= j < m.1 implies is_digit(#[trigger] p[j]) by {
            lemma_digit_run(p, m.0 as int, j);
        }
        assert forall|j: int| m.2 <= j < m.3 implies is_digit(#[trigger] p[j]) by {
            lemma_digit_run(p, m.2 as int, j);
        }
        let x = number_now(part, m.0, m.1);
        let y = number_now(part, m.2, m.3);
        let name = part.substring_char(m.4, m.5);
        let t = <BType as color>::from_str(name);
        match (x, y, t) {
            (Some(xv), Some(yv), Some(tv)) => {
                let cell = (BVec::new(#[verifier::truncate] (xv as i32), #[verifier::truncate] (yv as i32)), tv);
                let ghost before = cells@;
                cells.push(cell);
                proof {
                    assert(capture_cell(p, mc[k as int]) == cell);
                    assert(mc.take(k + 1) =~= mc.take(k as int).push(mc[k as int]));
                    assert(cells@ =~= mc.take(k + 1).map_values(|m: (int, int, int, int, int, int)| capture_cell(p, m)));
                }
            },
            _ => {
                assert(!capture_ok(p, mc[k as int]));
                assert(message_captures(s)[k as int] == mc[k as int]);
                assert(!message_ok(s));
                return None;
            },
        }
        k = k + 1;
    }
    assert(mc.take(caps@.len() as int) =~= mc);
    assert(cells@ =~= message_cells(s));
    Some(cells)
}

/// The cells of a message whose cell texts can all be read (see `deserialize_game_checked`).
pub fn deserialize_game(game: &str) -> (r: Vec<(BVec, BType)>)
    requires
        message_ok(game@),
    ensures
        r@ == message_cells(game@),
{
    match deserialize_game_checked(game) {
        Some(v) => v,
        None => Vec::new(),
    }
}

/// The board that the cells make when they are put on it in order: a later cell at a
/// position replaces an earlier one.
pub open spec fn cells_board(cells: Seq<(BVec, BType)>) -> Map<BVec, BType>
    decreases cells.len(),
{
    if cells.len() == 0 {
        Map::empty()
    } else {
        cells_board(cells.drop_last()).insert(cells.last().0, cells.last().1)
    }
}

/// No two cells share a position.
pub open spec fn positions_unique(cells: Seq<(BVec, BType)>) -> bool {
    forall|i: int, j: int| 0 <= i < cells.len() && 0 <= j < cells.len() && i != j ==> (#[trigger] cells[i]).0
        != (#[trigger] cells[j]).0
}

/// Cells with distinct positions read as a map.
pub open spec fn unique_cells_map(cells: Seq<(BVec, BType)>) -> Map<BVec, BType> {
    Map::new(
        |k: BVec| exists|i: int| 0 <= i < cells.len() && (#[trigger] cells[i]).0 == k,
        |k: BVec| cells[choose|i: int| 0 <= i < cells.len() && (#[trigger] cells[i]).0 == k].1,
    )
}

/// The board of a message whose cell texts can all be read: one cell per position, the
/// last one the message gives there.
pub fn deserialize_board(game: &str) -> (r: Vec<(BVec, BType)>)
    requires
        message_ok(game@),
    ensures
        positions_unique(r@),
        unique_cells_map(r@) == cells_board(message_cells(game@)),
{
    let cells = deserialize_game(game);
    let mut out: Vec<(BVec, BType)> = Vec::new();
    let mut i: usize = 0;
    while i < cells.len()
        invariant
            i <= cells@.len(),
            positions_unique(out@),
            unique_cells_map(out@) == cells_board(cells@.take(i as int)),
        decreases cells@.len() - i,
    {
        let c = cells[i];
        let ghost before = out@;
        let mut j: usize = 0;
        let mut found = false;
        while j < out.len()
            invariant_except_break
                out@ == before,
                j <= out@.len(),
                !found,
                forall|q: int| 0 <= q < j ==> (#[trigger] out@[q]).0 != c.0,
            ensures
                out@ == before,
                found ==> j < out@.len() && out@[j as int].0 == c.0,
                !found ==> forall|q: int| 0 <= q < out@.len() ==> (#[trigger] out@[q]).0 != c.0,
            decreases out@.len() - j,
        {
            if out[j].0 == c.0 {
                found = true;
                break;
            }
            j = j + 1;
        }
        if found {
            out.set(j, c);
            proof {
                assert forall|a: int, b: int| 0 <= a < out@.len() && 0 <= b < out@.len() && a != b implies (#[trigger] out@[a]).0
                    != (#[trigger] out@[b]).0 by {
                    if a != j as int && b != j as int {
                        assert(before[a] == out@[a] && before[b] == out@[b]);
                    } else if a == j as int {
                        assert(before[b] == out@[b]);
                        assert(before[j as int].0 == c.0);
                    } else {
                        assert(before[a] == out@[a]);
                        assert(before[j as int].0 == c.0);
                    }
                }
                assert(unique_cells_map(out@) =~= unique_cells_map(before).insert(c.0, c.1)) by {
                    assert forall|k: BVec| #[trigger] unique_cells_map(out@).contains_key(k) implies unique_cells_map(before).insert(c.0, c.1).contains_key(k)
                        && unique_cells_map(out@)[k] == unique_cells_map(before).insert(c.0, c.1)[k] by {
                        let q = choose|q: int| 0 <= q < out@.len() && (#[trigger] out@[q]).0 == k;
                        if q != j as int {
                            assert(before[q] == out@[q]);
                            let q2 = choose|q2: int| 0 <= q2 < before.len() && (#[trigger] before[q2]).0 == k;
                            assert(q2 == q);
                        } else {
                            assert(out@[j as int] == c);
                        }
                    }
                    assert forall|k: BVec| #[trigger] unique_cells_map(before).insert(c.0, c.1).contains_key(k) implies unique_cells_map(out@).contains_key(k) by {
                        if k == c.0 {
                            assert(out@[j as int].0 == k);
                        } else {
                            let q = choose|q: int| 0 <= q < before.len() && (#[trigger] before[q]).0 == k;
                            assert(out@[q] == before[q]);
                        }
                    }
                }
            }
        } else {
            out.push(c);
            proof {
                assert forall|a: int, b: int| 0 <= a < out@.len() && 0 <= b < out@.len() && a != b implies (#[trigger] out@[a]).0
                    != (#[trigger] out@[b]).0 by {
                    if a < before.len() && b < before.len() {
                        assert(before[a] == out@[a] && before[b] == out@[b]);
                    } else if a < before.len() {
                        assert(before[a] == out@[a]);
                    } else {
                        assert(before[b] == out@[b]);
                    }
                }
                assert(unique_cells_map(out@) =~= unique_cells_map(before).insert(c.0, c.1)) by {
                    assert forall|k: BVec| #[trigger] unique_cells_map(out@).contains_key(k) implies unique_cells_map(before).insert(c.0, c.1).contains_key(k)
                        && unique_cells_map(out@)[k] == unique_cells_map(before).insert(c.0, c.1)[k] by {
                        let q = choose|q: int| 0 <= q < out@.len() && (#[trigger] out@[q]).0 == k;
                        if q < before.len() {
                            assert(before[q] == out@[q]);
                            let q2 = choose|q2: int| 0 <= q2 < before.len() && (#[trigger] before[q2]).0 == k;
                            assert(q2 == q);
                        } else {
                            assert(out@[q] == c);
                        }
                    }
                    assert forall|k: BVec| #[trigger] unique_cells_map(before).insert(c.0, c.1).contains_key(k) implies unique_cells_map(out@).contains_key(k) by {
                        if k == c.0 {
                            assert(out@[before.len() as int].0 == k);
                        } else {
                            let q = choose|q: int| 0 <= q < before.len() && (#[trigger] before[q]).0 == k;
                            assert(out@[q] == before[q]);
                        }
                    }
                }
            }
        }
        proof {
            assert(cells@.take(i + 1).drop_last() =~= cells@.take(i as int));
            assert(cells@.take(i + 1).last() == c);
        }
        i = i + 1;
    }
    assert(cells@.take(cells@.len() as int) =~= cells@);
    out
}

/// The screens a player can be on besides the game.
#[derive(Clone, Copy, PartialEq, Eq, Debug, Structural)]
pub enum Screen {
    Menu,
    LoadingAssets,
}

/// The message of a player on a screen other than the game: `Menu: ` or `LoadingAssets: `.
pub fn screen_message(screen: Screen) -> (s: String)
    ensures
        s@ == match screen {
            Screen::Menu => "Menu: "@,
            Screen::LoadingAssets => "LoadingAssets: "@,
        },
{
    match screen {
        Screen::Menu => String::from_str("Menu: "),
        Screen::LoadingAssets => String::from_str("LoadingAssets: "),
    }
}

} // verus!
