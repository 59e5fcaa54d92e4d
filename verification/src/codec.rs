//! A textual snapshot format for polygon cuts, with a proved round trip.
//!
//! A snapshot is a character sequence: the marker `C`, the two column
//! bindings, the vertex count, then the vertices.  Every number is written
//! as exactly [`DIGIT_WIDTH`] decimal digits (zero padded); a coordinate
//! carries a `+` or `-` sign in front.  An unbound column is the single
//! character `-`; a bound one is `s`, the name's length, then the name's
//! characters verbatim.  Fixed widths and length prefixes make the format
//! unambiguous without any escaping, whatever characters a column name
//! holds.  [`lemma_snapshot_round_trip`] proves that parsing a rendered
//! snapshot restores the polygon exactly.

use vstd::prelude::*;

use crate::polygon::{coord_ok, PolyView, Polygon};
use crate::COORD_LIMIT;

verus! {

/// Every number in a snapshot takes exactly this many decimal digits.
pub const DIGIT_WIDTH: usize = 20;

/// The decimal digit character for `d` (meaningful for `0 <= d <= 9`).
pub open spec fn digit_char(d: int) -> char {
    if d == 0 {
        '0'
    } else if d == 1 {
        '1'
    } else if d == 2 {
        '2'
    } else if d == 3 {
        '3'
    } else if d == 4 {
        '4'
    } else if d == 5 {
        '5'
    } else if d == 6 {
        '6'
    } else if d == 7 {
        '7'
    } else if d == 8 {
        '8'
    } else {
        '9'
    }
}

/// The value of a decimal digit character, `-1` for any other character.
pub open spec fn char_digit(c: char) -> int {
    if c == '0' {
        0
    } else if c == '1' {
        1
    } else if c == '2' {
        2
    } else if c == '3' {
        3
    } else if c == '4' {
        4
    } else if c == '5' {
        5
    } else if c == '6' {
        6
    } else if c == '7' {
        7
    } else if c == '8' {
        8
    } else if c == '9' {
        9
    } else {
        -1
    }
}

/// Whether `c` is a decimal digit character.
pub open spec fn is_digit(c: char) -> bool {
    char_digit(c) >= 0
}

/// Whether every character of `s` is a decimal digit.
pub open spec fn all_digits(s: Seq<char>) -> bool {
    forall|i: int| 0 <= i < s.len() ==> is_digit(#[trigger] s[i])
}

/// Ten to the power `k`.
pub open spec fn pow10(k: nat) -> int
    decreases k,
{
    if k == 0 {
        1
    } else {
        10 * pow10((k - 1) as nat)
    }
}

/// `n` written as exactly `k` decimal digits, least significant last.
pub open spec fn fixdigits(n: int, k: nat) -> Seq<char>
    decreases k,
{
    if k == 0 {
        Seq::empty()
    } else {
        fixdigits(n / 10, (k - 1) as nat).push(digit_char(n % 10))
    }
}

/// The number a digit string denotes.
pub open spec fn val_of(s: Seq<char>) -> int
    decreases s.len(),
{
    if s.len() == 0 {
        0
    } else {
        val_of(s.drop_last()) * 10 + char_digit(s.last())
    }
}

/// Reading back the character of a digit yields the digit.
pub proof fn lemma_digit_char_inverse(d: int)
    requires
        0 <= d <= 9,
    ensures
        char_digit(digit_char(d)) == d,
{
}

/// The value of ten to the snapshot width.
pub proof fn lemma_pow10_width()
    ensures
        pow10(20) == 100000000000000000000,
{
    reveal_with_fuel(pow10, 21);
}

/// Powers of ten up to the snapshot width are positive and bounded.
pub proof fn lemma_pow10_bound(k: nat)
    requires
        k <= 20,
    ensures
        0 < pow10(k) <= 100000000000000000000,
    decreases 20 - k,
{
    if k == 20 {
        lemma_pow10_width();
    } else {
        lemma_pow10_bound((k + 1) as nat);
        assert(pow10((k + 1) as nat) == 10 * pow10(k));
    }
}

/// A number below `pow10(k)` renders as `k` digits that read back as the
/// same number.
pub proof fn lemma_fixdigits_props(n: int, k: nat)
    requires
        0 <= n < pow10(k),
    ensures
        fixdigits(n, k).len() == k,
        all_digits(fixdigits(n, k)),
        val_of(fixdigits(n, k)) == n,
    decreases k,
{
    if k == 0 {
        assert(fixdigits(n, k) =~= Seq::<char>::empty());
    } else {
        let km1 = (k - 1) as nat;
        assert(pow10(k) == 10 * pow10(km1));
        vstd::arithmetic::div_mod::lemma_multiply_divide_lt(n, 10, pow10(km1));
        vstd::arithmetic::div_mod::lemma_div_pos_is_pos(n, 10);
        lemma_fixdigits_props(n / 10, km1);
        let pre = fixdigits(n / 10, km1);
        let d = n % 10;
        vstd::arithmetic::div_mod::lemma_fundamental_div_mod(n, 10);
        vstd::arithmetic::div_mod::lemma_mod_bound(n, 10);
        lemma_digit_char_inverse(d);
        let whole = fixdigits(n, k);
        assert(whole.drop_last() =~= pre);
        assert(whole.last() == digit_char(d));
        assert forall|i: int| 0 <= i < whole.len() implies is_digit(#[trigger] whole[i]) by {
            if i < k - 1 {
                assert(is_digit(pre[i]));
            }
        }
    }
}

/// The parsed number at position `i`: defined when [`DIGIT_WIDTH`] digit
/// characters start there.
pub open spec fn parse_fix(s: Seq<char>, i: int) -> Option<int> {
    if 0 <= i && i + 20 <= s.len() && all_digits(s.subrange(i, i + 20)) {
        Some(val_of(s.subrange(i, i + 20)))
    } else {
        None
    }
}

/// The parsed signed coordinate at position `i`: a sign character, then
/// the magnitude.
pub open spec fn parse_int(s: Seq<char>, i: int) -> Option<int> {
    if 0 <= i && i < s.len() && (s[i] == '+' || s[i] == '-') {
        match parse_fix(s, i + 1) {
            Some(v) => Some(
                if s[i] == '-' {
                    -v
                } else {
                    v
                },
            ),
            None => None,
        }
    } else {
        None
    }
}

/// The parsed column binding at position `i`, with the position after it.
pub open spec fn parse_opt_name(s: Seq<char>, i: int) -> Option<(Option<Seq<char>>, int)> {
    if 0 <= i && i < s.len() && s[i] == '-' {
        Some((None, i + 1))
    } else if 0 <= i && i < s.len() && s[i] == 's' {
        match parse_fix(s, i + 1) {
            Some(len) => if i + 21 + len <= s.len() {
                Some((Some(s.subrange(i + 21, i + 21 + len)), i + 21 + len))
            } else {
                None
            },
            None => None,
        }
    } else {
        None
    }
}

/// The parsed run of `cnt` vertices at position `i`, with the position
/// after them.  Each coordinate must satisfy [`coord_ok`].
pub open spec fn parse_vertices(s: Seq<char>, i: int, cnt: int) -> Option<(Seq<(i64, i64)>, int)>
    decreases cnt,
{
    if cnt <= 0 {
        Some((Seq::empty(), i))
    } else {
        match parse_int(s, i) {
            Some(x) => match parse_int(s, i + 21) {
                Some(y) => if coord_ok(x, y) {
                    match parse_vertices(s, i + 42, cnt - 1) {
                        Some((rest, e)) => Some((seq![(x as i64, y as i64)] + rest, e)),
                        None => None,
                    }
                } else {
                    None
                },
                None => None,
            },
            None => None,
        }
    }
}

/// The polygon a whole snapshot denotes, if it is well formed from the
/// first character to the last.
pub open spec fn parse_snapshot(s: Seq<char>) -> Option<PolyView> {
    if s.len() >= 1 && s[0] == 'C' {
        match parse_opt_name(s, 1) {
            Some((xc, i1)) => match parse_opt_name(s, i1) {
                Some((yc, i2)) => match parse_fix(s, i2) {
                    Some(nv) => match parse_vertices(s, i2 + 20, nv) {
                        Some((vs, e)) => if e == s.len() {
                            Some(PolyView { vertices: vs, x_col: xc, y_col: yc })
                        } else {
                            None
                        },
                        None => None,
                    },
                    None => None,
                },
                None => None,
            },
            None => None,
        }
    } else {
        None
    }
}

/// A signed coordinate, rendered.
pub open spec fn render_int(v: int) -> Seq<char> {
    if v < 0 {
        seq!['-'] + fixdigits(-v, 20)
    } else {
        seq!['+'] + fixdigits(v, 20)
    }
}

/// A column binding, rendered.
pub open spec fn render_opt_name(c: Option<Seq<char>>) -> Seq<char> {
    match c {
        None => seq!['-'],
        Some(name) => seq!['s'] + fixdigits(name.len() as int, 20) + name,
    }
}

/// The vertices from index `k` on, rendered in order.
pub open spec fn render_vertices_from(vs: Seq<(i64, i64)>, k: int) -> Seq<char>
    decreases vs.len() - k,
{
    if k < 0 || k >= vs.len() {
        Seq::empty()
    } else {
        render_int(vs[k].0 as int) + render_int(vs[k].1 as int) + render_vertices_from(vs, k + 1)
    }
}

/// A whole polygon, rendered as a snapshot.
pub open spec fn render_snapshot(m: PolyView) -> Seq<char> {
    seq!['C'] + render_opt_name(m.x_col) + render_opt_name(m.y_col) + fixdigits(
        m.vertices.len() as int,
        20,
    ) + render_vertices_from(m.vertices, 0)
}

/// Whether a polygon model fits the snapshot format: vertices within the
/// coordinate bounds, and lengths below ten to the digit width (every
/// in-memory polygon satisfies the length bounds trivially).
pub open spec fn snapshot_encodable(m: PolyView) -> bool {
    &&& m.valid()
    &&& m.vertices.len() < pow10(20)
    &&& match m.x_col {
        Some(n) => n.len() < pow10(20),
        None => true,
    }
    &&& match m.y_col {
        Some(n) => n.len() < pow10(20),
        None => true,
    }
}

/// A rendered signed coordinate is a sign and twenty digits long.
proof fn lemma_render_int_len(v: int)
    requires
        -pow10(20) < v < pow10(20),
    ensures
        render_int(v).len() == 21,
{
    if v < 0 {
        lemma_fixdigits_props(-v, 20);
    } else {
        lemma_fixdigits_props(v, 20);
    }
}

/// A rendered column binding's length.
proof fn lemma_render_opt_name_len(c: Option<Seq<char>>)
    requires
        match c {
            Some(n) => n.len() < pow10(20),
            None => true,
        },
    ensures
        render_opt_name(c).len() == match c {
            None => 1int,
            Some(n) => 21 + n.len() as int,
        },
{
    match c {
        None => {
        },
        Some(n) => {
            lemma_fixdigits_props(n.len() as int, 20);
        },
    }
}

/// A rendered fixed-width number standing at position `i` parses back.
proof fn lemma_parse_fix_at(s: Seq<char>, i: int, n: int)
    requires
        0 <= i,
        0 <= n < pow10(20),
        i + 20 <= s.len(),
        s.subrange(i, i + 20) == fixdigits(n, 20),
    ensures
        parse_fix(s, i) == Some(n),
{
    lemma_fixdigits_props(n, 20);
}

/// A rendered signed coordinate standing at position `i` parses back.
proof fn lemma_parse_int_at(s: Seq<char>, i: int, v: int)
    requires
        0 <= i,
        -pow10(20) < v < pow10(20),
        i + 21 <= s.len(),
        s.subrange(i, i + 21) == render_int(v),
    ensures
        parse_int(s, i) == Some(v),
{
    let r = render_int(v);
    if v < 0 {
        lemma_fixdigits_props(-v, 20);
    } else {
        lemma_fixdigits_props(v, 20);
    }
    assert(s[i] == r[0]);
    assert(s.subrange(i + 1, i + 21) =~= r.subrange(1, 21));
    if v < 0 {
        assert(r.subrange(1, 21) =~= fixdigits(-v, 20));
        lemma_parse_fix_at(s, i + 1, -v);
    } else {
        assert(r.subrange(1, 21) =~= fixdigits(v, 20));
        lemma_parse_fix_at(s, i + 1, v);
    }
}

/// A rendered column binding standing at position `i` parses back.
proof fn lemma_parse_opt_name_at(s: Seq<char>, i: int, c: Option<Seq<char>>)
    requires
        0 <= i,
        match c {
            Some(n) => n.len() < pow10(20),
            None => true,
        },
        i + render_opt_name(c).len() <= s.len(),
        s.subrange(i, i + render_opt_name(c).len()) == render_opt_name(c),
    ensures
        parse_opt_name(s, i) == Some((c, i + render_opt_name(c).len())),
{
    let r = render_opt_name(c);
    lemma_render_opt_name_len(c);
    assert(s[i] == r[0]);
    match c {
        None => {
        },
        Some(name) => {
            let l = name.len() as int;
            lemma_fixdigits_props(l, 20);
            assert(s.subrange(i + 1, i + 21) =~= r.subrange(1, 21));
            assert(r.subrange(1, 21) =~= fixdigits(l, 20));
            lemma_parse_fix_at(s, i + 1, l);
            assert(s.subrange(i + 21, i + 21 + l) =~= r.subrange(21, 21 + l));
            assert(r.subrange(21, 21 + l) =~= name);
        },
    }
}

/// A rendered vertex run standing at position `i` parses back to exactly
/// the remaining vertices.
proof fn lemma_parse_vertices_at(s: Seq<char>, i: int, vs: Seq<(i64, i64)>, k: int)
    requires
        0 <= k <= vs.len(),
        0 <= i,
        forall|j: int|
            0 <= j < vs.len() ==> #[trigger] coord_ok(vs[j].0 as int, vs[j].1 as int),
        i + render_vertices_from(vs, k).len() <= s.len(),
        s.subrange(i, i + render_vertices_from(vs, k).len()) == render_vertices_from(vs, k),
    ensures
        parse_vertices(s, i, vs.len() - k) == Some(
            (vs.subrange(k, vs.len() as int), i + render_vertices_from(vs, k).len()),
        ),
    decreases vs.len() - k,
{
    let r = render_vertices_from(vs, k);
    if k == vs.len() {
        assert(vs.subrange(k, vs.len() as int) =~= Seq::<(i64, i64)>::empty());
    } else {
        let x = vs[k].0 as int;
        let y = vs[k].1 as int;
        let rx = render_int(x);
        let ry = render_int(y);
        let rest = render_vertices_from(vs, k + 1);
        assert(coord_ok(x, y));
        lemma_pow10_width();
        lemma_render_int_len(x);
        lemma_render_int_len(y);
        assert(r =~= rx + ry + rest);
        assert(s.subrange(i, i + 21) =~= rx);
        assert forall|t: int| 0 <= t < 21 implies s.subrange(i + 21, i + 42)[t] == ry[t] by {
            assert(s.subrange(i, i + r.len() as int)[21 + t] == s[i + 21 + t]);
            assert(r[21 + t] == ry[t]);
        }
        assert(s.subrange(i + 21, i + 42) =~= ry);
        lemma_parse_int_at(s, i, x);
        lemma_parse_int_at(s, i + 21, y);
        assert forall|t: int| 0 <= t < rest.len() implies s.subrange(
            i + 42,
            i + 42 + rest.len(),
        )[t] == rest[t] by {
            assert(s.subrange(i, i + r.len() as int)[42 + t] == s[i + 42 + t]);
            assert(r[42 + t] == rest[t]);
        }
        assert(s.subrange(i + 42, i + 42 + rest.len()) =~= rest);
        lemma_parse_vertices_at(s, i + 42, vs, k + 1);
        assert(seq![(x as i64, y as i64)] + vs.subrange(k + 1, vs.len() as int) =~= vs.subrange(
            k,
            vs.len() as int,
        ));
    }
}

/// Prepending already-parsed vertices onto the outcome of parsing the
/// remaining ones.
pub open spec fn prepend_verts(
    pre: Seq<(i64, i64)>,
    o: Option<(Seq<(i64, i64)>, int)>,
) -> Option<(Seq<(i64, i64)>, int)> {
    match o {
        Some((rest, e)) => Some((pre + rest, e)),
        None => None,
    }
}

/// Shifting one vertex from the head of the unparsed run onto the parsed
/// prefix commutes with prepending.
proof fn lemma_prepend_shift(
    pre: Seq<(i64, i64)>,
    v: (i64, i64),
    o: Option<(Seq<(i64, i64)>, int)>,
)
    ensures
        prepend_verts(pre, prepend_verts(seq![v], o)) == prepend_verts(pre.push(v), o),
{
    match o {
        Some((rest, e)) => {
            assert(pre + (seq![v] + rest) =~= pre.push(v) + rest);
        },
        None => {
        },
    }
}

/// Law: a snapshot renders and parses back to the identical polygon:
/// vertex order and values, and both column names, are preserved exactly.
pub proof fn lemma_snapshot_round_trip(m: PolyView)
    requires
        snapshot_encodable(m),
    ensures
        parse_snapshot(render_snapshot(m)) == Some(m),
{
    let s = render_snapshot(m);
    let rx = render_opt_name(m.x_col);
    let ry = render_opt_name(m.y_col);
    let rn = fixdigits(m.vertices.len() as int, 20);
    let rv = render_vertices_from(m.vertices, 0);
    lemma_render_opt_name_len(m.x_col);
    lemma_render_opt_name_len(m.y_col);
    lemma_fixdigits_props(m.vertices.len() as int, 20);
    let i1 = 1 + rx.len() as int;
    let i2 = i1 + ry.len() as int;
    let i3 = i2 + 20;
    assert(s.len() == i3 + rv.len());
    assert(s[0] == 'C');
    assert(s.subrange(1, i1) =~= rx);
    lemma_parse_opt_name_at(s, 1, m.x_col);
    assert(s.subrange(i1, i2) =~= ry);
    lemma_parse_opt_name_at(s, i1, m.y_col);
    assert(s.subrange(i2, i3) =~= rn);
    lemma_parse_fix_at(s, i2, m.vertices.len() as int);
    assert(s.subrange(i3, i3 + rv.len()) =~= rv);
    lemma_parse_vertices_at(s, i3, m.vertices, 0);
    assert(m.vertices.subrange(0, m.vertices.len() as int) =~= m.vertices);
    assert(parse_snapshot(s) == Some(
        PolyView { vertices: m.vertices, x_col: m.x_col, y_col: m.y_col },
    ));
    assert(PolyView { vertices: m.vertices, x_col: m.x_col, y_col: m.y_col } =~= m);
}

/// The character for one decimal digit.
fn digit_to_char(d: u8) -> (r: char)
    requires
        d < 10,
    ensures
        r == digit_char(d as int),
{
    if d == 0 {
        '0'
    } else if d == 1 {
        '1'
    } else if d == 2 {
        '2'
    } else if d == 3 {
        '3'
    } else if d == 4 {
        '4'
    } else if d == 5 {
        '5'
    } else if d == 6 {
        '6'
    } else if d == 7 {
        '7'
    } else if d == 8 {
        '8'
    } else {
        '9'
    }
}

/// The decimal digit a character denotes, if any.
fn char_to_digit(c: char) -> (r: Option<u8>)
    ensures
        match r {
            Some(d) => is_digit(c) && d == char_digit(c),
            None => !is_digit(c),
        },
{
    if c == '0' {
        Some(0)
    } else if c == '1' {
        Some(1)
    } else if c == '2' {
        Some(2)
    } else if c == '3' {
        Some(3)
    } else if c == '4' {
        Some(4)
    } else if c == '5' {
        Some(5)
    } else if c == '6' {
        Some(6)
    } else if c == '7' {
        Some(7)
    } else if c == '8' {
        Some(8)
    } else if c == '9' {
        Some(9)
    } else {
        None
    }
}

/// Appends `n` as exactly `k` decimal digits.
fn push_fix(out: &mut Vec<char>, n: u128, k: usize)
    requires
        k <= 20,
        (n as int) < pow10(k as nat),
    ensures
        final(out)@ == old(out)@ + fixdigits(n as int, k as nat),
    decreases k,
{
    if k == 0 {
        proof {
            assert(old(out)@ + fixdigits(n as int, 0) =~= old(out)@);
        }
        return ;
    }
    proof {
        assert(pow10(k as nat) == 10 * pow10((k - 1) as nat));
        vstd::arithmetic::div_mod::lemma_multiply_divide_lt(
            n as int,
            10,
            pow10((k - 1) as nat),
        );
        vstd::arithmetic::div_mod::lemma_mod_bound(n as int, 10);
    }
    push_fix(out, n / 10, k - 1);
    let d: u8 = (n % 10) as u8;
    let c: char = digit_to_char(d);
    out.push(c);
    proof {
        assert(final(out)@ =~= old(out)@ + fixdigits(n as int, k as nat));
    }
}

/// Appends a signed coordinate: a sign and the magnitude's digits.
fn push_int(out: &mut Vec<char>, v: i64)
    ensures
        final(out)@ == old(out)@ + render_int(v as int),
{
    proof {
        lemma_pow10_width();
    }
    if v < 0 {
        out.push('-');
        let m: u128 = (-(v as i128)) as u128;
        push_fix(out, m, 20);
        proof {
            assert(final(out)@ =~= old(out)@ + render_int(v as int));
        }
    } else {
        out.push('+');
        push_fix(out, v as u128, 20);
        proof {
            assert(final(out)@ =~= old(out)@ + render_int(v as int));
        }
    }
}

/// Appends a column binding.
fn push_opt_name(out: &mut Vec<char>, name: &Option<Vec<char>>)
    ensures
        final(out)@ == old(out)@ + render_opt_name(
            match *name {
                Some(ref n) => Some(n@),
                None => None,
            },
        ),
{
    match name {
        None => {
            out.push('-');
            proof {
                assert(final(out)@ =~= old(out)@ + render_opt_name(None));
            }
        },
        Some(nm) => {
            proof {
                lemma_pow10_width();
            }
            out.push('s');
            push_fix(out, nm.len() as u128, 20);
            let ghost base = out@;
            let mut j: usize = 0;
            while j < nm.len()
                invariant
                    j <= nm@.len(),
                    out@ == base + nm@.subrange(0, j as int),
                decreases nm@.len() - j,
            {
                out.push(nm[j]);
                proof {
                    assert(out@ =~= base + nm@.subrange(0, j + 1));
                }
                j = j + 1;
            }
            proof {
                assert(nm@.subrange(0, nm@.len() as int) =~= nm@);
                assert(final(out)@ =~= old(out)@ + render_opt_name(Some(nm@)));
            }
        },
    }
}

/// Reads the fixed-width number at `pos`.
fn read_fix(text: &Vec<char>, pos: usize) -> (r: Option<(u128, usize)>)
    requires
        pos <= text@.len(),
    ensures
        match r {
            Some((v, p)) => {
                &&& parse_fix(text@, pos as int) == Some(v as int)
                &&& (v as int) < pow10(20)
                &&& p == pos + 20
                &&& p <= text@.len()
            },
            None => parse_fix(text@, pos as int) is None,
        },
{
    let n: usize = text.len();
    if n - pos < 20 {
        return None;
    }
    let mut val: u128 = 0;
    let mut k: usize = 0;
    proof {
        assert(text@.subrange(pos as int, pos as int) =~= Seq::<char>::empty());
    }
    while k < 20
        invariant
            pos + 20 <= n,
            n == text@.len(),
            k <= 20,
            all_digits(text@.subrange(pos as int, pos as int + k as int)),
            val == val_of(text@.subrange(pos as int, pos as int + k as int)),
            (val as int) < pow10(k as nat),
        decreases 20 - k,
    {
        let c: char = text[pos + k];
        let d: u8 = match char_to_digit(c) {
            Some(d) => d,
            None => {
                proof {
                    assert(text@.subrange(pos as int, pos as int + 20)[k as int] == c);
                }
                return None;
            },
        };
        proof {
            lemma_pow10_bound((k + 1) as nat);
            assert(pow10((k + 1) as nat) == 10 * pow10(k as nat));
            let snew = text@.subrange(pos as int, pos as int + k + 1);
            assert(snew.drop_last() =~= text@.subrange(pos as int, pos as int + k as int));
            assert(snew.last() == c);
            assert forall|i: int| 0 <= i < snew.len() implies is_digit(#[trigger] snew[i]) by {
                if i < k {
                    assert(is_digit(text@.subrange(pos as int, pos as int + k as int)[i]));
                }
            }
        }
        val = val * 10 + (d as u128);
        k = k + 1;
    }
    Some((val, pos + 20))
}

/// Reads the signed coordinate at `pos`.
fn read_int(text: &Vec<char>, pos: usize) -> (r: Option<(i128, usize)>)
    requires
        pos <= text@.len(),
    ensures
        match r {
            Some((v, p)) => {
                &&& parse_int(text@, pos as int) == Some(v as int)
                &&& p == pos + 21
                &&& p <= text@.len()
            },
            None => parse_int(text@, pos as int) is None,
        },
{
    if pos >= text.len() {
        return None;
    }
    let c: char = text[pos];
    if c == '+' {
        match read_fix(text, pos + 1) {
            Some((m, p)) => {
                proof {
                    lemma_pow10_width();
                }
                Some((m as i128, p))
            },
            None => None,
        }
    } else if c == '-' {
        match read_fix(text, pos + 1) {
            Some((m, p)) => {
                proof {
                    lemma_pow10_width();
                }
                Some((-(m as i128), p))
            },
            None => None,
        }
    } else {
        None
    }
}

/// Reads the column binding at `pos`.
fn read_opt_name(text: &Vec<char>, pos: usize) -> (r: Option<(Option<Vec<char>>, usize)>)
    requires
        pos <= text@.len(),
    ensures
        match r {
            Some((o, p)) => {
                &&& parse_opt_name(text@, pos as int) == Some(
                    (
                        match o {
                            Some(ref n) => Some(n@),
                            None => None,
                        },
                        p as int,
                    ),
                )
                &&& p <= text@.len()
            },
            None => parse_opt_name(text@, pos as int) is None,
        },
{
    if pos >= text.len() {
        return None;
    }
    let c: char = text[pos];
    if c == '-' {
        Some((None, pos + 1))
    } else if c == 's' {
        match read_fix(text, pos + 1) {
            Some((l128, p1)) => {
                let n: usize = text.len();
                if l128 > (n - p1) as u128 {
                    return None;
                }
                let l: usize = l128 as usize;
                let mut name: Vec<char> = Vec::new();
                let mut j: usize = 0;
                proof {
                    assert(text@.subrange(p1 as int, p1 as int) =~= Seq::<char>::empty());
                }
                while j < l
                    invariant
                        j <= l,
                        p1 + l <= n,
                        n == text@.len(),
                        name@ == text@.subrange(p1 as int, p1 as int + j as int),
                    decreases l - j,
                {
                    name.push(text[p1 + j]);
                    proof {
                        assert(name@ =~= text@.subrange(p1 as int, p1 as int + j + 1));
                    }
                    j = j + 1;
                }
                Some((Some(name), p1 + l))
            },
            None => None,
        }
    } else {
        None
    }
}

impl Polygon {
    /// Renders this polygon as a snapshot: the exact character sequence of
    /// [`render_snapshot`] applied to the polygon's model.
    pub fn to_snapshot(&self) -> (r: Vec<char>)
        ensures
            r@ == render_snapshot(self@),
    {
        let mut out: Vec<char> = Vec::new();
        out.push('C');
        push_opt_name(&mut out, &self.selected_x_column);
        push_opt_name(&mut out, &self.selected_y_column);
        proof {
            lemma_pow10_width();
        }
        push_fix(&mut out, self.vertices.len() as u128, 20);
        let ghost vs = self@.vertices;
        let ghost full = render_snapshot(self@);
        proof {
            assert(out@ + render_vertices_from(vs, 0) =~= full);
        }
        let mut i: usize = 0;
        while i < self.vertices.len()
            invariant
                i <= vs.len(),
                vs == self@.vertices,
                full == render_snapshot(self@),
                out@ + render_vertices_from(vs, i as int) == full,
            decreases vs.len() - i,
        {
            let (vx, vy) = self.vertices[i];
            push_int(&mut out, vx);
            push_int(&mut out, vy);
            proof {
                assert(out@ + render_vertices_from(vs, i + 1) =~= full);
            }
            i = i + 1;
        }
        proof {
            assert(out@ + render_vertices_from(vs, vs.len() as int) =~= out@);
        }
        out
    }

    /// Parses a snapshot.  Returns the polygon the text denotes under
    /// [`parse_snapshot`], or `None` exactly when the text is not a
    /// well-formed snapshot from its first character to its last.
    #[verifier::loop_isolation(false)]
    pub fn from_snapshot(text: &Vec<char>) -> (r: Option<Polygon>)
        ensures
            match r {
                Some(p) => p.wf() && parse_snapshot(text@) == Some(p@),
                None => parse_snapshot(text@) is None,
            },
    {
        if text.len() == 0 {
            return None;
        }
        let c0: char = text[0];
        if c0 != 'C' {
            return None;
        }
        let (xc, p1): (Option<Vec<char>>, usize) = match read_opt_name(text, 1) {
            Some(v) => v,
            None => {
                return None;
            },
        };
        let (yc, p2): (Option<Vec<char>>, usize) = match read_opt_name(text, p1) {
            Some(v) => v,
            None => {
                return None;
            },
        };
        let (cnt, p3): (u128, usize) = match read_fix(text, p2) {
            Some(v) => v,
            None => {
                return None;
            },
        };
        let ghost start = p3 as int;
        let ghost total = cnt as int;
        let mut verts: Vec<(i64, i64)> = Vec::new();
        let mut done: u128 = 0;
        let mut pos: usize = p3;
        proof {
            assert(prepend_verts(verts@, parse_vertices(text@, start, total)) == parse_vertices(
                text@,
                start,
                total,
            )) by {
                match parse_vertices(text@, start, total) {
                    Some((rest, e)) => {
                        assert(verts@ + rest =~= rest);
                    },
                    None => {
                    },
                }
            }
        }
        while done < cnt
            invariant
                done <= cnt,
                pos <= text@.len(),
                parse_vertices(text@, start, total) == prepend_verts(
                    verts@,
                    parse_vertices(text@, pos as int, total - done as int),
                ),
                forall|j: int|
                    0 <= j < verts@.len() ==> #[trigger] coord_ok(
                        verts@[j].0 as int,
                        verts@[j].1 as int,
                    ),
            decreases cnt - done,
        {
            let ghost rem = total - done as int;
            let (x, pa): (i128, usize) = match read_int(text, pos) {
                Some(v) => v,
                None => {
                    proof {
                        assert(parse_vertices(text@, pos as int, rem) is None);
                        assert(parse_snapshot(text@) is None);
                    }
                    return None;
                },
            };
            let (y, pb): (i128, usize) = match read_int(text, pa) {
                Some(v) => v,
                None => {
                    proof {
                        assert(parse_vertices(text@, pos as int, rem) is None);
                        assert(parse_snapshot(text@) is None);
                    }
                    return None;
                },
            };
            if x < -COORD_LIMIT as i128 || x > COORD_LIMIT as i128 || y < -COORD_LIMIT as i128
                || y > COORD_LIMIT as i128 {
                proof {
                    assert(!coord_ok(x as int, y as int));
                    assert(parse_vertices(text@, pos as int, rem) is None);
                    assert(parse_snapshot(text@) is None);
                }
                return None;
            }
            proof {
                assert(coord_ok(x as int, y as int));
                assert((x as i64) as int == x as int && (y as i64) as int == y as int);
                assert(parse_vertices(text@, pos as int, rem) == prepend_verts(
                    seq![(x as i64, y as i64)],
                    parse_vertices(text@, pos as int + 42, rem - 1),
                )) by {
                    match parse_vertices(text@, pos as int + 42, rem - 1) {
                        Some((rest, e)) => {
                        },
                        None => {
                        },
                    }
                }
                lemma_prepend_shift(
                    verts@,
                    (x as i64, y as i64),
                    parse_vertices(text@, pos as int + 42, rem - 1),
                );
            }
            verts.push((x as i64, y as i64));
            pos = pb;
            done = done + 1;
        }
        proof {
            assert(verts@ + Seq::<(i64, i64)>::empty() =~= verts@);
        }
        if pos != text.len() {
            return None;
        }
        let p = Polygon { vertices: verts, selected_x_column: xc, selected_y_column: yc };
        proof {
            assert(parse_snapshot(text@) == Some(p@));
        }
        Some(p)
    }
}

} // verus!
