//! Load-time text parsing: the layout format (one character per tile, one
//! text line per row) and the enemy route format (one line per enemy,
//! space-separated decimal tile ids).
//!
//! The contracts are stated over the byte encoding of the input text; every
//! character of both formats is ASCII, and any other byte is itself a load
//! error.

use vstd::prelude::*;
use vstd::string::StringSliceAdditionalSpecFns;
use crate::board::{boxes_upto, grid_wf, Board, Tile};
use crate::errors::AmidarError;

verus! {

/// A byte of the layout alphabet.
pub open spec fn byte_tile_ok(b: u8) -> bool {
    b == '=' as u8 || b == 'p' as u8 || b == ' ' as u8
}

/// The tile a layout byte stands for.
pub open spec fn tile_from_byte(b: u8) -> Tile {
    if b == '=' as u8 {
        Tile::Unpainted
    } else if b == 'p' as u8 {
        Tile::Painted
    } else {
        Tile::Empty
    }
}

/// Fold of a line splitter: rows finished so far and the line being built.
/// A line feed, or a carriage return directly followed by one, ends a row.
pub open spec fn split_acc(s: Seq<u8>, rows: Seq<Seq<u8>>, cur: Seq<u8>) -> (
    Seq<Seq<u8>>,
    Seq<u8>,
)
    decreases s.len(),
{
    if s.len() == 0 {
        (rows, cur)
    } else if s[0] == '\n' as u8 {
        split_acc(s.drop_first(), rows.push(cur), Seq::empty())
    } else if s[0] == '\r' as u8 && s.len() >= 2 && s[1] == '\n' as u8 {
        split_acc(s.skip(2), rows.push(cur), Seq::empty())
    } else {
        split_acc(s.drop_first(), rows, cur.push(s[0]))
    }
}

/// The text split at line feeds; a trailing line feed opens no extra row.
pub open spec fn split_lines(s: Seq<u8>) -> Seq<Seq<u8>> {
    let rc = split_acc(s, Seq::empty(), Seq::empty());
    if rc.1.len() > 0 {
        rc.0.push(rc.1)
    } else {
        rc.0
    }
}

/// Whether the byte at `i` is row-break punctuation: a line feed, or a
/// carriage return directly before one.
pub open spec fn is_break_byte(s: Seq<u8>, i: int) -> bool {
    s[i] == '\n' as u8 || (s[i] == '\r' as u8 && i + 1 < s.len() && s[i + 1] == '\n' as u8)
}

/// Some byte of the text is neither row-break punctuation nor in the tile
/// alphabet.
pub open spec fn has_bad_layout_byte(s: Seq<u8>) -> bool {
    exists|i: int| 0 <= i < s.len() && !is_break_byte(s, i) && !byte_tile_ok(#[trigger] s[i])
}

/// At least one non-empty row, and all rows equally wide.
pub open spec fn layout_shape_ok(s: Seq<u8>) -> bool {
    let rows = split_lines(s);
    &&& rows.len() >= 1
    &&& rows[0].len() >= 1
    &&& forall|i: int| 0 <= i < rows.len() ==> (#[trigger] rows[i]).len() == rows[0].len()
}

/// The parsed grid fits the engine's fixed size cap.
pub open spec fn layout_size_ok(s: Seq<u8>) -> bool {
    split_lines(s).len() <= 512 && split_lines(s)[0].len() <= 512
}

/// The tile grid a well-formed layout text denotes.
pub open spec fn grid_from_bytes(s: Seq<u8>) -> Seq<Seq<Tile>> {
    split_lines(s).map_values(|row: Seq<u8>| row.map_values(|b: u8| tile_from_byte(b)))
}

impl Board {
    /// The layout texts `try_new` rejects.
    pub open spec fn spec_try_new_err(s: Seq<u8>) -> bool {
        has_bad_layout_byte(s) || !layout_shape_ok(s) || !layout_size_ok(s)
    }

    /// Parse a layout text into a board: `'='` an unpainted corridor, `'p'`
    /// a painted corridor, `' '` a wall; rows separated by line feeds. Any
    /// other character, ragged or empty rows, and oversized grids are fatal
    /// load errors, and no partial board is produced.
    pub fn try_new(layout: &str) -> (r: Result<Board, AmidarError>)
        ensures
            ({
                let s = layout.spec_bytes();
                &&& (r is Ok <==> (!has_bad_layout_byte(s) && layout_shape_ok(s)
                    && layout_size_ok(s)))
                &&& r is Ok ==> {
                    let b = r->Ok_0;
                    &&& b.wf()
                    &&& b.grid() == grid_from_bytes(s)
                    &&& b.h() == split_lines(s).len()
                    &&& b.w() == split_lines(s)[0].len()
                    &&& b.boxes@ == boxes_upto(b.grid(), b.w(), b.h(), b.w() * b.h())
                }
                &&& has_bad_layout_byte(s) ==> (exists|i: int|
                    0 <= i < s.len() && !is_break_byte(s, i) && !byte_tile_ok(#[trigger] s[i]) && r
                        == Err::<Board, AmidarError>(AmidarError::InvalidTileChar(s[i] as char)))
                &&& (!has_bad_layout_byte(s) && !layout_shape_ok(s)) ==> r == Err::<
                    Board,
                    AmidarError,
                >(AmidarError::MalformedLayout)
                &&& (!has_bad_layout_byte(s) && layout_shape_ok(s) && !layout_size_ok(s)) ==> r
                    == Err::<Board, AmidarError>(AmidarError::LayoutTooLarge)
            }),
    {
        let bs = layout.as_bytes();
        let ghost s = layout.spec_bytes();
        let n = bs.len();
        let mut rows: Vec<Vec<Tile>> = Vec::new();
        let mut cur: Vec<Tile> = Vec::new();
        let ghost mut brows: Seq<Seq<u8>> = Seq::empty();
        let ghost mut bcur: Seq<u8> = Seq::empty();
        let mut i: usize = 0;
        proof {
            assert(s.skip(0) =~= s);
        }
        while i < n
            invariant
                s == layout.spec_bytes(),
                bs@ == s,
                n == s.len(),
                i <= n,
                split_acc(s, Seq::empty(), Seq::empty()) == split_acc(
                    s.skip(i as int),
                    brows,
                    bcur,
                ),
                rows@.len() == brows.len(),
                forall|k: int|
                    0 <= k < brows.len() ==> (#[trigger] rows@[k])@ == brows[k].map_values(
                        |b: u8| tile_from_byte(b),
                    ),
                cur@ == bcur.map_values(|b: u8| tile_from_byte(b)),
                forall|j: int|
                    0 <= j < i ==> is_break_byte(s, j) || byte_tile_ok(#[trigger] s[j]),
            decreases n - i,
        {
            let b = bs[i];
            proof {
                assert(s.skip(i as int)[0] == s[i as int]);
                assert(s.skip(i as int).drop_first() =~= s.skip(i as int + 1));
            }
            if b == 10u8 {
                rows.push(cur);
                cur = Vec::new();
                proof {
                    brows = brows.push(bcur);
                    bcur = Seq::empty();
                    assert(cur@ =~= bcur.map_values(|bb: u8| tile_from_byte(bb)));
                }
                i = i + 1;
            } else if b == 13u8 && i + 1 < n && bs[i + 1] == 10u8 {
                rows.push(cur);
                cur = Vec::new();
                proof {
                    brows = brows.push(bcur);
                    bcur = Seq::empty();
                    assert(cur@ =~= bcur.map_values(|bb: u8| tile_from_byte(bb)));
                    assert(s.skip(i as int).skip(2) =~= s.skip(i as int + 2));
                }
                i = i + 2;
            } else {
                match Tile::new_from_char(b as char) {
                    Ok(t) => {
                        cur.push(t);
                        proof {
                            bcur = bcur.push(b);
                            assert(cur@ =~= bcur.map_values(|bb: u8| tile_from_byte(bb)));
                        }
                        i = i + 1;
                    },
                    Err(e) => {
                        proof {
                            assert(((b as char) as u8) == b);
                            assert(!is_break_byte(s, i as int) && !byte_tile_ok(s[i as int]));
                            assert(has_bad_layout_byte(s));
                            assert(e == AmidarError::InvalidTileChar(s[i as int] as char));
                        }
                        return Err(e);
                    },
                }
            }
        }
        proof {
            assert(s.skip(n as int) =~= Seq::<u8>::empty());
        }
        if cur.len() > 0 {
            rows.push(cur);
            proof {
                brows = brows.push(bcur);
            }
        }
        proof {
            assert(brows == split_lines(s));
            assert(!has_bad_layout_byte(s));
        }
        // Shape validation: at least one row, every row as wide as the first.
        let height = rows.len();
        if height == 0 {
            return Err(AmidarError::MalformedLayout);
        }
        let width = rows[0].len();
        if width == 0 {
            return Err(AmidarError::MalformedLayout);
        }
        let mut k: usize = 1;
        while k < height
            invariant
                s == layout.spec_bytes(),
                height == rows@.len(),
                rows@.len() == brows.len(),
                width as int == brows[0].len(),
                1 <= k <= height,
                brows == split_lines(s),
                !has_bad_layout_byte(s),
                height >= 1,
                width >= 1,
                forall|k2: int|
                    0 <= k2 < brows.len() ==> (#[trigger] rows@[k2])@ == brows[k2].map_values(
                        |b: u8| tile_from_byte(b),
                    ),
                forall|k2: int| 0 <= k2 < k ==> (#[trigger] brows[k2]).len() == brows[0].len(),
            decreases height - k,
        {
            if rows[k].len() != width {
                proof {
                    assert(rows@[k as int]@ == brows[k as int].map_values(
                        |b: u8| tile_from_byte(b),
                    ));
                    assert(brows[k as int].len() != brows[0].len());
                    assert(!layout_shape_ok(s));
                }
                return Err(AmidarError::MalformedLayout);
            }
            k = k + 1;
        }
        if height > 512 || width > 512 {
            return Err(AmidarError::LayoutTooLarge);
        }
        proof {
            assert(layout_shape_ok(s) && layout_size_ok(s));
            let gseq = rows@.map_values(|row: Vec<Tile>| row@);
            assert forall|y: int| 0 <= y < gseq.len() implies #[trigger] gseq[y]
                == grid_from_bytes(s)[y] by {
                assert(rows@[y]@ == brows[y].map_values(|b: u8| tile_from_byte(b)));
            }
            assert(gseq =~= grid_from_bytes(s));
            assert(grid_wf(gseq, width as int, height as int));
        }
        let board = Board::from_tiles(rows, width as u32, height as u32);
        Ok(board)
    }
}

/// A decimal digit byte.
pub open spec fn is_digit(b: u8) -> bool {
    '0' as u8 <= b <= '9' as u8
}

/// The route-line scanner: positions accumulated so far in `out`, the
/// value of the token being read in `cur`, and whether that token has any
/// digits yet in `seen`. `Some` exactly for lines of single-space-separated
/// decimal numbers below `cap`; the result is the position list.
pub open spec fn route_scan(s: Seq<u8>, cur: int, seen: bool, cap: int, out: Seq<u32>) -> Option<
    Seq<u32>,
>
    recommends
        0 <= cur < cap <= 0x100000000,
    decreases s.len(),
{
    if s.len() == 0 {
        if seen && out.len() < 0x40000000 {
            Some(out.push(cur as u32))
        } else {
            None
        }
    } else if s[0] == ' ' as u8 {
        if seen && out.len() < 0x40000000 {
            route_scan(s.drop_first(), 0, false, cap, out.push(cur as u32))
        } else {
            None
        }
    } else if is_digit(s[0]) {
        let nv = cur * 10 + (s[0] - '0' as u8);
        if nv < cap {
            route_scan(s.drop_first(), nv, true, cap, out)
        } else {
            None
        }
    } else {
        None
    }
}

/// A byte the route grammar treats as surrounding whitespace.
pub open spec fn is_blank(b: u8) -> bool {
    b == ' ' as u8 || b == '\t' as u8 || b == '\r' as u8
}

pub open spec fn trim_front(s: Seq<u8>) -> Seq<u8>
    decreases s.len(),
{
    if s.len() > 0 && is_blank(s[0]) {
        trim_front(s.drop_first())
    } else {
        s
    }
}

pub open spec fn trim_back(s: Seq<u8>) -> Seq<u8>
    decreases s.len(),
{
    if s.len() > 0 && is_blank(s.last()) {
        trim_back(s.drop_last())
    } else {
        s
    }
}

/// The line with surrounding whitespace removed.
pub open spec fn trim_blanks(s: Seq<u8>) -> Seq<u8> {
    trim_back(trim_front(s))
}

/// The position list a route line denotes, when valid against `cap`:
/// surrounding whitespace is skipped, the rest must be single-space
/// separated decimal ids.
pub open spec fn route_of_line(line: Seq<u8>, cap: int) -> Option<Seq<u32>> {
    route_scan(trim_blanks(line), 0, false, cap, Seq::empty())
}

/// Parse one route line: decimal tile ids separated by single spaces,
/// each below `cap`, with surrounding whitespace ignored. A blank line, a
/// malformed or oversized number, and an id at or above `cap` are fatal
/// load errors.
fn parse_route_line(line: &Vec<u8>, cap: u32) -> (r: Result<Vec<u32>, AmidarError>)
    requires
        1 <= cap,
    ensures
        (r is Ok <==> route_of_line(line@, cap as int) is Some),
        r is Ok ==> r->Ok_0@ == route_of_line(line@, cap as int)->Some_0,
        r is Ok ==> 1 <= r->Ok_0@.len() <= 0x40000001 && forall|i: int|
            0 <= i < r->Ok_0@.len() ==> (#[trigger] r->Ok_0@[i]) < cap,
        trim_blanks(line@).len() == 0 ==> r == Err::<Vec<u32>, AmidarError>(
            AmidarError::EmptyRoute,
        ),
        r is Err ==> (r->Err_0 == AmidarError::EmptyRoute || r->Err_0
            == AmidarError::InvalidRouteToken || r->Err_0 == AmidarError::RouteIdOutOfRange),
    {
        let n = line.len();
        let mut a: usize = 0;
        proof {
            assert(line@.skip(0) =~= line@);
        }
        while a < n && (line[a] == 32u8 || line[a] == 9u8 || line[a] == 13u8)
            invariant
                n == line@.len(),
                a <= n,
                trim_front(line@) == trim_front(line@.skip(a as int)),
            decreases n - a,
        {
            proof {
                assert(line@.skip(a as int)[0] == line@[a as int]);
                assert(line@.skip(a as int).drop_first() =~= line@.skip(a as int + 1));
            }
            a = a + 1;
        }
        let ghost tf = line@.skip(a as int);
        proof {
            if a < n {
                assert(tf[0] == line@[a as int]);
            }
            assert(trim_front(line@) == tf);
        }
        let mut e = n;
        proof {
            assert(tf.take(n as int - a as int) =~= tf);
        }
        while e > a && (line[e - 1] == 32u8 || line[e - 1] == 9u8 || line[e - 1] == 13u8)
            invariant
                n == line@.len(),
                a <= e <= n,
                tf == line@.skip(a as int),
                trim_front(line@) == tf,
                trim_back(tf) == trim_back(tf.take(e as int - a as int)),
            decreases e,
        {
            proof {
                let k = e as int - a as int;
                assert(tf.take(k).last() == line@[e as int - 1]);
                assert(tf.take(k).drop_last() =~= tf.take(k - 1));
            }
            e = e - 1;
        }
        let ghost trimmed = tf.take(e as int - a as int);
        proof {
            if e > a {
                assert(trimmed.last() == line@[e as int - 1]);
            }
            assert(trim_back(tf.take(e as int - a as int)) == trimmed);
            assert(trim_blanks(line@) == trimmed);
        }
        if a == e {
            return Err(AmidarError::EmptyRoute);
        }
        let mut out: Vec<u32> = Vec::new();
        let mut cur: u32 = 0;
        let mut seen = false;
        let mut i: usize = a;
        proof {
            assert(trimmed.skip(0) =~= trimmed);
        }
        while i < e
            invariant
                n == line@.len(),
                a <= i <= e <= n,
                trimmed == line@.skip(a as int).take(e as int - a as int),
                trimmed == trim_blanks(line@),
                cur < cap,
                out@.len() <= i,
                out@.len() <= 0x40000000,
                forall|k: int| 0 <= k < out@.len() ==> (#[trigger] out@[k]) < cap,
                route_scan(trimmed, 0, false, cap as int, Seq::empty()) == route_scan(
                    trimmed.skip(i as int - a as int),
                    cur as int,
                    seen,
                    cap as int,
                    out@,
                ),
            decreases e - i,
        {
            let b = line[i];
            proof {
                let j = i as int - a as int;
                assert(trimmed[j] == line@[i as int]);
                assert(trimmed.skip(j)[0] == trimmed[j]);
                assert(trimmed.skip(j).drop_first() =~= trimmed.skip(j + 1));
            }
            if b == 32u8 {
                if !seen || out.len() >= 0x40000000 {
                    return Err(AmidarError::InvalidRouteToken);
                }
                out.push(cur);
                cur = 0;
                seen = false;
            } else if 48u8 <= b && b <= 57u8 {
                let nv: u64 = (cur as u64) * 10 + ((b - 48) as u64);
                if nv > 0xffff_ffffu64 {
                    return Err(AmidarError::InvalidRouteToken);
                }
                if nv >= cap as u64 {
                    return Err(AmidarError::RouteIdOutOfRange);
                }
                cur = nv as u32;
                seen = true;
            } else {
                return Err(AmidarError::InvalidRouteToken);
            }
            i = i + 1;
        }
        proof {
            assert(trimmed.skip(e as int - a as int) =~= Seq::<u8>::empty());
        }
        if !seen || out.len() >= 0x40000000 {
            return Err(AmidarError::InvalidRouteToken);
        }
        out.push(cur);
        Ok(out)
    }

/// Parse the whole enemy route text: one line per enemy. Every failure is
/// typed and total; no partial route list is produced.
pub fn parse_routes(routes: &str, cap: u32) -> (r: Result<Vec<Vec<u32>>, AmidarError>)
    requires
        1 <= cap,
    ensures
        ({
            let ls = split_lines(routes.spec_bytes());
            &&& (r is Ok <==> forall|i: int|
                0 <= i < ls.len() ==> route_of_line(#[trigger] ls[i], cap as int) is Some)
            &&& r is Ok ==> {
                &&& r->Ok_0@.len() == ls.len()
                &&& forall|i: int|
                    0 <= i < ls.len() ==> (#[trigger] r->Ok_0@[i])@ == route_of_line(
                        ls[i],
                        cap as int,
                    )->Some_0
                &&& forall|i: int|
                    0 <= i < ls.len() ==> 1 <= (#[trigger] r->Ok_0@[i])@.len() <= 0x40000001
                &&& forall|i: int, j: int|
                    0 <= i < ls.len() && 0 <= j < r->Ok_0@[i]@.len() ==> (#[trigger] r->Ok_0@[i]@[j])
                        < cap
            }
            &&& r is Err ==> ((r->Err_0 == AmidarError::EmptyRoute || r->Err_0
                == AmidarError::InvalidRouteToken || r->Err_0 == AmidarError::RouteIdOutOfRange)
                && exists|i: int|
                0 <= i < ls.len() && route_of_line(#[trigger] ls[i], cap as int) is None)
        }),
{
    let bs = routes.as_bytes();
    let ghost s = routes.spec_bytes();
    let n = bs.len();
    let mut lines: Vec<Vec<u8>> = Vec::new();
    let mut cur: Vec<u8> = Vec::new();
    let ghost mut brows: Seq<Seq<u8>> = Seq::empty();
    let mut i: usize = 0;
    proof {
        assert(s.skip(0) =~= s);
    }
    while i < n
        invariant
            s == routes.spec_bytes(),
            bs@ == s,
            n == s.len(),
            i <= n,
            split_acc(s, Seq::empty(), Seq::empty()) == split_acc(
                s.skip(i as int),
                brows,
                cur@,
            ),
            lines@.len() == brows.len(),
            forall|k: int| 0 <= k < brows.len() ==> (#[trigger] lines@[k])@ == brows[k],
        decreases n - i,
    {
        let b = bs[i];
        proof {
            assert(s.skip(i as int)[0] == s[i as int]);
            assert(s.skip(i as int).drop_first() =~= s.skip(i as int + 1));
        }
        if b == 10u8 {
            lines.push(cur);
            cur = Vec::new();
            proof {
                brows = brows.push(lines@[lines@.len() - 1]@);
            }
            i = i + 1;
        } else if b == 13u8 && i + 1 < n && bs[i + 1] == 10u8 {
            lines.push(cur);
            cur = Vec::new();
            proof {
                brows = brows.push(lines@[lines@.len() - 1]@);
                assert(s.skip(i as int).skip(2) =~= s.skip(i as int + 2));
            }
            i = i + 2;
        } else {
            cur.push(b);
            i = i + 1;
        }
    }
    proof {
        assert(s.skip(n as int) =~= Seq::<u8>::empty());
    }
    if cur.len() > 0 {
        lines.push(cur);
        proof {
            brows = brows.push(lines@[lines@.len() - 1]@);
        }
    }
    proof {
        assert(brows == split_lines(s));
    }
    let m = lines.len();
    let mut result: Vec<Vec<u32>> = Vec::new();
    let mut k: usize = 0;
    while k < m
        invariant
            s == routes.spec_bytes(),
            m == lines@.len(),
            lines@.len() == brows.len(),
            brows == split_lines(s),
            forall|k2: int| 0 <= k2 < brows.len() ==> (#[trigger] lines@[k2])@ == brows[k2],
            k <= m,
            1 <= cap,
            result@.len() == k,
            forall|k2: int|
                0 <= k2 < k ==> route_of_line(#[trigger] brows[k2], cap as int) is Some,
            forall|k2: int|
                0 <= k2 < k ==> (#[trigger] result@[k2])@ == route_of_line(
                    brows[k2],
                    cap as int,
                )->Some_0,
            forall|k2: int| 0 <= k2 < k ==> 1 <= (#[trigger] result@[k2])@.len() <= 0x40000001,
            forall|k2: int, j: int|
                0 <= k2 < k && 0 <= j < result@[k2]@.len() ==> (#[trigger] result@[k2]@[j]) < cap,
        decreases m - k,
    {
        match parse_route_line(&lines[k], cap) {
            Ok(route) => {
                result.push(route);
            },
            Err(e) => {
                return Err(e);
            },
        }
        k = k + 1;
    }
    Ok(result)
}

} // verus!
