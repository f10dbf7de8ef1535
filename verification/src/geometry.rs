//! Geometries with two surface syntaxes and one canonical form.
//!
//! A spatial intersection filter reaches the normalizer either as
//! well-known geometry text (`POINT ( 10 20 )`) or as a structured
//! GeoJSON-shaped value; both parse here, eagerly, into one canonical
//! [`Geometry`], so malformed geometry is rejected before any database
//! round trip.  The kinds covered are points, line strings, and polygons;
//! coordinates are carried as their decimal literal text, exactly as
//! written.

use vstd::prelude::*;

use crate::cql2::{TokView, Tok, eq_ci, lex_from, lex_from_exec, views_of};
use crate::error::Error;
use crate::json::JsonValue;

verus! {

/// One position: two or three coordinates, each a decimal literal.
#[derive(Debug)]
pub struct Pos {
    /// The coordinate literals, axis order longitude, latitude, then
    /// optionally altitude.
    pub coords: Vec<String>,
}

impl View for Pos {
    type V = Seq<Seq<char>>;

    open spec fn view(&self) -> Seq<Seq<char>> {
        self.coords@.map_values(|c: String| c@)
    }
}

/// A canonical geometry.
#[derive(Debug)]
pub enum Geometry {
    /// A single position.
    Point(Pos),
    /// A sequence of positions.
    LineString(Vec<Pos>),
    /// A sequence of rings, each a sequence of positions.
    Polygon(Vec<Vec<Pos>>),
}

/// A canonical geometry, at the specification level.
pub enum GeometryView {
    /// A single position.
    Point(Seq<Seq<char>>),
    /// A sequence of positions.
    LineString(Seq<Seq<Seq<char>>>),
    /// A sequence of rings.
    Polygon(Seq<Seq<Seq<Seq<char>>>>),
}

/// The views of a position list.
pub open spec fn line_view(v: Seq<Pos>) -> Seq<Seq<Seq<char>>> {
    v.map_values(|p: Pos| p@)
}

/// The views of a ring list.
pub open spec fn rings_view(v: Seq<Vec<Pos>>) -> Seq<Seq<Seq<Seq<char>>>> {
    v.map_values(|r: Vec<Pos>| line_view(r@))
}

impl View for Geometry {
    type V = GeometryView;

    open spec fn view(&self) -> GeometryView {
        match self {
            Geometry::Point(p) => GeometryView::Point(p@),
            Geometry::LineString(ps) => GeometryView::LineString(line_view(ps@)),
            Geometry::Polygon(rs) => GeometryView::Polygon(rings_view(rs@)),
        }
    }
}

// ---------------------------------------------------------------------
// The text surface form, over the shared token stream
// ---------------------------------------------------------------------

/// `POINT`, case-insensitively.
pub open spec fn kw_point(w: Seq<char>) -> bool {
    w.len() == 5 && eq_ci(w[0], 'P', 'p') && eq_ci(w[1], 'O', 'o') && eq_ci(w[2], 'I', 'i')
        && eq_ci(w[3], 'N', 'n') && eq_ci(w[4], 'T', 't')
}

/// `LINESTRING`, case-insensitively.
pub open spec fn kw_linestring(w: Seq<char>) -> bool {
    w.len() == 10 && eq_ci(w[0], 'L', 'l') && eq_ci(w[1], 'I', 'i') && eq_ci(w[2], 'N', 'n')
        && eq_ci(w[3], 'E', 'e') && eq_ci(w[4], 'S', 's') && eq_ci(w[5], 'T', 't') && eq_ci(
        w[6],
        'R',
        'r',
    ) && eq_ci(w[7], 'I', 'i') && eq_ci(w[8], 'N', 'n') && eq_ci(w[9], 'G', 'g')
}

/// `POLYGON`, case-insensitively.
pub open spec fn kw_polygon(w: Seq<char>) -> bool {
    w.len() == 7 && eq_ci(w[0], 'P', 'p') && eq_ci(w[1], 'O', 'o') && eq_ci(w[2], 'L', 'l')
        && eq_ci(w[3], 'Y', 'y') && eq_ci(w[4], 'G', 'g') && eq_ci(w[5], 'O', 'o') && eq_ci(
        w[6],
        'N',
        'n',
    )
}

/// One position out of the token stream: two or three numeric tokens.
pub open spec fn p_pos(ts: Seq<TokView>, i: int) -> Option<(Seq<Seq<char>>, int)> {
    if 0 <= i && i + 1 < ts.len() && ts[i] is NumLit && ts[i + 1] is NumLit {
        let w0 = ts[i]->NumLit_0;
        let w1 = ts[i + 1]->NumLit_0;
        if i + 2 < ts.len() && ts[i + 2] is NumLit {
            Some((seq![w0, w1, ts[i + 2]->NumLit_0], i + 3))
        } else {
            Some((seq![w0, w1], i + 2))
        }
    } else {
        None
    }
}

/// A comma-separated position list.
pub open spec fn p_pos_list(ts: Seq<TokView>, i: int) -> Option<(Seq<Seq<Seq<char>>>, int)> {
    match p_pos(ts, i) {
        None => None,
        Some((p, j)) => if i < j <= ts.len() {
            p_pos_rest(seq![p], ts, j)
        } else {
            None
        },
    }
}

/// The `, position` continuations of a position list.
pub open spec fn p_pos_rest(acc: Seq<Seq<Seq<char>>>, ts: Seq<TokView>, j: int) -> Option<
    (Seq<Seq<Seq<char>>>, int),
>
    decreases ts.len() - j,
{
    if 0 <= j < ts.len() && ts[j] is Comma {
        match p_pos(ts, j + 1) {
            None => None,
            Some((p, k)) => if j < k <= ts.len() {
                p_pos_rest(acc.push(p), ts, k)
            } else {
                None
            },
        }
    } else {
        Some((acc, j))
    }
}

/// One parenthesized ring.
pub open spec fn p_ring(ts: Seq<TokView>, i: int) -> Option<(Seq<Seq<Seq<char>>>, int)> {
    if 0 <= i < ts.len() && ts[i] is LPar {
        match p_pos_list(ts, i + 1) {
            None => None,
            Some((ps, j)) => if 0 <= j < ts.len() && ts[j] is RPar {
                Some((ps, j + 1))
            } else {
                None
            },
        }
    } else {
        None
    }
}

/// A comma-separated ring list.
pub open spec fn p_ring_list(ts: Seq<TokView>, i: int) -> Option<(Seq<Seq<Seq<Seq<char>>>>, int)> {
    match p_ring(ts, i) {
        None => None,
        Some((r, j)) => if i < j <= ts.len() {
            p_ring_rest(seq![r], ts, j)
        } else {
            None
        },
    }
}

/// The `, ring` continuations of a ring list.
pub open spec fn p_ring_rest(acc: Seq<Seq<Seq<Seq<char>>>>, ts: Seq<TokView>, j: int) -> Option<
    (Seq<Seq<Seq<Seq<char>>>>, int),
>
    decreases ts.len() - j,
{
    if 0 <= j < ts.len() && ts[j] is Comma {
        match p_ring(ts, j + 1) {
            None => None,
            Some((r, k)) => if j < k <= ts.len() {
                p_ring_rest(acc.push(r), ts, k)
            } else {
                None
            },
        }
    } else {
        Some((acc, j))
    }
}

/// A whole token stream parsed as one geometry, nothing left over.
pub open spec fn p_geom(ts: Seq<TokView>) -> Option<GeometryView> {
    if ts.len() >= 2 && ts[0] is Ident && ts[1] is LPar {
        let w = ts[0]->Ident_0;
        if kw_point(w) {
            match p_pos(ts, 2) {
                None => None,
                Some((p, j)) => if j + 1 == ts.len() && ts[j] is RPar {
                    Some(GeometryView::Point(p))
                } else {
                    None
                },
            }
        } else if kw_linestring(w) {
            match p_pos_list(ts, 2) {
                None => None,
                Some((ps, j)) => if j + 1 == ts.len() && ts[j] is RPar {
                    Some(GeometryView::LineString(ps))
                } else {
                    None
                },
            }
        } else if kw_polygon(w) {
            match p_ring_list(ts, 2) {
                None => None,
                Some((rs, j)) => if j + 1 == ts.len() && ts[j] is RPar {
                    Some(GeometryView::Polygon(rs))
                } else {
                    None
                },
            }
        } else {
            None
        }
    } else {
        None
    }
}

/// The text surface form, canonicalized: lexed, then parsed completely.
pub open spec fn parse_geometry_text_spec(s: Seq<char>) -> Option<GeometryView> {
    match lex_from(s, 0) {
        None => None,
        Some(ts) => p_geom(ts),
    }
}

/// Mapping positions to their views commutes with appending.
proof fn lemma_line_push(s: Seq<Pos>, p: Pos)
    ensures
        line_view(s.push(p)) == line_view(s).push(p@),
{
    assert(line_view(s.push(p)) =~= line_view(s).push(p@));
}

/// Mapping rings to their views commutes with appending.
proof fn lemma_rings_push(s: Seq<Vec<Pos>>, r: Vec<Pos>)
    ensures
        rings_view(s.push(r)) == rings_view(s).push(line_view(r@)),
{
    assert(rings_view(s.push(r)) =~= rings_view(s).push(line_view(r@)));
}

/// Exec mirror of [`p_pos`].
fn p_pos_exec(ts: &Vec<Tok>, i: usize) -> (r: Option<(Pos, usize)>)
    requires
        i <= ts@.len(),
    ensures
        (match p_pos(views_of(ts@), i as int) {
            Option::None => r is None,
            Option::Some(p) => r matches Some(q) && q.0@ == p.0 && q.1 as int == p.1 && i < q.1
                <= ts@.len(),
        }),
{
    if i < ts.len() && i + 1 < ts.len() {
        let w0 = match &ts[i] {
            Tok::NumLit(w) => w.clone(),
            _ => {
                return None;
            },
        };
        let w1 = match &ts[i + 1] {
            Tok::NumLit(w) => w.clone(),
            _ => {
                return None;
            },
        };
        let mut coords: Vec<String> = Vec::new();
        coords.push(w0);
        coords.push(w1);
        if i + 2 < ts.len() {
            let third = match &ts[i + 2] {
                Tok::NumLit(w) => Some(w.clone()),
                _ => None,
            };
            match third {
                Option::Some(w2) => {
                    coords.push(w2);
                    let p = Pos { coords };
                    proof {
                        assert(p@ =~= p_pos(views_of(ts@), i as int).unwrap().0);
                    }
                    return Some((p, i + 3));
                },
                Option::None => {},
            }
        }
        let p = Pos { coords };
        proof {
            assert(p@ =~= p_pos(views_of(ts@), i as int).unwrap().0);
        }
        Some((p, i + 2))
    } else {
        None
    }
}

/// Exec mirror of [`p_pos_rest`], carrying the accumulated positions.
fn p_pos_rest_exec(acc: Vec<Pos>, ts: &Vec<Tok>, j: usize) -> (r: Option<(Vec<Pos>, usize)>)
    requires
        j <= ts@.len(),
    ensures
        (match p_pos_rest(line_view(acc@), views_of(ts@), j as int) {
            Option::None => r is None,
            Option::Some(p) => r matches Some(q) && line_view(q.0@) == p.0 && q.1 as int == p.1
                && j <= q.1 <= ts@.len(),
        }),
    decreases ts@.len() - j,
{
    if j < ts.len() && matches!(&ts[j], Tok::Comma) {
        match p_pos_exec(ts, j + 1) {
            Option::None => None,
            Option::Some((p, k)) => {
                let mut acc = acc;
                let ghost g = acc@;
                let ghost pp = p;
                acc.push(p);
                proof {
                    lemma_line_push(g, pp);
                }
                p_pos_rest_exec(acc, ts, k)
            },
        }
    } else {
        Some((acc, j))
    }
}

/// Exec mirror of [`p_pos_list`].
fn p_pos_list_exec(ts: &Vec<Tok>, i: usize) -> (r: Option<(Vec<Pos>, usize)>)
    requires
        i <= ts@.len(),
    ensures
        (match p_pos_list(views_of(ts@), i as int) {
            Option::None => r is None,
            Option::Some(p) => r matches Some(q) && line_view(q.0@) == p.0 && q.1 as int == p.1
                && i < q.1 <= ts@.len(),
        }),
{
    match p_pos_exec(ts, i) {
        Option::None => None,
        Option::Some((p, j)) => {
            let mut acc: Vec<Pos> = Vec::new();
            let ghost pv = p@;
            acc.push(p);
            proof {
                assert(line_view(acc@) =~= seq![pv]);
            }
            p_pos_rest_exec(acc, ts, j)
        },
    }
}

/// Exec mirror of [`p_ring`].
fn p_ring_exec(ts: &Vec<Tok>, i: usize) -> (r: Option<(Vec<Pos>, usize)>)
    requires
        i <= ts@.len(),
    ensures
        (match p_ring(views_of(ts@), i as int) {
            Option::None => r is None,
            Option::Some(p) => r matches Some(q) && line_view(q.0@) == p.0 && q.1 as int == p.1
                && i < q.1 <= ts@.len(),
        }),
{
    if i < ts.len() && matches!(&ts[i], Tok::LPar) {
        match p_pos_list_exec(ts, i + 1) {
            Option::None => None,
            Option::Some((ps, j)) => {
                if j < ts.len() && matches!(&ts[j], Tok::RPar) {
                    Some((ps, j + 1))
                } else {
                    None
                }
            },
        }
    } else {
        None
    }
}

/// Exec mirror of [`p_ring_rest`], carrying the accumulated rings.
fn p_ring_rest_exec(acc: Vec<Vec<Pos>>, ts: &Vec<Tok>, j: usize) -> (r: Option<
    (Vec<Vec<Pos>>, usize),
>)
    requires
        j <= ts@.len(),
    ensures
        (match p_ring_rest(rings_view(acc@), views_of(ts@), j as int) {
            Option::None => r is None,
            Option::Some(p) => r matches Some(q) && rings_view(q.0@) == p.0 && q.1 as int == p.1
                && j <= q.1 <= ts@.len(),
        }),
    decreases ts@.len() - j,
{
    if j < ts.len() && matches!(&ts[j], Tok::Comma) {
        match p_ring_exec(ts, j + 1) {
            Option::None => None,
            Option::Some((ring, k)) => {
                let mut acc = acc;
                let ghost g = acc@;
                let ghost rr = ring;
                acc.push(ring);
                proof {
                    lemma_rings_push(g, rr);
                }
                p_ring_rest_exec(acc, ts, k)
            },
        }
    } else {
        Some((acc, j))
    }
}

/// Exec mirror of [`p_ring_list`].
fn p_ring_list_exec(ts: &Vec<Tok>, i: usize) -> (r: Option<(Vec<Vec<Pos>>, usize)>)
    requires
        i <= ts@.len(),
    ensures
        (match p_ring_list(views_of(ts@), i as int) {
            Option::None => r is None,
            Option::Some(p) => r matches Some(q) && rings_view(q.0@) == p.0 && q.1 as int == p.1
                && i < q.1 <= ts@.len(),
        }),
{
    match p_ring_exec(ts, i) {
        Option::None => None,
        Option::Some((ring, j)) => {
            let mut acc: Vec<Vec<Pos>> = Vec::new();
            let ghost rv = line_view(ring@);
            acc.push(ring);
            proof {
                assert(rings_view(acc@) =~= seq![rv]);
            }
            p_ring_rest_exec(acc, ts, j)
        },
    }
}

/// Parses the well-known text surface form into the canonical geometry,
/// or reports precisely that the text is not in the grammar.  What
/// comes out is always well-formed, so the round-trip law applies to it.
pub fn parse_geometry_text(s: &str) -> (r: Result<Geometry, Error>)
    ensures
        (match parse_geometry_text_spec(s@) {
            Option::None => r matches Err(e) && e is Validation,
            Option::Some(gv) => r matches Ok(g) && g@ == gv,
        }),
        (r matches Ok(g) ==> geometry_wf(g@)),
{
    proof {
        lemma_parsed_text_geometry_wf(s@);
    }
    let bad = "geometry text is not well-known geometry";
    let len = s.unicode_len();
    let toks = match lex_from_exec(s, len, 0) {
        Option::None => {
            return Err(Error::Validation(bad.to_owned()));
        },
        Option::Some(toks) => toks,
    };
    if toks.len() < 2 || !matches!(&toks[1], Tok::LPar) {
        return Err(Error::Validation(bad.to_owned()));
    }
    let w = match &toks[0] {
        Tok::Ident(w) => w,
        _ => {
            return Err(Error::Validation(bad.to_owned()));
        },
    };
    if word_is_point(w) {
        match p_pos_exec(&toks, 2) {
            Option::Some((p, j)) => {
                if j < toks.len() && j + 1 == toks.len() && matches!(&toks[j], Tok::RPar) {
                    Ok(Geometry::Point(p))
                } else {
                    Err(Error::Validation(bad.to_owned()))
                }
            },
            Option::None => Err(Error::Validation(bad.to_owned())),
        }
    } else if word_is_linestring(w) {
        match p_pos_list_exec(&toks, 2) {
            Option::Some((ps, j)) => {
                if j < toks.len() && j + 1 == toks.len() && matches!(&toks[j], Tok::RPar) {
                    Ok(Geometry::LineString(ps))
                } else {
                    Err(Error::Validation(bad.to_owned()))
                }
            },
            Option::None => Err(Error::Validation(bad.to_owned())),
        }
    } else if word_is_polygon(w) {
        match p_ring_list_exec(&toks, 2) {
            Option::Some((rs, j)) => {
                if j < toks.len() && j + 1 == toks.len() && matches!(&toks[j], Tok::RPar) {
                    Ok(Geometry::Polygon(rs))
                } else {
                    Err(Error::Validation(bad.to_owned()))
                }
            },
            Option::None => Err(Error::Validation(bad.to_owned())),
        }
    } else {
        Err(Error::Validation(bad.to_owned()))
    }
}

/// Exec mirror of [`kw_point`].
fn word_is_point(w: &String) -> (r: bool)
    ensures
        r == kw_point(w@),
{
    let len = w.as_str().unicode_len();
    if len != 5 {
        return false;
    }
    let c0 = w.as_str().get_char(0);
    let c1 = w.as_str().get_char(1);
    let c2 = w.as_str().get_char(2);
    let c3 = w.as_str().get_char(3);
    let c4 = w.as_str().get_char(4);
    (c0 == 'P' || c0 == 'p') && (c1 == 'O' || c1 == 'o') && (c2 == 'I' || c2 == 'i') && (c3 == 'N'
        || c3 == 'n') && (c4 == 'T' || c4 == 't')
}

/// Exec mirror of [`kw_linestring`].
fn word_is_linestring(w: &String) -> (r: bool)
    ensures
        r == kw_linestring(w@),
{
    let len = w.as_str().unicode_len();
    if len != 10 {
        return false;
    }
    let c0 = w.as_str().get_char(0);
    let c1 = w.as_str().get_char(1);
    let c2 = w.as_str().get_char(2);
    let c3 = w.as_str().get_char(3);
    let c4 = w.as_str().get_char(4);
    let c5 = w.as_str().get_char(5);
    let c6 = w.as_str().get_char(6);
    let c7 = w.as_str().get_char(7);
    let c8 = w.as_str().get_char(8);
    let c9 = w.as_str().get_char(9);
    (c0 == 'L' || c0 == 'l') && (c1 == 'I' || c1 == 'i') && (c2 == 'N' || c2 == 'n') && (c3 == 'E'
        || c3 == 'e') && (c4 == 'S' || c4 == 's') && (c5 == 'T' || c5 == 't') && (c6 == 'R' || c6
        == 'r') && (c7 == 'I' || c7 == 'i') && (c8 == 'N' || c8 == 'n') && (c9 == 'G' || c9 == 'g')
}

/// Exec mirror of [`kw_polygon`].
fn word_is_polygon(w: &String) -> (r: bool)
    ensures
        r == kw_polygon(w@),
{
    let len = w.as_str().unicode_len();
    if len != 7 {
        return false;
    }
    let c0 = w.as_str().get_char(0);
    let c1 = w.as_str().get_char(1);
    let c2 = w.as_str().get_char(2);
    let c3 = w.as_str().get_char(3);
    let c4 = w.as_str().get_char(4);
    let c5 = w.as_str().get_char(5);
    let c6 = w.as_str().get_char(6);
    (c0 == 'P' || c0 == 'p') && (c1 == 'O' || c1 == 'o') && (c2 == 'L' || c2 == 'l') && (c3 == 'Y'
        || c3 == 'y') && (c4 == 'G' || c4 == 'g') && (c5 == 'O' || c5 == 'o') && (c6 == 'N' || c6
        == 'n')
}

// ---------------------------------------------------------------------
// The text surface form round-trips
// ---------------------------------------------------------------------

/// A well-formed position: two or three coordinates, each a well-formed
/// numeric literal — exactly what the text grammar can carry.
pub open spec fn pos_wf(p: Seq<Seq<char>>) -> bool {
    (p.len() == 2 || p.len() == 3) && (forall|k: int|
        0 <= k < p.len() ==> crate::cql2::num_wf(#[trigger] p[k]))
}

/// A well-formed position list: at least one well-formed position.
pub open spec fn line_wf(ps: Seq<Seq<Seq<char>>>) -> bool {
    ps.len() >= 1 && (forall|k: int| 0 <= k < ps.len() ==> pos_wf(#[trigger] ps[k]))
}

/// A well-formed geometry view.
pub open spec fn geometry_wf(g: GeometryView) -> bool {
    match g {
        GeometryView::Point(p) => pos_wf(p),
        GeometryView::LineString(ps) => line_wf(ps),
        GeometryView::Polygon(rs) => rs.len() >= 1 && (forall|k: int|
            0 <= k < rs.len() ==> line_wf(#[trigger] rs[k])),
    }
}

/// The numeric tokens of one position.
pub open spec fn pos_toks(p: Seq<Seq<char>>) -> Seq<TokView> {
    p.map_values(|c: Seq<char>| TokView::NumLit(c))
}

/// The tokens of a position list, comma-separated.
pub open spec fn line_toks(ps: Seq<Seq<Seq<char>>>) -> Seq<TokView>
    decreases ps.len(),
{
    if ps.len() == 0 {
        Seq::empty()
    } else if ps.len() == 1 {
        pos_toks(ps[0])
    } else {
        pos_toks(ps[0]) + seq![TokView::Comma] + line_toks(ps.drop_first())
    }
}

/// The tokens of a ring list, each parenthesized, comma-separated.
pub open spec fn rings_toks(rs: Seq<Seq<Seq<Seq<char>>>>) -> Seq<TokView>
    decreases rs.len(),
{
    if rs.len() == 0 {
        Seq::empty()
    } else if rs.len() == 1 {
        seq![TokView::LPar] + line_toks(rs[0]) + seq![TokView::RPar]
    } else {
        seq![TokView::LPar] + line_toks(rs[0]) + seq![TokView::RPar, TokView::Comma] + rings_toks(
            rs.drop_first(),
        )
    }
}

/// The canonical token sequence of a geometry's text form.
pub open spec fn geom_toks(g: GeometryView) -> Seq<TokView> {
    match g {
        GeometryView::Point(p) => seq![
            TokView::Ident(seq!['P', 'O', 'I', 'N', 'T']),
            TokView::LPar,
        ] + pos_toks(p) + seq![TokView::RPar],
        GeometryView::LineString(ps) => seq![
            TokView::Ident(seq!['L', 'I', 'N', 'E', 'S', 'T', 'R', 'I', 'N', 'G']),
            TokView::LPar,
        ] + line_toks(ps) + seq![TokView::RPar],
        GeometryView::Polygon(rs) => seq![
            TokView::Ident(seq!['P', 'O', 'L', 'Y', 'G', 'O', 'N']),
            TokView::LPar,
        ] + rings_toks(rs) + seq![TokView::RPar],
    }
}

/// The canonical text form of a geometry.
pub open spec fn geometry_text_of(g: GeometryView) -> Seq<char> {
    crate::cql2::tokens_text(geom_toks(g))
}

/// A well-formed position's tokens, ended by a non-numeric token, parse
/// back to exactly that position.
proof fn lemma_parse_pos_at(p: Seq<Seq<char>>, ts: Seq<TokView>, i: int)
    requires
        pos_wf(p),
        0 <= i,
        i + p.len() < ts.len(),
        ts.subrange(i, i + p.len()) == pos_toks(p),
        !(ts[i + p.len()] is NumLit),
    ensures
        p_pos(ts, i) == Some((p, i + p.len() as int)),
{
    assert(ts[i] == TokView::NumLit(p[0])) by {
        assert(ts.subrange(i, i + p.len())[0] == ts[i]);
        assert(pos_toks(p)[0] == TokView::NumLit(p[0]));
    }
    assert(ts[i + 1] == TokView::NumLit(p[1])) by {
        assert(ts.subrange(i, i + p.len())[1] == ts[i + 1]);
        assert(pos_toks(p)[1] == TokView::NumLit(p[1]));
    }
    if p.len() == 2 {
        assert(p_pos(ts, i).unwrap().0 =~= p);
    } else {
        assert(ts[i + 2] == TokView::NumLit(p[2])) by {
            assert(ts.subrange(i, i + p.len())[2] == ts[i + 2]);
            assert(pos_toks(p)[2] == TokView::NumLit(p[2]));
        }
        assert(p_pos(ts, i).unwrap().0 =~= p);
    }
}

/// The continuation of a position list parses back the remaining
/// positions, left to right.
proof fn lemma_parse_pos_rest_at(
    acc: Seq<Seq<Seq<char>>>,
    rest: Seq<Seq<Seq<char>>>,
    ts: Seq<TokView>,
    j: int,
)
    requires
        forall|k: int| 0 <= k < rest.len() ==> pos_wf(#[trigger] rest[k]),
        0 <= j,
        rest.len() == 0 ==> j < ts.len(),
        j + (if rest.len() == 0 {
            0int
        } else {
            1 + line_toks(rest).len() as int
        }) < ts.len(),
        (rest.len() > 0 ==> ts.subrange(
            j,
            j + 1 + line_toks(rest).len() as int,
        ) == seq![TokView::Comma] + line_toks(rest)),
        ts[j + (if rest.len() == 0 {
            0int
        } else {
            1 + line_toks(rest).len() as int
        })] is RPar,
    ensures
        p_pos_rest(acc, ts, j) == Some(
            (acc + rest, j + (if rest.len() == 0 {
                0int
            } else {
                1 + line_toks(rest).len() as int
            })),
        ),
    decreases rest.len(),
{
    if rest.len() == 0 {
        assert(!(ts[j] is Comma));
        assert(acc + rest =~= acc);
    } else {
        let seg = seq![TokView::Comma] + line_toks(rest);
        assert(ts[j] == TokView::Comma) by {
            assert(ts.subrange(j, j + seg.len())[0] == ts[j]);
        }
        let p = rest[0];
        let plen = p.len() as int;
        assert(pos_toks(p).len() == plen);
        if rest.len() == 1 {
            assert(line_toks(rest) == pos_toks(p));
            assert(ts.subrange(j + 1, j + 1 + plen) =~= pos_toks(p)) by {
                assert forall|k: int| 0 <= k < plen implies ts.subrange(j + 1, j + 1 + plen)[k]
                    == pos_toks(p)[k] by {
                    assert(ts.subrange(j, j + seg.len())[1 + k] == ts[j + 1 + k]);
                    assert(ts.subrange(j + 1, j + 1 + plen)[k] == ts[j + 1 + k]);
                    assert(seg[1 + k] == pos_toks(p)[k]);
                }
            }
            assert(!(ts[j + 1 + plen] is NumLit));
            lemma_parse_pos_at(p, ts, j + 1);
            lemma_parse_pos_rest_at(acc.push(p), rest.drop_first(), ts, j + 1 + plen);
            assert(acc.push(p) + rest.drop_first() =~= acc + rest);
        } else {
            let rest2 = rest.drop_first();
            assert(line_toks(rest) == pos_toks(p) + seq![TokView::Comma] + line_toks(rest2));
            assert(ts.subrange(j + 1, j + 1 + plen) =~= pos_toks(p)) by {
                assert forall|k: int| 0 <= k < plen implies ts.subrange(j + 1, j + 1 + plen)[k]
                    == pos_toks(p)[k] by {
                    assert(ts.subrange(j, j + seg.len())[1 + k] == ts[j + 1 + k]);
                    assert(ts.subrange(j + 1, j + 1 + plen)[k] == ts[j + 1 + k]);
                    assert(seg[1 + k] == pos_toks(p)[k]);
                }
            }
            assert(ts[j + 1 + plen] == TokView::Comma) by {
                assert(ts.subrange(j, j + seg.len())[1 + plen] == ts[j + 1 + plen]);
                assert(seg[1 + plen] == TokView::Comma);
            }
            lemma_parse_pos_at(p, ts, j + 1);
            assert(ts.subrange(
                j + 1 + plen,
                j + 1 + plen + 1 + line_toks(rest2).len(),
            ) =~= seq![TokView::Comma] + line_toks(rest2)) by {
                assert forall|k: int| 0 <= k < 1 + line_toks(rest2).len() implies ts.subrange(
                    j + 1 + plen,
                    j + 1 + plen + 1 + line_toks(rest2).len(),
                )[k] == (seq![TokView::Comma] + line_toks(rest2))[k] by {
                    assert(ts.subrange(j, j + seg.len())[1 + plen + k] == ts[j + 1 + plen + k]);
                    assert(ts.subrange(
                        j + 1 + plen,
                        j + 1 + plen + 1 + line_toks(rest2).len(),
                    )[k] == ts[j + 1 + plen + k]);
                    assert(seg[1 + plen + k] == (seq![TokView::Comma] + line_toks(rest2))[k]);
                }
            }
            lemma_parse_pos_rest_at(acc.push(p), rest2, ts, j + 1 + plen);
            assert(acc.push(p) + rest2 =~= acc + rest);
        }
    }
}

/// A well-formed position list's tokens, ended by a right parenthesis,
/// parse back to exactly that list.
proof fn lemma_parse_pos_list_at(ps: Seq<Seq<Seq<char>>>, ts: Seq<TokView>, i: int)
    requires
        line_wf(ps),
        0 <= i,
        i + line_toks(ps).len() < ts.len(),
        ts.subrange(i, i + line_toks(ps).len()) == line_toks(ps),
        ts[i + line_toks(ps).len()] is RPar,
    ensures
        p_pos_list(ts, i) == Some((ps, i + line_toks(ps).len() as int)),
{
    let p = ps[0];
    let plen = p.len() as int;
    let rest = ps.drop_first();
    if ps.len() == 1 {
        assert(line_toks(ps) == pos_toks(p));
        lemma_parse_pos_at(p, ts, i);
        lemma_parse_pos_rest_at(seq![p], rest, ts, i + plen);
        assert(seq![p] + rest =~= ps);
    } else {
        let seg = line_toks(ps);
        assert(seg == pos_toks(p) + seq![TokView::Comma] + line_toks(rest));
        assert(ts.subrange(i, i + plen) =~= pos_toks(p)) by {
            assert forall|k: int| 0 <= k < plen implies ts.subrange(i, i + plen)[k] == pos_toks(
                p,
            )[k] by {
                assert(ts.subrange(i, i + seg.len())[k] == ts[i + k]);
                assert(ts.subrange(i, i + plen)[k] == ts[i + k]);
                assert(seg[k] == pos_toks(p)[k]);
            }
        }
        assert(ts[i + plen] == TokView::Comma) by {
            assert(ts.subrange(i, i + seg.len())[plen] == ts[i + plen]);
            assert(seg[plen] == TokView::Comma);
        }
        lemma_parse_pos_at(p, ts, i);
        assert(ts.subrange(i + plen, i + seg.len()) =~= seq![TokView::Comma] + line_toks(rest))
            by {
            assert forall|k: int| 0 <= k < 1 + line_toks(rest).len() as int implies ts.subrange(
                i + plen,
                i + seg.len(),
            )[k] == (seq![TokView::Comma] + line_toks(rest))[k] by {
                assert(ts.subrange(i, i + seg.len())[plen + k] == ts[i + plen + k]);
                assert(ts.subrange(i + plen, i + seg.len())[k] == ts[i + plen + k]);
                assert(seg[plen + k] == (seq![TokView::Comma] + line_toks(rest))[k]);
            }
        }
        lemma_parse_pos_rest_at(seq![p], rest, ts, i + plen);
        assert(seq![p] + rest =~= ps);
    }
}

proof fn lemma_p_pos_wf(ts: Seq<TokView>, i: int)
    requires
        crate::cql2::toks_wf(ts),
    ensures
        (p_pos(ts, i) matches Some(p) ==> pos_wf(p.0)),
{
    if 0 <= i && i + 1 < ts.len() && ts[i] is NumLit && ts[i + 1] is NumLit {
        assert(crate::cql2::tok_wf(ts[i]));
        assert(crate::cql2::tok_wf(ts[i + 1]));
        if i + 2 < ts.len() && ts[i + 2] is NumLit {
            assert(crate::cql2::tok_wf(ts[i + 2]));
        }
    }
}

proof fn lemma_p_pos_rest_wf(acc: Seq<Seq<Seq<char>>>, ts: Seq<TokView>, j: int)
    requires
        crate::cql2::toks_wf(ts),
        forall|k: int| 0 <= k < acc.len() ==> pos_wf(#[trigger] acc[k]),
    ensures
        (p_pos_rest(acc, ts, j) matches Some(p) ==> p.0.len() >= acc.len() && (forall|k: int|
            0 <= k < p.0.len() ==> pos_wf(#[trigger] p.0[k]))),
    decreases ts.len() - j,
{
    if 0 <= j < ts.len() && ts[j] is Comma {
        lemma_p_pos_wf(ts, j + 1);
        match p_pos(ts, j + 1) {
            None => {},
            Some((p, k)) => {
                if j < k <= ts.len() {
                    assert forall|n: int| 0 <= n < acc.push(p).len() implies pos_wf(
                        #[trigger] acc.push(p)[n],
                    ) by {
                        if n < acc.len() {
                            assert(acc.push(p)[n] == acc[n]);
                        }
                    }
                    lemma_p_pos_rest_wf(acc.push(p), ts, k);
                }
            },
        }
    }
}

proof fn lemma_p_pos_list_wf(ts: Seq<TokView>, i: int)
    requires
        crate::cql2::toks_wf(ts),
    ensures
        (p_pos_list(ts, i) matches Some(p) ==> line_wf(p.0)),
{
    lemma_p_pos_wf(ts, i);
    match p_pos(ts, i) {
        None => {},
        Some((p, j)) => {
            if i < j <= ts.len() {
                lemma_p_pos_rest_wf(seq![p], ts, j);
            }
        },
    }
}

proof fn lemma_p_ring_wf(ts: Seq<TokView>, i: int)
    requires
        crate::cql2::toks_wf(ts),
    ensures
        (p_ring(ts, i) matches Some(p) ==> line_wf(p.0)),
{
    if 0 <= i < ts.len() && ts[i] is LPar {
        lemma_p_pos_list_wf(ts, i + 1);
    }
}

proof fn lemma_p_ring_rest_wf(acc: Seq<Seq<Seq<Seq<char>>>>, ts: Seq<TokView>, j: int)
    requires
        crate::cql2::toks_wf(ts),
        forall|k: int| 0 <= k < acc.len() ==> line_wf(#[trigger] acc[k]),
    ensures
        (p_ring_rest(acc, ts, j) matches Some(p) ==> p.0.len() >= acc.len() && (forall|k: int|
            0 <= k < p.0.len() ==> line_wf(#[trigger] p.0[k]))),
    decreases ts.len() - j,
{
    if 0 <= j < ts.len() && ts[j] is Comma {
        lemma_p_ring_wf(ts, j + 1);
        match p_ring(ts, j + 1) {
            None => {},
            Some((r, k)) => {
                if j < k <= ts.len() {
                    assert forall|n: int| 0 <= n < acc.push(r).len() implies line_wf(
                        #[trigger] acc.push(r)[n],
                    ) by {
                        if n < acc.len() {
                            assert(acc.push(r)[n] == acc[n]);
                        }
                    }
                    lemma_p_ring_rest_wf(acc.push(r), ts, k);
                }
            },
        }
    }
}

/// Whatever the text surface form canonicalizes to is well-formed, so
/// the round-trip law applies to every geometry that ever parsed from
/// text.
pub proof fn lemma_parsed_text_geometry_wf(s: Seq<char>)
    ensures
        (parse_geometry_text_spec(s) matches Some(g) ==> geometry_wf(g)),
{
    crate::cql2::lemma_lex_from_wf_pub(s, 0);
    match lex_from(s, 0) {
        None => {},
        Some(ts) => {
            if ts.len() >= 2 && ts[0] is Ident && ts[1] is LPar {
                let w = ts[0]->Ident_0;
                if kw_point(w) {
                    lemma_p_pos_wf(ts, 2);
                } else if kw_linestring(w) {
                    lemma_p_pos_list_wf(ts, 2);
                } else if kw_polygon(w) {
                    lemma_p_ring_wf(ts, 2);
                    match p_ring(ts, 2) {
                        None => {},
                        Some((r, j)) => {
                            if 2 < j <= ts.len() {
                                lemma_p_ring_rest_wf(seq![r], ts, j);
                            }
                        },
                    }
                }
            }
        },
    }
}

/// A well-formed ring's tokens parse back to exactly that ring.
proof fn lemma_parse_ring_at(r: Seq<Seq<Seq<char>>>, ts: Seq<TokView>, i: int)
    requires
        line_wf(r),
        0 <= i,
        i + 2 + line_toks(r).len() <= ts.len(),
        ts.subrange(i, i + 2 + line_toks(r).len()) == seq![TokView::LPar] + line_toks(r) + seq![
            TokView::RPar,
        ],
    ensures
        p_ring(ts, i) == Some((r, i + 2 + line_toks(r).len() as int)),
{
    let llen = line_toks(r).len() as int;
    let seg = seq![TokView::LPar] + line_toks(r) + seq![TokView::RPar];
    assert(ts[i] == TokView::LPar) by {
        assert(ts.subrange(i, i + 2 + llen)[0] == ts[i]);
        assert(seg[0] == TokView::LPar);
    }
    assert(ts[i + 1 + llen] == TokView::RPar) by {
        assert(ts.subrange(i, i + 2 + llen)[1 + llen] == ts[i + 1 + llen]);
        assert(seg[1 + llen] == TokView::RPar);
    }
    assert(ts.subrange(i + 1, i + 1 + llen) =~= line_toks(r)) by {
        assert forall|k: int| 0 <= k < llen implies ts.subrange(i + 1, i + 1 + llen)[k]
            == line_toks(r)[k] by {
            assert(ts.subrange(i, i + 2 + llen)[1 + k] == ts[i + 1 + k]);
            assert(ts.subrange(i + 1, i + 1 + llen)[k] == ts[i + 1 + k]);
            assert(seg[1 + k] == line_toks(r)[k]);
        }
    }
    lemma_parse_pos_list_at(r, ts, i + 1);
}

/// The continuation of a ring list parses back the remaining rings.
proof fn lemma_parse_ring_rest_at(
    acc: Seq<Seq<Seq<Seq<char>>>>,
    rest: Seq<Seq<Seq<Seq<char>>>>,
    ts: Seq<TokView>,
    j: int,
)
    requires
        forall|k: int| 0 <= k < rest.len() ==> line_wf(#[trigger] rest[k]),
        0 <= j,
        rest.len() == 0 ==> j < ts.len(),
        j + (if rest.len() == 0 {
            0int
        } else {
            1 + rings_toks(rest).len() as int
        }) < ts.len(),
        (rest.len() > 0 ==> ts.subrange(
            j,
            j + 1 + rings_toks(rest).len(),
        ) == seq![TokView::Comma] + rings_toks(rest)),
        ts[j + (if rest.len() == 0 {
            0int
        } else {
            1 + rings_toks(rest).len() as int
        })] is RPar,
    ensures
        p_ring_rest(acc, ts, j) == Some(
            (acc + rest, j + (if rest.len() == 0 {
                0int
            } else {
                1 + rings_toks(rest).len() as int
            })),
        ),
    decreases rest.len(),
{
    if rest.len() == 0 {
        assert(!(ts[j] is Comma));
        assert(acc + rest =~= acc);
    } else {
        let seg = seq![TokView::Comma] + rings_toks(rest);
        assert(ts[j] == TokView::Comma) by {
            assert(ts.subrange(j, j + seg.len())[0] == ts[j]);
        }
        let r = rest[0];
        let rlen = 2 + line_toks(r).len() as int;
        let ringseg = seq![TokView::LPar] + line_toks(r) + seq![TokView::RPar];
        if rest.len() == 1 {
            assert(rings_toks(rest) == ringseg);
            assert(ts.subrange(j + 1, j + 1 + rlen) =~= ringseg) by {
                assert forall|k: int| 0 <= k < rlen implies ts.subrange(j + 1, j + 1 + rlen)[k]
                    == ringseg[k] by {
                    assert(ts.subrange(j, j + seg.len())[1 + k] == ts[j + 1 + k]);
                    assert(ts.subrange(j + 1, j + 1 + rlen)[k] == ts[j + 1 + k]);
                    assert(seg[1 + k] == ringseg[k]);
                }
            }
            lemma_parse_ring_at(r, ts, j + 1);
            lemma_parse_ring_rest_at(acc.push(r), rest.drop_first(), ts, j + 1 + rlen);
            assert(acc.push(r) + rest.drop_first() =~= acc + rest);
        } else {
            let rest2 = rest.drop_first();
            assert(rings_toks(rest) == ringseg + seq![TokView::Comma] + rings_toks(rest2)) by {
                assert(rings_toks(rest) == seq![TokView::LPar] + line_toks(r) + seq![
                    TokView::RPar,
                    TokView::Comma,
                ] + rings_toks(rest2));
                assert(seq![TokView::LPar] + line_toks(r) + seq![TokView::RPar, TokView::Comma]
                    + rings_toks(rest2) =~= ringseg + seq![TokView::Comma] + rings_toks(rest2));
            }
            assert(ts.subrange(j + 1, j + 1 + rlen) =~= ringseg) by {
                assert forall|k: int| 0 <= k < rlen implies ts.subrange(j + 1, j + 1 + rlen)[k]
                    == ringseg[k] by {
                    assert(ts.subrange(j, j + seg.len())[1 + k] == ts[j + 1 + k]);
                    assert(ts.subrange(j + 1, j + 1 + rlen)[k] == ts[j + 1 + k]);
                    assert(seg[1 + k] == (ringseg + seq![TokView::Comma] + rings_toks(rest2))[k]);
                }
            }
            lemma_parse_ring_at(r, ts, j + 1);
            assert(ts.subrange(
                j + 1 + rlen,
                j + 1 + rlen + 1 + rings_toks(rest2).len(),
            ) =~= seq![TokView::Comma] + rings_toks(rest2)) by {
                assert forall|k: int| 0 <= k < 1 + rings_toks(rest2).len() implies ts.subrange(
                    j + 1 + rlen,
                    j + 1 + rlen + 1 + rings_toks(rest2).len(),
                )[k] == (seq![TokView::Comma] + rings_toks(rest2))[k] by {
                    assert(ts.subrange(j, j + seg.len())[1 + rlen + k] == ts[j + 1 + rlen + k]);
                    assert(ts.subrange(
                        j + 1 + rlen,
                        j + 1 + rlen + 1 + rings_toks(rest2).len(),
                    )[k] == ts[j + 1 + rlen + k]);
                    assert(seg[1 + rlen + k] == (seq![TokView::Comma] + rings_toks(rest2))[k]);
                }
            }
            lemma_parse_ring_rest_at(acc.push(r), rest2, ts, j + 1 + rlen);
            assert(acc.push(r) + rest2 =~= acc + rest);
        }
    }
}

/// A well-formed ring list's tokens, ended by a right parenthesis, parse
/// back to exactly that list.
proof fn lemma_parse_ring_list_at(rs: Seq<Seq<Seq<Seq<char>>>>, ts: Seq<TokView>, i: int)
    requires
        rs.len() >= 1,
        forall|k: int| 0 <= k < rs.len() ==> line_wf(#[trigger] rs[k]),
        0 <= i,
        i + rings_toks(rs).len() < ts.len(),
        ts.subrange(i, i + rings_toks(rs).len()) == rings_toks(rs),
        ts[i + rings_toks(rs).len()] is RPar,
    ensures
        p_ring_list(ts, i) == Some((rs, i + rings_toks(rs).len() as int)),
{
    let r = rs[0];
    let rlen = 2 + line_toks(r).len() as int;
    let ringseg = seq![TokView::LPar] + line_toks(r) + seq![TokView::RPar];
    let rest = rs.drop_first();
    if rs.len() == 1 {
        assert(rings_toks(rs) == ringseg);
        lemma_parse_ring_at(r, ts, i);
        lemma_parse_ring_rest_at(seq![r], rest, ts, i + rlen);
        assert(seq![r] + rest =~= rs);
    } else {
        let seg = rings_toks(rs);
        assert(seg == seq![TokView::LPar] + line_toks(r) + seq![TokView::RPar, TokView::Comma]
            + rings_toks(rest));
        assert(seg =~= ringseg + seq![TokView::Comma] + rings_toks(rest));
        assert(ts.subrange(i, i + rlen) =~= ringseg) by {
            assert forall|k: int| 0 <= k < rlen implies ts.subrange(i, i + rlen)[k] == ringseg[k]
                by {
                assert(ts.subrange(i, i + seg.len())[k] == ts[i + k]);
                assert(ts.subrange(i, i + rlen)[k] == ts[i + k]);
                assert(seg[k] == (ringseg + seq![TokView::Comma] + rings_toks(rest))[k]);
            }
        }
        lemma_parse_ring_at(r, ts, i);
        assert(ts.subrange(i + rlen, i + seg.len()) =~= seq![TokView::Comma] + rings_toks(rest))
            by {
            assert forall|k: int| 0 <= k < 1 + rings_toks(rest).len() implies ts.subrange(
                i + rlen,
                i + seg.len(),
            )[k] == (seq![TokView::Comma] + rings_toks(rest))[k] by {
                assert(ts.subrange(i, i + seg.len())[rlen + k] == ts[i + rlen + k]);
                assert(ts.subrange(i + rlen, i + seg.len())[k] == ts[i + rlen + k]);
                assert(seg[rlen + k] == (seq![TokView::Comma] + rings_toks(rest))[k]);
            }
        }
        lemma_parse_ring_rest_at(seq![r], rest, ts, i + rlen);
        assert(seq![r] + rest =~= rs);
    }
}

/// Every token of a position list is a well-formed numeric literal or a
/// comma.
proof fn lemma_line_toks_wf(ps: Seq<Seq<Seq<char>>>)
    requires
        forall|k: int| 0 <= k < ps.len() ==> pos_wf(#[trigger] ps[k]),
    ensures
        forall|k: int| 0 <= k < line_toks(ps).len() ==> crate::cql2::tok_wf(
            #[trigger] line_toks(ps)[k],
        ),
    decreases ps.len(),
{
    if ps.len() == 0 {
    } else if ps.len() == 1 {
        assert(pos_wf(ps[0]));
        assert forall|k: int| 0 <= k < line_toks(ps).len() implies crate::cql2::tok_wf(
            #[trigger] line_toks(ps)[k],
        ) by {
            assert(line_toks(ps)[k] == pos_toks(ps[0])[k]);
            assert(pos_toks(ps[0])[k] == TokView::NumLit(ps[0][k]));
        }
    } else {
        lemma_line_toks_wf(ps.drop_first());
        let head = pos_toks(ps[0]);
        let tail = line_toks(ps.drop_first());
        assert(pos_wf(ps[0]));
        assert forall|k: int| 0 <= k < line_toks(ps).len() implies crate::cql2::tok_wf(
            #[trigger] line_toks(ps)[k],
        ) by {
            if k < head.len() {
                assert(line_toks(ps)[k] == head[k]);
                assert(head[k] == TokView::NumLit(ps[0][k]));
            } else if k == head.len() {
                assert(line_toks(ps)[k] == TokView::Comma);
            } else {
                assert(line_toks(ps)[k] == tail[k - head.len() - 1]);
            }
        }
    }
}

/// Every token of a ring list is well-formed.
proof fn lemma_rings_toks_wf(rs: Seq<Seq<Seq<Seq<char>>>>)
    requires
        forall|k: int| 0 <= k < rs.len() ==> line_wf(#[trigger] rs[k]),
    ensures
        forall|k: int| 0 <= k < rings_toks(rs).len() ==> crate::cql2::tok_wf(
            #[trigger] rings_toks(rs)[k],
        ),
    decreases rs.len(),
{
    if rs.len() == 0 {
    } else {
        let inner = line_toks(rs[0]);
        assert(line_wf(rs[0]));
        lemma_line_toks_wf(rs[0]);
        if rs.len() == 1 {
            assert forall|k: int| 0 <= k < rings_toks(rs).len() implies crate::cql2::tok_wf(
                #[trigger] rings_toks(rs)[k],
            ) by {
                if 1 <= k < 1 + inner.len() {
                    assert(rings_toks(rs)[k] == inner[k - 1]);
                }
            }
        } else {
            lemma_rings_toks_wf(rs.drop_first());
            let tail = rings_toks(rs.drop_first());
            assert forall|k: int| 0 <= k < rings_toks(rs).len() implies crate::cql2::tok_wf(
                #[trigger] rings_toks(rs)[k],
            ) by {
                if 1 <= k < 1 + inner.len() {
                    assert(rings_toks(rs)[k] == inner[k - 1]);
                } else if k >= 3 + inner.len() {
                    assert(rings_toks(rs)[k] == tail[k - 3 - inner.len()]);
                }
            }
        }
    }
}

/// The shared spine of the text round trip: with the keyword, the body
/// tokens, and the closing parenthesis laid out, the lexer returns
/// exactly the token sequence.
proof fn lemma_geom_frame(g: GeometryView, word: Seq<char>, body: Seq<TokView>)
    requires
        crate::cql2::ident_wf(word),
        geom_toks(g) == seq![TokView::Ident(word), TokView::LPar] + body + seq![TokView::RPar],
        forall|k: int| 0 <= k < body.len() ==> crate::cql2::tok_wf(#[trigger] body[k]),
    ensures
        crate::cql2::lex_from(geometry_text_of(g), 0) == Some(geom_toks(g)),
        geom_toks(g)[0] == TokView::Ident(word),
        geom_toks(g)[1] == TokView::LPar,
        geom_toks(g)[2 + body.len() as int] == TokView::RPar,
        geom_toks(g).len() == 3 + body.len(),
        geom_toks(g).subrange(2, 2 + body.len() as int) == body,
{
    let ts = geom_toks(g);
    let s = geometry_text_of(g);
    let frame = seq![TokView::Ident(word), TokView::LPar] + body + seq![TokView::RPar];
    assert(crate::cql2::toks_wf(ts)) by {
        assert forall|k: int| 0 <= k < ts.len() implies crate::cql2::tok_wf(#[trigger] ts[k]) by {
            if 2 <= k < 2 + body.len() as int {
                assert(frame[k] == body[k - 2]);
            } else if k == 0 {
                assert(frame[0] == TokView::Ident(word));
            } else if k == 1 {
                assert(frame[1] == TokView::LPar);
            } else {
                assert(frame[k] == TokView::RPar);
            }
        }
    }
    assert(s.subrange(0, s.len() as int) =~= s);
    crate::cql2::lemma_lex_text_at(ts, s, 0);
    assert(frame[0] == TokView::Ident(word));
    assert(frame[1] == TokView::LPar);
    assert(frame[2 + body.len() as int] == TokView::RPar);
    assert(ts.subrange(2, 2 + body.len() as int) =~= body) by {
        assert forall|k: int| 0 <= k < body.len() implies ts.subrange(2, 2 + body.len() as int)[k]
            == body[k] by {
            assert(ts.subrange(2, 2 + body.len() as int)[k] == ts[2 + k]);
            assert(frame[2 + k] == body[k]);
        }
    }
}

/// The text round trip for points.
proof fn lemma_geom_rt_point(p: Seq<Seq<char>>)
    requires
        pos_wf(p),
    ensures
        parse_geometry_text_spec(geometry_text_of(GeometryView::Point(p))) == Some(
            GeometryView::Point(p),
        ),
{
    let g = GeometryView::Point(p);
    let word = seq!['P', 'O', 'I', 'N', 'T'];
    let body = pos_toks(p);
    lemma_line_toks_wf(seq![p]);
    assert(line_toks(seq![p]) == pos_toks(p));
    assert forall|k: int| 0 <= k < body.len() implies crate::cql2::tok_wf(#[trigger] body[k]) by {
        assert(line_toks(seq![p])[k] == body[k]);
    }
    lemma_geom_frame(g, word, body);
    let ts = geom_toks(g);
    assert(kw_point(word));
    assert(!(ts[2 + p.len() as int] is NumLit));
    lemma_parse_pos_at(p, ts, 2);
}

/// The text round trip for line strings.
proof fn lemma_geom_rt_linestring(ps: Seq<Seq<Seq<char>>>)
    requires
        line_wf(ps),
    ensures
        parse_geometry_text_spec(geometry_text_of(GeometryView::LineString(ps))) == Some(
            GeometryView::LineString(ps),
        ),
{
    let g = GeometryView::LineString(ps);
    let word = seq!['L', 'I', 'N', 'E', 'S', 'T', 'R', 'I', 'N', 'G'];
    let body = line_toks(ps);
    lemma_line_toks_wf(ps);
    lemma_geom_frame(g, word, body);
    let ts = geom_toks(g);
    assert(!kw_point(word));
    assert(kw_linestring(word));
    lemma_parse_pos_list_at(ps, ts, 2);
}

/// The text round trip for polygons.
proof fn lemma_geom_rt_polygon(rs: Seq<Seq<Seq<Seq<char>>>>)
    requires
        rs.len() >= 1,
        forall|k: int| 0 <= k < rs.len() ==> line_wf(#[trigger] rs[k]),
    ensures
        parse_geometry_text_spec(geometry_text_of(GeometryView::Polygon(rs))) == Some(
            GeometryView::Polygon(rs),
        ),
{
    let g = GeometryView::Polygon(rs);
    let word = seq!['P', 'O', 'L', 'Y', 'G', 'O', 'N'];
    let body = rings_toks(rs);
    lemma_rings_toks_wf(rs);
    lemma_geom_frame(g, word, body);
    let ts = geom_toks(g);
    assert(!kw_point(word));
    assert(!kw_linestring(word));
    assert(kw_polygon(word));
    lemma_parse_ring_list_at(rs, ts, 2);
}

/// The equivalence of surface forms for geometry, text side: rendering a
/// well-formed canonical geometry to its canonical text and parsing that
/// text yields the same geometry again.  Together with the contract of
/// [`geometry_to_json`], this says the two surface forms of one geometry
/// canonicalize identically.
pub proof fn lemma_geometry_text_round_trip(g: GeometryView)
    requires
        geometry_wf(g),
    ensures
        parse_geometry_text_spec(geometry_text_of(g)) == Some(g),
{
    match g {
        GeometryView::Point(p) => {
            lemma_geom_rt_point(p);
        },
        GeometryView::LineString(ps) => {
            lemma_geom_rt_linestring(ps);
        },
        GeometryView::Polygon(rs) => {
            lemma_geom_rt_polygon(rs);
        },
    }
}

// ---------------------------------------------------------------------
// The GeoJSON-shaped surface form
// ---------------------------------------------------------------------
//
// The structured surface form is an object of exactly two members,
// `"coordinates"` before `"type"` (the order a key-sorting serializer
// produces).  Coordinate arrays hold numbers only; their arity is not
// constrained here — the text grammar yields two or three coordinates,
// and what a position means is the catalog's business.

/// `"coordinates"`.
pub open spec fn coordinates_key() -> Seq<char> {
    seq!['c', 'o', 'o', 'r', 'd', 'i', 'n', 'a', 't', 'e', 's']
}

/// `"type"`.
pub open spec fn type_key() -> Seq<char> {
    seq!['t', 'y', 'p', 'e']
}

/// `"Point"`.
pub open spec fn point_name() -> Seq<char> {
    seq!['P', 'o', 'i', 'n', 't']
}

/// `"LineString"`.
pub open spec fn linestring_name() -> Seq<char> {
    seq!['L', 'i', 'n', 'e', 'S', 't', 'r', 'i', 'n', 'g']
}

/// `"Polygon"`.
pub open spec fn polygon_name() -> Seq<char> {
    seq!['P', 'o', 'l', 'y', 'g', 'o', 'n']
}

/// One position out of a JSON value: an array of numbers, kept as their
/// literal texts.
pub open spec fn pos_of_json(v: JsonValue) -> Option<Seq<Seq<char>>> {
    match v {
        JsonValue::Array(items) => if forall|k: int|
            0 <= k < items@.len() ==> #[trigger] items@[k] is Num {
            Some(items@.map_values(|j: JsonValue| j->Num_0@))
        } else {
            None
        },
        _ => None,
    }
}

/// The positions of `items[i..]`.
pub open spec fn poss_from(items: Seq<JsonValue>, i: int) -> Option<Seq<Seq<Seq<char>>>>
    decreases items.len() - i,
{
    if i >= items.len() {
        Some(Seq::empty())
    } else if i < 0 {
        None
    } else {
        match pos_of_json(items[i]) {
            None => None,
            Some(p) => match poss_from(items, i + 1) {
                None => None,
                Some(ps) => Some(seq![p] + ps),
            },
        }
    }
}

/// The rings of `items[i..]`, each an array of positions.
pub open spec fn rings_from(items: Seq<JsonValue>, i: int) -> Option<Seq<Seq<Seq<Seq<char>>>>>
    decreases items.len() - i,
{
    if i >= items.len() {
        Some(Seq::empty())
    } else if i < 0 {
        None
    } else {
        match items[i] {
            JsonValue::Array(ps) => match poss_from(ps@, 0) {
                None => None,
                Some(r) => match rings_from(items, i + 1) {
                    None => None,
                    Some(rs) => Some(seq![r] + rs),
                },
            },
            _ => None,
        }
    }
}

/// The GeoJSON-shaped surface form, canonicalized.
pub open spec fn parse_geometry_json_spec(v: JsonValue) -> Option<GeometryView> {
    match v {
        JsonValue::Object(ms) => if ms@.len() == 2 && ms@[0].0@ == coordinates_key() && ms@[1].0@
            == type_key() {
            match ms@[1].1 {
                JsonValue::Str(t) => if t@ == point_name() {
                    match pos_of_json(ms@[0].1) {
                        None => None,
                        Some(p) => Some(GeometryView::Point(p)),
                    }
                } else if t@ == linestring_name() {
                    match ms@[0].1 {
                        JsonValue::Array(items) => match poss_from(items@, 0) {
                            None => None,
                            Some(ps) => Some(GeometryView::LineString(ps)),
                        },
                        _ => None,
                    }
                } else if t@ == polygon_name() {
                    match ms@[0].1 {
                        JsonValue::Array(items) => match rings_from(items@, 0) {
                            None => None,
                            Some(rs) => Some(GeometryView::Polygon(rs)),
                        },
                        _ => None,
                    }
                } else {
                    None
                },
                _ => None,
            }
        } else {
            None
        },
        _ => None,
    }
}

/// Collects the literal texts of an all-numbers array, or reports the
/// first non-number.
fn nums_of(items: &Vec<JsonValue>) -> (r: Option<Vec<String>>)
    ensures
        (match r {
            Option::Some(cs) => cs@.len() == items@.len() && (forall|k: int|
                0 <= k < items@.len() ==> #[trigger] items@[k] is Num) && (forall|k: int|
                0 <= k < items@.len() ==> #[trigger] cs@[k]@ == items@[k]->Num_0@),
            Option::None => !(forall|k: int| 0 <= k < items@.len() ==> #[trigger] items@[k] is Num),
        }),
{
    let mut coords: Vec<String> = Vec::new();
    let mut i: usize = 0;
    while i < items.len()
        invariant
            i <= items@.len(),
            coords@.len() == i,
            forall|k: int| 0 <= k < i ==> #[trigger] items@[k] is Num,
            forall|k: int| 0 <= k < i ==> #[trigger] coords@[k]@ == items@[k]->Num_0@,
        decreases items@.len() - i,
    {
        match &items[i] {
            JsonValue::Num(n) => {
                coords.push(n.clone());
            },
            _ => {
                proof {
                    assert(!(items@[i as int] is Num));
                }
                return None;
            },
        }
        i = i + 1;
    }
    Some(coords)
}

/// Exec mirror of [`pos_of_json`].
fn pos_from_json(v: &JsonValue) -> (r: Option<Pos>)
    ensures
        (match pos_of_json(*v) {
            Option::None => r is None,
            Option::Some(p) => r matches Some(q) && q@ == p,
        }),
{
    match v {
        JsonValue::Array(items) => {
            match nums_of(items) {
                Option::Some(coords) => {
                    let p = Pos { coords };
                    proof {
                        assert(p@ =~= items@.map_values(|j: JsonValue| j->Num_0@));
                    }
                    Some(p)
                },
                Option::None => None,
            }
        },
        _ => None,
    }
}

/// Exec mirror of [`poss_from`].
fn poss_from_json(items: &Vec<JsonValue>, i: usize) -> (r: Option<Vec<Pos>>)
    requires
        i <= items@.len(),
    ensures
        (match poss_from(items@, i as int) {
            Option::None => r is None,
            Option::Some(ps) => r matches Some(v) && line_view(v@) == ps,
        }),
    decreases items@.len() - i,
{
    if i >= items.len() {
        let out: Vec<Pos> = Vec::new();
        proof {
            assert(line_view(out@) =~= Seq::<Seq<Seq<char>>>::empty());
        }
        Some(out)
    } else {
        match pos_from_json(&items[i]) {
            Option::None => None,
            Option::Some(p) => {
                match poss_from_json(items, i + 1) {
                    Option::None => None,
                    Option::Some(rest) => {
                        let mut out: Vec<Pos> = Vec::new();
                        let mut rest = rest;
                        let ghost pv = p@;
                        let ghost restv = line_view(rest@);
                        out.push(p);
                        out.append(&mut rest);
                        proof {
                            assert(line_view(out@) =~= seq![pv] + restv);
                        }
                        Some(out)
                    },
                }
            },
        }
    }
}

/// Exec mirror of [`rings_from`].
fn rings_from_json(items: &Vec<JsonValue>, i: usize) -> (r: Option<Vec<Vec<Pos>>>)
    requires
        i <= items@.len(),
    ensures
        (match rings_from(items@, i as int) {
            Option::None => r is None,
            Option::Some(rs) => r matches Some(v) && rings_view(v@) == rs,
        }),
    decreases items@.len() - i,
{
    if i >= items.len() {
        let out: Vec<Vec<Pos>> = Vec::new();
        proof {
            assert(rings_view(out@) =~= Seq::<Seq<Seq<Seq<char>>>>::empty());
        }
        Some(out)
    } else {
        match &items[i] {
            JsonValue::Array(ps) => {
                match poss_from_json(ps, 0) {
                    Option::None => None,
                    Option::Some(ring) => {
                        match rings_from_json(items, i + 1) {
                            Option::None => None,
                            Option::Some(rest) => {
                                let mut out: Vec<Vec<Pos>> = Vec::new();
                                let mut rest = rest;
                                let ghost rv = line_view(ring@);
                                let ghost restv = rings_view(rest@);
                                out.push(ring);
                                out.append(&mut rest);
                                proof {
                                    assert(rings_view(out@) =~= seq![rv] + restv);
                                }
                                Some(out)
                            },
                        }
                    },
                }
            },
            _ => None,
        }
    }
}

/// Parses the GeoJSON-shaped surface form into the canonical geometry,
/// or reports precisely that the value is not in that form.
pub fn parse_geometry_json(v: &JsonValue) -> (r: Result<Geometry, Error>)
    ensures
        (match parse_geometry_json_spec(*v) {
            Option::None => r matches Err(e) && e is Validation,
            Option::Some(gv) => r matches Ok(g) && g@ == gv,
        }),
{
    proof {
        reveal_strlit("coordinates");
        reveal_strlit("type");
        reveal_strlit("Point");
        reveal_strlit("LineString");
        reveal_strlit("Polygon");
        assert("coordinates"@ =~= coordinates_key());
        assert("type"@ =~= type_key());
        assert("Point"@ =~= point_name());
        assert("LineString"@ =~= linestring_name());
        assert("Polygon"@ =~= polygon_name());
    }
    let bad = "geometry JSON is not a canonical geometry";
    match v {
        JsonValue::Object(ms) => {
            if !(ms.len() == 2 && crate::cql2::string_is(&ms[0].0, "coordinates")
                && crate::cql2::string_is(&ms[1].0, "type")) {
                return Err(Error::Validation(bad.to_owned()));
            }
            let t = match &ms[1].1 {
                JsonValue::Str(t) => t,
                _ => {
                    return Err(Error::Validation(bad.to_owned()));
                },
            };
            if crate::cql2::string_is(t, "Point") {
                match pos_from_json(&ms[0].1) {
                    Option::Some(p) => Ok(Geometry::Point(p)),
                    Option::None => Err(Error::Validation(bad.to_owned())),
                }
            } else if crate::cql2::string_is(t, "LineString") {
                match &ms[0].1 {
                    JsonValue::Array(items) => match poss_from_json(items, 0) {
                        Option::Some(ps) => Ok(Geometry::LineString(ps)),
                        Option::None => Err(Error::Validation(bad.to_owned())),
                    },
                    _ => Err(Error::Validation(bad.to_owned())),
                }
            } else if crate::cql2::string_is(t, "Polygon") {
                match &ms[0].1 {
                    JsonValue::Array(items) => match rings_from_json(items, 0) {
                        Option::Some(rs) => Ok(Geometry::Polygon(rs)),
                        Option::None => Err(Error::Validation(bad.to_owned())),
                    },
                    _ => Err(Error::Validation(bad.to_owned())),
                }
            } else {
                Err(Error::Validation(bad.to_owned()))
            }
        },
        _ => Err(Error::Validation(bad.to_owned())),
    }
}

/// The canonical JSON of one position.
fn pos_to_json(p: &Pos) -> (r: JsonValue)
    ensures
        pos_of_json(r) == Some(p@),
{
    let mut items: Vec<JsonValue> = Vec::new();
    let mut i: usize = 0;
    while i < p.coords.len()
        invariant
            i <= p.coords@.len(),
            items@.len() == i,
            forall|k: int| 0 <= k < i ==> #[trigger] items@[k] is Num,
            forall|k: int| 0 <= k < i ==> #[trigger] items@[k]->Num_0@ == p.coords@[k]@,
        decreases p.coords@.len() - i,
    {
        items.push(JsonValue::Num(p.coords[i].clone()));
        i = i + 1;
    }
    let r = JsonValue::Array(items);
    proof {
        assert(pos_of_json(r) matches Some(q) && q =~= p@);
    }
    r
}

/// The canonical JSON array of a position list's coordinates.
fn poss_to_json(ps: &Vec<Pos>, i: usize) -> (r: Vec<JsonValue>)
    requires
        i <= ps@.len(),
    ensures
        poss_from(r@, 0) == Some(line_view(ps@.skip(i as int))),
    decreases ps@.len() - i,
{
    if i >= ps.len() {
        let out: Vec<JsonValue> = Vec::new();
        proof {
            assert(ps@.skip(i as int) =~= Seq::<Pos>::empty());
            assert(line_view(Seq::<Pos>::empty()) =~= Seq::<Seq<Seq<char>>>::empty());
        }
        out
    } else {
        let head = pos_to_json(&ps[i]);
        let rest = poss_to_json(ps, i + 1);
        let mut out: Vec<JsonValue> = Vec::new();
        let mut rest = rest;
        let ghost hv = head;
        let ghost restv = rest@;
        out.push(head);
        out.append(&mut rest);
        proof {
            assert(out@ =~= seq![hv] + restv);
            assert(ps@.skip(i as int).drop_first() =~= ps@.skip(i + 1));
            assert(line_view(ps@.skip(i as int)) =~= seq![ps@[i as int]@] + line_view(
                ps@.skip(i + 1),
            ));
            assert(poss_from(out@, 1) == Some(line_view(ps@.skip(i + 1)))) by {
                lemma_poss_from_shift(hv, restv);
            }
        }
        out
    }
}

/// Prepending one element shifts the position parse by one.
proof fn lemma_poss_from_shift(h: JsonValue, rest: Seq<JsonValue>)
    ensures
        poss_from(seq![h] + rest, 1) == poss_from(rest, 0),
    decreases rest.len(),
{
    lemma_poss_from_shift_at(h, rest, 0);
}

/// The general shift, at every position.
proof fn lemma_poss_from_shift_at(h: JsonValue, rest: Seq<JsonValue>, i: int)
    requires
        0 <= i <= rest.len(),
    ensures
        poss_from(seq![h] + rest, i + 1) == poss_from(rest, i),
    decreases rest.len() - i,
{
    let whole = seq![h] + rest;
    if i >= rest.len() {
        assert(poss_from(whole, i + 1) == Some(Seq::<Seq<Seq<char>>>::empty()));
    } else {
        assert(whole[i + 1] == rest[i]);
        lemma_poss_from_shift_at(h, rest, i + 1);
    }
}

/// The same shift for rings.
proof fn lemma_rings_from_shift_at(h: JsonValue, rest: Seq<JsonValue>, i: int)
    requires
        0 <= i <= rest.len(),
    ensures
        rings_from(seq![h] + rest, i + 1) == rings_from(rest, i),
    decreases rest.len() - i,
{
    let whole = seq![h] + rest;
    if i >= rest.len() {
        assert(rings_from(whole, i + 1) == Some(Seq::<Seq<Seq<Seq<char>>>>::empty()));
    } else {
        assert(whole[i + 1] == rest[i]);
        lemma_rings_from_shift_at(h, rest, i + 1);
    }
}

/// The canonical JSON array of a ring list's coordinates.
fn rings_to_json(rs: &Vec<Vec<Pos>>, i: usize) -> (r: Vec<JsonValue>)
    requires
        i <= rs@.len(),
    ensures
        rings_from(r@, 0) == Some(rings_view(rs@.skip(i as int))),
    decreases rs@.len() - i,
{
    if i >= rs.len() {
        let out: Vec<JsonValue> = Vec::new();
        proof {
            assert(rs@.skip(i as int) =~= Seq::<Vec<Pos>>::empty());
            assert(rings_view(Seq::<Vec<Pos>>::empty()) =~= Seq::<Seq<Seq<Seq<char>>>>::empty());
        }
        out
    } else {
        let ring_items = poss_to_json(&rs[i], 0);
        let head = JsonValue::Array(ring_items);
        let rest = rings_to_json(rs, i + 1);
        let mut out: Vec<JsonValue> = Vec::new();
        let mut rest = rest;
        let ghost hv = head;
        let ghost restv = rest@;
        out.push(head);
        out.append(&mut rest);
        proof {
            assert(out@ =~= seq![hv] + restv);
            assert(rs@[i as int]@.skip(0) =~= rs@[i as int]@);
            assert(rs@.skip(i as int).drop_first() =~= rs@.skip(i + 1));
            assert(rings_view(rs@.skip(i as int)) =~= seq![line_view(rs@[i as int]@)]
                + rings_view(rs@.skip(i + 1)));
            assert(rings_from(out@, 1) == Some(rings_view(rs@.skip(i + 1)))) by {
                lemma_rings_from_shift_at(hv, restv, 0);
            }
        }
        out
    }
}

/// Builds the two-member geometry node around a coordinates value and a
/// type name.
fn geometry_node(coordinates: JsonValue, kind_name: &str) -> (r: JsonValue)
    ensures
        (r matches JsonValue::Object(ms) && ms@.len() == 2 && ms@[0].0@ == "coordinates"@ && ms@[0].1
            == coordinates && ms@[1].0@ == "type"@ && (ms@[1].1 matches JsonValue::Str(t) && t@
            == kind_name@)),
{
    let mut ms: Vec<(String, JsonValue)> = Vec::new();
    ms.push(("coordinates".to_owned(), coordinates));
    ms.push(("type".to_owned(), JsonValue::Str(kind_name.to_owned())));
    JsonValue::Object(ms)
}

/// Serializes the canonical geometry as its canonical GeoJSON-shaped
/// value — and that value parses back to exactly the same geometry.
pub fn geometry_to_json(g: &Geometry) -> (r: JsonValue)
    ensures
        parse_geometry_json_spec(r) == Some(g@),
{
    proof {
        reveal_strlit("coordinates");
        reveal_strlit("type");
        reveal_strlit("Point");
        reveal_strlit("LineString");
        reveal_strlit("Polygon");
        assert("coordinates"@ =~= coordinates_key());
        assert("type"@ =~= type_key());
        assert("Point"@ =~= point_name());
        assert("LineString"@ =~= linestring_name());
        assert("Polygon"@ =~= polygon_name());
    }
    match g {
        Geometry::Point(p) => {
            let coords = pos_to_json(p);
            geometry_node(coords, "Point")
        },
        Geometry::LineString(ps) => {
            let items = poss_to_json(ps, 0);
            let r = geometry_node(JsonValue::Array(items), "LineString");
            proof {
                assert(ps@.skip(0) =~= ps@);
            }
            r
        },
        Geometry::Polygon(rs) => {
            let items = rings_to_json(rs, 0);
            let r = geometry_node(JsonValue::Array(items), "Polygon");
            proof {
                assert(rs@.skip(0) =~= rs@);
            }
            r
        },
    }
}

} // verus!
