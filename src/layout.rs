//! The integer decisions of the drawing generator: which drawings a section
//! gets, and which layer each top or bottom rebar entry is drawn in.
use vstd::prelude::*;
use crate::ast;
use crate::ast::{RebarEntry, RebarPattern};

verus! {

/// Whether a section's cross-section drawing is made: unless only the
/// longitudinal view is asked for.
pub open spec fn section_shown(view: Option<ast::View>) -> bool {
    match view {
        Some(ast::View::Longitudinal) => false,
        _ => true,
    }
}

/// Whether a section's longitudinal drawing is made: it needs a span, and a
/// view that is not the cross-section alone.
pub open spec fn longitudinal_shown(view: Option<ast::View>, has_span: bool) -> bool {
    has_span && match view {
        Some(ast::View::Section) => false,
        _ => true,
    }
}

pub fn shows_section(view: Option<ast::View>) -> (r: bool)
    ensures
        r == section_shown(view),
{
    match view {
        Some(ast::View::Longitudinal) => false,
        _ => true,
    }
}

/// Whether the longitudinal drawing is made; without a span it never is.
pub fn shows_longitudinal(view: Option<ast::View>, has_span: bool) -> (r: bool)
    ensures
        r == longitudinal_shown(view, has_span),
        !has_span ==> !r,
{
    if !has_span {
        return false;
    }
    match view {
        Some(ast::View::Section) => false,
        _ => true,
    }
}

/// One top or bottom rebar entry placed in a layer of the cross-section.
/// Layer 0 lies against the concrete surface; higher layers lie further in.
#[derive(Debug, Clone, Copy, PartialEq, Eq, Structural)]
pub struct BarLayer {
    /// The entry's index in the declared rebar list.
    pub entry: usize,
    /// The layer, counted inward from the surface.
    pub layer: usize,
    /// Whether the layer is at the top (else at the bottom).
    pub top: bool,
}

pub open spec fn patterns(rebar: Seq<RebarEntry>) -> Seq<RebarPattern> {
    rebar.map_values(|e: RebarEntry| e.pattern)
}

/// The indices, in increasing order, of the entries with pattern `p`.
pub open spec fn positions(ps: Seq<RebarPattern>, p: RebarPattern) -> Seq<int>
    decreases ps.len(),
{
    if ps.len() == 0 {
        Seq::empty()
    } else {
        positions(ps.drop_last(), p) + if ps.last() == p {
            seq![ps.len() - 1]
        } else {
            Seq::empty()
        }
    }
}

/// The layers in drawing order, as (entry, layer, top): the top entries in
/// declared order, the first in layer 0; then the bottom entries in reverse
/// declared order, the last declared in layer 0.
pub open spec fn planned(ps: Seq<RebarPattern>) -> Seq<(int, int, bool)> {
    let t = positions(ps, RebarPattern::Top);
    let b = positions(ps, RebarPattern::Bottom);
    Seq::new(t.len(), |i: int| (t[i], i, true)) + Seq::new(
        b.len(),
        |i: int| (b[b.len() - 1 - i], i, false),
    )
}

pub open spec fn layer_view(l: BarLayer) -> (int, int, bool) {
    (l.entry as int, l.layer as int, l.top)
}

pub proof fn lemma_positions(ps: Seq<RebarPattern>, p: RebarPattern)
    ensures
        forall|i: int|
            0 <= i < positions(ps, p).len() ==> 0 <= #[trigger] positions(ps, p)[i] < ps.len()
                && ps[positions(ps, p)[i]] == p,
        forall|i: int, j: int|
            0 <= i < j < positions(ps, p).len() ==> #[trigger] positions(ps, p)[i]
                < #[trigger] positions(ps, p)[j],
        forall|k: int| 0 <= k < ps.len() && ps[k] == p ==> positions(ps, p).contains(k),
        positions(ps, p).len() <= ps.len(),
    decreases ps.len(),
{
    if ps.len() > 0 {
        let q = ps.drop_last();
        lemma_positions(q, p);
        let pq = positions(q, p);
        let pp = positions(ps, p);
        assert forall|i: int| 0 <= i < pq.len() implies pp[i] == pq[i] by {}
        assert forall|k: int| 0 <= k < ps.len() && ps[k] == p implies pp.contains(k) by {
            if k < q.len() {
                assert(q[k] == ps[k]);
                let i = choose|i: int| 0 <= i < pq.len() && pq[i] == k;
                assert(pp[i] == k);
            } else {
                assert(pp[pp.len() - 1] == k);
            }
        }
    }
}

/// The layer of each top and bottom rebar entry, in drawing order.
pub fn layer_plan(rebar: &Vec<RebarEntry>) -> (r: Vec<BarLayer>)
    ensures
        r@.map_values(|l: BarLayer| layer_view(l)) == planned(patterns(rebar@)),
{
    let ghost ps = patterns(rebar@);
    let mut tops: Vec<usize> = Vec::new();
    let mut bots: Vec<usize> = Vec::new();
    let mut k: usize = 0;
    while k < rebar.len()
        invariant
            k <= rebar@.len(),
            ps == patterns(rebar@),
            tops@.map_values(|e: usize| e as int) == positions(
                ps.subrange(0, k as int),
                RebarPattern::Top,
            ),
            bots@.map_values(|e: usize| e as int) == positions(
                ps.subrange(0, k as int),
                RebarPattern::Bottom,
            ),
        decreases rebar@.len() - k,
    {
        let ghost next = ps.subrange(0, k + 1);
        assert(next.drop_last() =~= ps.subrange(0, k as int));
        assert(next.last() == rebar@[k as int].pattern);
        match rebar[k].pattern {
            RebarPattern::Top => tops.push(k),
            RebarPattern::Bottom => bots.push(k),
            _ => {},
        }
        k = k + 1;
        assert(tops@.map_values(|e: usize| e as int) =~= positions(next, RebarPattern::Top));
        assert(bots@.map_values(|e: usize| e as int) =~= positions(next, RebarPattern::Bottom));
    }
    assert(ps.subrange(0, rebar@.len() as int) =~= ps);
    let ghost t = positions(ps, RebarPattern::Top);
    let ghost b = positions(ps, RebarPattern::Bottom);
    let ghost want = planned(ps);
    let mut r: Vec<BarLayer> = Vec::new();
    let mut i: usize = 0;
    while i < tops.len()
        invariant
            i <= tops@.len(),
            tops@.map_values(|e: usize| e as int) == t,
            t.len() == tops@.len(),
            r@.len() == i,
            forall|j: int| 0 <= j < i ==> layer_view(#[trigger] r@[j]) == want[j],
            want == planned(ps),
            t == positions(ps, RebarPattern::Top),
        decreases tops@.len() - i,
    {
        assert(t[i as int] == tops@[i as int] as int);
        r.push(BarLayer { entry: tops[i], layer: i, top: true });
        i = i + 1;
    }
    let mut j: usize = 0;
    let n = bots.len();
    while j < n
        invariant
            j <= n == bots@.len(),
            bots@.map_values(|e: usize| e as int) == b,
            b.len() == n,
            t.len() == tops@.len(),
            r@.len() == t.len() + j,
            forall|q: int| 0 <= q < t.len() + j ==> layer_view(#[trigger] r@[q]) == want[q],
            want == planned(ps),
            t == positions(ps, RebarPattern::Top),
            b == positions(ps, RebarPattern::Bottom),
        decreases n - j,
    {
        assert(b[n - 1 - j] == bots@[n - 1 - j] as int);
        r.push(BarLayer { entry: bots[n - 1 - j], layer: j, top: false });
        j = j + 1;
    }
    assert(r@.map_values(|l: BarLayer| layer_view(l)) =~= want);
    r
}

/// Top entries stack inward in the order they are declared, the first
/// declared outermost; bottom entries stack inward in the reverse order, the
/// last declared outermost. Every top and every bottom entry has one layer.
pub proof fn lemma_layer_order(ps: Seq<RebarPattern>)
    ensures
        forall|a: int, b: int|
            0 <= a < planned(ps).len() && 0 <= b < planned(ps).len() && (#[trigger] planned(
                ps,
            )[a]).2 && (#[trigger] planned(ps)[b]).2 && planned(ps)[a].0 < planned(ps)[b].0
                ==> planned(ps)[a].1 < planned(ps)[b].1,
        forall|a: int, b: int|
            0 <= a < planned(ps).len() && 0 <= b < planned(ps).len() && !(#[trigger] planned(
                ps,
            )[a]).2 && !(#[trigger] planned(ps)[b]).2 && planned(ps)[a].0 < planned(ps)[b].0
                ==> planned(ps)[a].1 > planned(ps)[b].1,
        forall|a: int|
            0 <= a < planned(ps).len() && (#[trigger] planned(ps)[a]).2 && (forall|k: int|
                0 <= k < planned(ps)[a].0 ==> ps[k] != RebarPattern::Top) ==> planned(ps)[a].1
                == 0,
        forall|a: int|
            0 <= a < planned(ps).len() && !(#[trigger] planned(ps)[a]).2 && (forall|k: int|
                planned(ps)[a].0 < k < ps.len() ==> ps[k] != RebarPattern::Bottom)
                ==> planned(ps)[a].1 == 0,
        forall|k: int|
            0 <= k < ps.len() && (ps[k] == RebarPattern::Top || ps[k] == RebarPattern::Bottom)
                ==> exists|a: int|
                0 <= a < planned(ps).len() && (#[trigger] planned(ps)[a]).0 == k && planned(
                    ps,
                )[a].2 == (ps[k] == RebarPattern::Top),
{
    let t = positions(ps, RebarPattern::Top);
    let b = positions(ps, RebarPattern::Bottom);
    let pl = planned(ps);
    lemma_positions(ps, RebarPattern::Top);
    lemma_positions(ps, RebarPattern::Bottom);
    assert forall|x: int, y: int|
        0 <= x < pl.len() && 0 <= y < pl.len() && (#[trigger] pl[x]).2 && (#[trigger] pl[y]).2
            && pl[x].0 < pl[y].0 implies pl[x].1 < pl[y].1 by {
        assert(x < t.len() && y < t.len());
        if y <= x {
            if y < x {
                assert(t[y] < t[x]);
            }
        }
    }
    assert forall|x: int, y: int|
        0 <= x < pl.len() && 0 <= y < pl.len() && !(#[trigger] pl[x]).2 && !(#[trigger] pl[y]).2
            && pl[x].0 < pl[y].0 implies pl[x].1 > pl[y].1 by {
        assert(x >= t.len() && y >= t.len());
        let bx = b.len() - 1 - (x - t.len());
        let by_ = b.len() - 1 - (y - t.len());
        assert(pl[x].0 == b[bx] && pl[y].0 == b[by_]);
        if bx >= by_ {
            if bx > by_ {
                assert(b[by_] < b[bx]);
            }
        }
    }
    assert forall|x: int|
        0 <= x < pl.len() && (#[trigger] pl[x]).2 && (forall|k: int|
            0 <= k < pl[x].0 ==> ps[k] != RebarPattern::Top) implies pl[x].1 == 0 by {
        if x > 0 {
            assert(t[0] < t[x]);
            assert(ps[t[0]] == RebarPattern::Top);
        }
    }
    assert forall|x: int|
        0 <= x < pl.len() && !(#[trigger] pl[x]).2 && (forall|k: int|
            pl[x].0 < k < ps.len() ==> ps[k] != RebarPattern::Bottom) implies pl[x].1 == 0 by {
        let bx = b.len() - 1 - (x - t.len());
        if bx < b.len() - 1 {
            assert(b[bx] < b[b.len() - 1]);
            assert(ps[b[b.len() - 1]] == RebarPattern::Bottom);
        }
    }
    assert forall|k: int|
        0 <= k < ps.len() && (ps[k] == RebarPattern::Top || ps[k] == RebarPattern::Bottom)
            implies exists|a: int|
        0 <= a < pl.len() && (#[trigger] pl[a]).0 == k && pl[a].2 == (ps[k]
            == RebarPattern::Top) by {
        if ps[k] == RebarPattern::Top {
            let i = choose|i: int| 0 <= i < t.len() && t[i] == k;
            assert(pl[i].0 == k);
        } else {
            let i = choose|i: int| 0 <= i < b.len() && b[i] == k;
            let a = t.len() + (b.len() - 1 - i);
            assert(pl[a].0 == k);
        }
    }
}

} // verus!
