//! The two erasers: the point eraser cuts strokes where it touches them, the
//! stroke eraser removes every stroke it touches as a whole.
use vstd::prelude::*;
use crate::stroke::{Stroke, StrokeView, view_strokes};

verus! {

/// Whether `p` lies strictly closer than `reach` to `q`, by Euclidean distance.
pub open spec fn within(p: (u16, u16), q: (u16, u16), reach: int) -> bool {
    let dx = p.0 as int - q.0 as int;
    let dy = p.1 as int - q.1 as int;
    dx * dx + dy * dy < reach * reach
}

/// How far an eraser of size `eraser_size` reaches into a stroke: the two
/// radii together.
pub open spec fn reach_of(s: StrokeView, eraser_size: u16) -> int {
    s.size as int + eraser_size as int
}

/// Whether erasing with an eraser of size `eraser_size` at `point` can be
/// done on `s` without the two radii overflowing a `u16`.
pub open spec fn reach_fits(s: StrokeView, eraser_size: u16) -> bool {
    s.coordinates.len() > 0 ==> reach_of(s, eraser_size) <= u16::MAX as int
}

/// Whether erasing can be done on every stroke of `strokes`.
pub open spec fn reaches_fit(strokes: Seq<StrokeView>, eraser_size: u16) -> bool {
    forall|i: int| 0 <= i < strokes.len() ==> reach_fits(#[trigger] strokes[i], eraser_size)
}

/// The index of the first of `points`, from `k` on, that lies within `reach`
/// of `point`; `points.len()` if there is none.
pub open spec fn first_hit_from(points: Seq<(u16, u16)>, point: (u16, u16), reach: int, k: int) -> int
    decreases points.len() - k,
{
    if k < 0 || k >= points.len() {
        points.len() as int
    } else if within(points[k], point, reach) {
        k
    } else {
        first_hit_from(points, point, reach, k + 1)
    }
}

/// The index of the first of `points` within `reach` of `point`;
/// `points.len()` if there is none.
pub open spec fn first_hit(points: Seq<(u16, u16)>, point: (u16, u16), reach: int) -> int {
    first_hit_from(points, point, reach, 0)
}

/// Whether the eraser at `point` reaches some point of the stroke.
pub open spec fn touched(s: StrokeView, point: (u16, u16), eraser_size: u16) -> bool {
    exists|j: int| 0 <= j < s.coordinates.len() && within(#[trigger] s.coordinates[j], point, reach_of(s, eraser_size))
}

/// What the point eraser leaves of a stroke in place: the points before the
/// first one it reaches.
pub open spec fn erased_head(s: StrokeView, point: (u16, u16), eraser_size: u16) -> StrokeView {
    StrokeView {
        size: s.size,
        color: s.color,
        layer: s.layer,
        coordinates: s.coordinates.take(first_hit(s.coordinates, point, reach_of(s, eraser_size))),
    }
}

/// The piece the point eraser splits off a stroke: the points after the first
/// one it reaches, as a new stroke, when there are at least two of them.
pub open spec fn erased_tail(s: StrokeView, point: (u16, u16), eraser_size: u16) -> Seq<StrokeView> {
    let h = first_hit(s.coordinates, point, reach_of(s, eraser_size));
    if h < s.coordinates.len() && s.coordinates.len() - h > 1 {
        seq![StrokeView { size: s.size, color: s.color, layer: s.layer, coordinates: s.coordinates.skip(h + 1) }]
    } else {
        seq![]
    }
}

/// The heads of all strokes, in order.
pub open spec fn erased_heads(strokes: Seq<StrokeView>, point: (u16, u16), eraser_size: u16) -> Seq<StrokeView> {
    Seq::new(strokes.len(), |j: int| erased_head(strokes[j], point, eraser_size))
}

/// The split-off pieces of all strokes, in order.
pub open spec fn erased_tails(strokes: Seq<StrokeView>, point: (u16, u16), eraser_size: u16) -> Seq<StrokeView>
    decreases strokes.len(),
{
    if strokes.len() == 0 {
        seq![]
    } else {
        erased_tails(strokes.drop_last(), point, eraser_size) + erased_tail(strokes.last(), point, eraser_size)
    }
}

/// The strokes of `strokes` that have at least two points, in order.
pub open spec fn long_strokes(strokes: Seq<StrokeView>) -> Seq<StrokeView>
    decreases strokes.len(),
{
    if strokes.len() == 0 {
        seq![]
    } else if strokes.last().coordinates.len() > 1 {
        long_strokes(strokes.drop_last()).push(strokes.last())
    } else {
        long_strokes(strokes.drop_last())
    }
}

/// The canvas after the point eraser at `point`: each stroke is cut at the
/// first point the eraser reaches, the pieces after the cuts are appended,
/// and every stroke left with fewer than two points is dropped.
pub open spec fn erase_result(strokes: Seq<StrokeView>, point: (u16, u16), eraser_size: u16) -> Seq<StrokeView> {
    long_strokes(erased_heads(strokes, point, eraser_size) + erased_tails(strokes, point, eraser_size))
}

/// Whether the eraser at `point` reaches some stroke.
pub open spec fn any_touched(strokes: Seq<StrokeView>, point: (u16, u16), eraser_size: u16) -> bool {
    exists|i: int| 0 <= i < strokes.len() && touched(#[trigger] strokes[i], point, eraser_size)
}

/// The strokes the stroke eraser at `point` leaves: those it does not reach.
pub open spec fn untouched_strokes(strokes: Seq<StrokeView>, point: (u16, u16), eraser_size: u16) -> Seq<StrokeView>
    decreases strokes.len(),
{
    if strokes.len() == 0 {
        seq![]
    } else if touched(strokes.last(), point, eraser_size) {
        untouched_strokes(strokes.drop_last(), point, eraser_size)
    } else {
        untouched_strokes(strokes.drop_last(), point, eraser_size).push(strokes.last())
    }
}

proof fn lemma_first_hit_from(points: Seq<(u16, u16)>, point: (u16, u16), reach: int, k: int)
    requires
        0 <= k <= points.len(),
    ensures
        k <= first_hit_from(points, point, reach, k) <= points.len(),
        first_hit_from(points, point, reach, k) < points.len() ==> within(
            points[first_hit_from(points, point, reach, k)],
            point,
            reach,
        ),
        forall|j: int| k <= j < first_hit_from(points, point, reach, k) ==> !within(#[trigger] points[j], point, reach),
    decreases points.len() - k,
{
    if k < points.len() && !within(points[k], point, reach) {
        lemma_first_hit_from(points, point, reach, k + 1);
    }
}

/// The first hit is the one index before which nothing is reached and at
/// which (unless it is the end) something is.
proof fn lemma_first_hit_unique(points: Seq<(u16, u16)>, point: (u16, u16), reach: int, k: int)
    requires
        0 <= k <= points.len(),
        forall|j: int| 0 <= j < k ==> !within(#[trigger] points[j], point, reach),
        k < points.len() ==> within(points[k], point, reach),
    ensures
        first_hit(points, point, reach) == k,
{
    lemma_first_hit_from(points, point, reach, 0);
}

/// The stroke is touched exactly when its first hit lies inside it.
proof fn lemma_touched_first_hit(s: StrokeView, point: (u16, u16), eraser_size: u16)
    ensures
        touched(s, point, eraser_size) <==> first_hit(s.coordinates, point, reach_of(s, eraser_size))
            < s.coordinates.len(),
{
    lemma_first_hit_from(s.coordinates, point, reach_of(s, eraser_size), 0);
}

/// Whether `p` lies strictly within `reach` of `q`.
fn is_within(p: (u16, u16), q: (u16, u16), reach: u16) -> (res: bool)
    ensures
        res == within(p, q, reach as int),
{
    let dx: u64 = if p.0 >= q.0 { (p.0 - q.0) as u64 } else { (q.0 - p.0) as u64 };
    let dy: u64 = if p.1 >= q.1 { (p.1 - q.1) as u64 } else { (q.1 - p.1) as u64 };
    let r: u64 = reach as u64;
    proof {
        let ex = p.0 as int - q.0 as int;
        let ey = p.1 as int - q.1 as int;
        assert(dx * dx == ex * ex) by (nonlinear_arith)
            requires
                dx == ex || dx == -ex,
        ;
        assert(dy * dy == ey * ey) by (nonlinear_arith)
            requires
                dy == ey || dy == -ey,
        ;
        assert(dx * dx <= 65535 * 65535) by (nonlinear_arith)
            requires
                dx <= 65535,
        ;
        assert(dy * dy <= 65535 * 65535) by (nonlinear_arith)
            requires
                dy <= 65535,
        ;
        assert(r * r <= 65535 * 65535) by (nonlinear_arith)
            requires
                r <= 65535,
        ;
    }
    dx * dx + dy * dy < r * r
}

/// The index of the first of `points` within `reach` of `point`, or
/// `points.len()` if none is.
fn find_first_hit(points: &Vec<(u16, u16)>, point: (u16, u16), reach: u16) -> (k: usize)
    ensures
        k == first_hit(points@, point, reach as int),
{
    let mut k: usize = 0;
    while k < points.len()
        invariant
            k <= points@.len(),
            forall|j: int| 0 <= j < k ==> !within(#[trigger] points@[j], point, reach as int),
        ensures
            k <= points@.len(),
            forall|j: int| 0 <= j < k ==> !within(#[trigger] points@[j], point, reach as int),
            k < points@.len() ==> within(points@[k as int], point, reach as int),
        decreases points@.len() - k,
    {
        if is_within(points[k], point, reach) {
            break;
        }
        k += 1;
    }
    proof {
        lemma_first_hit_unique(points@, point, reach as int, k as int);
    }
    k
}

/// The points of `points` from `from` on.
fn points_from(points: &Vec<(u16, u16)>, from: usize) -> (res: Vec<(u16, u16)>)
    requires
        from <= points@.len(),
    ensures
        res@ == points@.skip(from as int),
{
    let mut res: Vec<(u16, u16)> = Vec::new();
    let mut i: usize = from;
    while i < points.len()
        invariant
            from <= i <= points@.len(),
            res@ == points@.subrange(from as int, i as int),
        decreases points@.len() - i,
    {
        res.push(points[i]);
        i += 1;
        assert(res@ =~= points@.subrange(from as int, i as int));
    }
    assert(res@ =~= points@.skip(from as int));
    res
}

/// Drops, in place and keeping their order, the strokes with fewer than two
/// points.
fn retain_long_strokes(strokes: &mut Vec<Stroke>)
    ensures
        view_strokes(final(strokes)@) == long_strokes(view_strokes(old(strokes)@)),
{
    let ghost orig = view_strokes(strokes@);
    let mut i: usize = 0;
    let ghost mut c: int = 0;
    while i < strokes.len()
        invariant
            0 <= c <= orig.len(),
            view_strokes(strokes@) == long_strokes(orig.take(c)) + orig.skip(c),
            i == long_strokes(orig.take(c)).len(),
        decreases orig.len() - c,
    {
        assert(orig.skip(c)[0] == orig[c]);
        assert(orig.take(c + 1).drop_last() =~= orig.take(c));
        assert(orig.take(c + 1).last() == orig[c]);
        let ghost prev = strokes@;
        assert(view_strokes(prev)[i as int] == orig[c]);
        if strokes[i].coordinates.len() > 1 {
            i += 1;
        } else {
            strokes.remove(i);
            assert(view_strokes(strokes@) =~= view_strokes(prev).remove(i as int));
        }
        proof {
            c = c + 1;
            assert(view_strokes(strokes@) =~= long_strokes(orig.take(c)) + orig.skip(c));
        }
    }
    assert(orig.take(c) =~= orig);
    assert(view_strokes(strokes@) =~= long_strokes(orig));
}

/// Erases with the point eraser of size `eraser_size` at `point`: each stroke
/// is cut at the first of its points within reach (its radius plus the
/// eraser's), the points after the cut become a new stroke at the end of the
/// list when there are at least two of them, and all strokes left with fewer
/// than two points are dropped. Returns whether the eraser reached any point.
pub fn erase_at(strokes: &mut Vec<Stroke>, point: (u16, u16), eraser_size: u16) -> (erased: bool)
    requires
        reaches_fit(view_strokes(old(strokes)@), eraser_size),
    ensures
        view_strokes(final(strokes)@) == erase_result(view_strokes(old(strokes)@), point, eraser_size),
        erased == any_touched(view_strokes(old(strokes)@), point, eraser_size),
{
    let ghost orig = view_strokes(strokes@);
    let mut new_strokes: Vec<Stroke> = Vec::new();
    let mut erased = false;
    let mut i: usize = 0;
    while i < strokes.len()
        invariant
            orig == view_strokes(old(strokes)@),
            reaches_fit(orig, eraser_size),
            strokes@.len() == orig.len(),
            i <= orig.len(),
            forall|j: int| 0 <= j < i ==> (#[trigger] strokes@[j]).deep_view() == erased_head(orig[j], point, eraser_size),
            forall|j: int| i <= j < orig.len() ==> (#[trigger] strokes@[j]).deep_view() == orig[j],
            view_strokes(new_strokes@) == erased_tails(orig.take(i as int), point, eraser_size),
            erased == any_touched(orig.take(i as int), point, eraser_size),
        decreases orig.len() - i,
    {
        let ghost s = orig[i as int];
        let n = strokes[i].coordinates.len();
        proof {
            assert(strokes@[i as int].deep_view() == s);
            assert(reach_fits(orig[i as int], eraser_size));
            lemma_touched_first_hit(s, point, eraser_size);
        }
        let mut k: usize = n;
        if n > 0 {
            let reach = strokes[i].size + eraser_size;
            k = find_first_hit(&strokes[i].coordinates, point, reach);
            if k < n {
                erased = true;
                let remaining = strokes[i].coordinates.split_off(k);
                if remaining.len() > 1 {
                    let rest = points_from(&remaining, 1);
                    new_strokes.push(
                        Stroke {
                            size: strokes[i].size,
                            color: strokes[i].color,
                            layer: strokes[i].layer,
                            coordinates: rest,
                        },
                    );
                }
            }
        }
        proof {
            let h = first_hit(s.coordinates, point, reach_of(s, eraser_size));
            lemma_first_hit_from(s.coordinates, point, reach_of(s, eraser_size), 0);
            assert(k == h);
            if h < s.coordinates.len() {
                assert(s.coordinates.skip(h).skip(1) =~= s.coordinates.skip(h + 1));
            }
            assert(strokes@[i as int].deep_view().coordinates =~= s.coordinates.take(h));
            assert(orig.take(i + 1).drop_last() =~= orig.take(i as int));
            assert(orig.take(i + 1).last() == s);
            assert(view_strokes(new_strokes@) =~= erased_tails(orig.take(i + 1), point, eraser_size));
            if erased {
                if !any_touched(orig.take(i as int), point, eraser_size) {
                    assert(orig.take(i + 1)[i as int] == s);
                }
            } else {
                assert forall|j: int| 0 <= j < i + 1 implies !touched(#[trigger] orig.take(i + 1)[j], point, eraser_size) by {
                    if j < i {
                        assert(orig.take(i + 1)[j] == orig.take(i as int)[j]);
                    }
                }
            }
        }
        i += 1;
    }
    proof {
        assert(orig.take(i as int) =~= orig);
        assert(view_strokes(strokes@) =~= erased_heads(orig, point, eraser_size));
    }
    strokes.append(&mut new_strokes);
    proof {
        assert(view_strokes(strokes@) =~= erased_heads(orig, point, eraser_size) + erased_tails(orig, point, eraser_size));
    }
    retain_long_strokes(strokes);
    erased
}

/// Whether the eraser at `point` reaches some point of `stroke`.
pub(crate) fn touches_checked(stroke: &Stroke, point: (u16, u16), eraser_size: u16) -> (res: bool)
    requires
        reach_fits(stroke.deep_view(), eraser_size),
    ensures
        res == touched(stroke.deep_view(), point, eraser_size),
{
    proof {
        lemma_touched_first_hit(stroke.deep_view(), point, eraser_size);
    }
    let n = stroke.coordinates.len();
    if n == 0 {
        return false;
    }
    let reach = stroke.size + eraser_size;
    find_first_hit(&stroke.coordinates, point, reach) < n
}

proof fn lemma_untouched_len(strokes: Seq<StrokeView>, point: (u16, u16), eraser_size: u16)
    ensures
        untouched_strokes(strokes, point, eraser_size).len() <= strokes.len(),
        untouched_strokes(strokes, point, eraser_size).len() < strokes.len() <==> any_touched(
            strokes,
            point,
            eraser_size,
        ),
    decreases strokes.len(),
{
    if strokes.len() > 0 {
        let d = strokes.drop_last();
        lemma_untouched_len(d, point, eraser_size);
        if any_touched(d, point, eraser_size) {
            let i = choose|i: int| 0 <= i < d.len() && touched(#[trigger] d[i], point, eraser_size);
            assert(strokes[i] == d[i]);
        }
        if any_touched(strokes, point, eraser_size) && !touched(strokes.last(), point, eraser_size) {
            let i = choose|i: int| 0 <= i < strokes.len() && touched(#[trigger] strokes[i], point, eraser_size);
            assert(d[i] == strokes[i]);
        }
    }
}

/// Erases with the stroke eraser of size `eraser_size` at `point`: every
/// stroke with a point within reach (its radius plus the eraser's) is removed
/// whole; the others stay, in order. Returns whether any stroke was removed.
pub fn stroke_erase_at(strokes: &mut Vec<Stroke>, point: (u16, u16), eraser_size: u16) -> (erased: bool)
    requires
        reaches_fit(view_strokes(old(strokes)@), eraser_size),
    ensures
        view_strokes(final(strokes)@) == untouched_strokes(view_strokes(old(strokes)@), point, eraser_size),
        erased == any_touched(view_strokes(old(strokes)@), point, eraser_size),
{
    let ghost orig = view_strokes(strokes@);
    let before = strokes.len();
    let mut i: usize = 0;
    let ghost mut c: int = 0;
    while i < strokes.len()
        invariant
            reaches_fit(orig, eraser_size),
            0 <= c <= orig.len(),
            view_strokes(strokes@) == untouched_strokes(orig.take(c), point, eraser_size) + orig.skip(c),
            i == untouched_strokes(orig.take(c), point, eraser_size).len(),
        decreases orig.len() - c,
    {
        assert(orig.skip(c)[0] == orig[c]);
        assert(orig.take(c + 1).drop_last() =~= orig.take(c));
        assert(orig.take(c + 1).last() == orig[c]);
        let ghost prev = strokes@;
        assert(view_strokes(prev)[i as int] == orig[c]);
        assert(reach_fits(orig[c], eraser_size));
        if touches_checked(&strokes[i], point, eraser_size) {
            strokes.remove(i);
            assert(view_strokes(strokes@) =~= view_strokes(prev).remove(i as int));
        } else {
            i += 1;
        }
        proof {
            c = c + 1;
            assert(view_strokes(strokes@) =~= untouched_strokes(orig.take(c), point, eraser_size) + orig.skip(c));
        }
    }
    proof {
        assert(orig.take(c) =~= orig);
        assert(view_strokes(strokes@) =~= untouched_strokes(orig, point, eraser_size));
        lemma_untouched_len(orig, point, eraser_size);
    }
    strokes.len() != before
}

/// The stroke eraser leaves no stroke it reaches, and keeps every stroke it
/// does not reach, in order.
pub proof fn lemma_stroke_erase_removes_exactly_touched(
    strokes: Seq<StrokeView>,
    point: (u16, u16),
    eraser_size: u16,
)
    ensures
        forall|i: int| 0 <= i < untouched_strokes(strokes, point, eraser_size).len() ==> !touched(
            #[trigger] untouched_strokes(strokes, point, eraser_size)[i],
            point,
            eraser_size,
        ),
        forall|i: int|
            0 <= i < strokes.len() && !touched(#[trigger] strokes[i], point, eraser_size)
                ==> untouched_strokes(strokes, point, eraser_size).contains(strokes[i]),
        !any_touched(strokes, point, eraser_size) ==> untouched_strokes(strokes, point, eraser_size) == strokes,
    decreases strokes.len(),
{
    if strokes.len() > 0 {
        let d = strokes.drop_last();
        let u = untouched_strokes(d, point, eraser_size);
        lemma_stroke_erase_removes_exactly_touched(d, point, eraser_size);
        assert forall|i: int|
            0 <= i < strokes.len() && !touched(#[trigger] strokes[i], point, eraser_size)
            implies untouched_strokes(strokes, point, eraser_size).contains(strokes[i]) by {
            if i < d.len() {
                assert(d[i] == strokes[i]);
                let k = choose|k: int| 0 <= k < u.len() && u[k] == d[i];
                if !touched(strokes.last(), point, eraser_size) {
                    assert(u.push(strokes.last())[k] == strokes[i]);
                }
            } else {
                assert(u.push(strokes.last())[u.len() as int] == strokes[i]);
            }
        }
        if !any_touched(strokes, point, eraser_size) {
            assert forall|i: int| 0 <= i < d.len() implies !touched(#[trigger] d[i], point, eraser_size) by {
                assert(strokes[i] == d[i]);
            }
            assert(!touched(strokes[strokes.len() - 1], point, eraser_size));
            assert(strokes =~= d.push(strokes.last()));
        }
    }
}

proof fn lemma_long_strokes_identity(strokes: Seq<StrokeView>)
    ensures
        forall|i: int| 0 <= i < long_strokes(strokes).len() ==> (#[trigger] long_strokes(strokes)[i]).coordinates.len() > 1,
        forall|i: int|
            0 <= i < strokes.len() && (#[trigger] strokes[i]).coordinates.len() > 1 ==> long_strokes(strokes).contains(strokes[i]),
        forall|i: int| 0 <= i < long_strokes(strokes).len() ==> strokes.contains(#[trigger] long_strokes(strokes)[i]),
    decreases strokes.len(),
{
    if strokes.len() > 0 {
        let d = strokes.drop_last();
        let l = long_strokes(d);
        lemma_long_strokes_identity(d);
        assert forall|i: int|
            0 <= i < strokes.len() && (#[trigger] strokes[i]).coordinates.len() > 1 implies long_strokes(strokes).contains(strokes[i]) by {
            if i < d.len() {
                assert(d[i] == strokes[i]);
                let k = choose|k: int| 0 <= k < l.len() && l[k] == d[i];
                if strokes.last().coordinates.len() > 1 {
                    assert(l.push(strokes.last())[k] == strokes[i]);
                }
            } else {
                assert(l.push(strokes.last())[l.len() as int] == strokes[i]);
            }
        }
        assert forall|i: int| 0 <= i < long_strokes(strokes).len() implies strokes.contains(#[trigger] long_strokes(strokes)[i]) by {
            if i < l.len() {
                let k = choose|k: int| 0 <= k < d.len() && d[k] == l[i];
                assert(strokes[k] == d[k]);
                if strokes.last().coordinates.len() > 1 {
                    assert(long_strokes(strokes)[i] == l[i]);
                }
            } else {
                assert(strokes[strokes.len() - 1] == long_strokes(strokes)[i]);
            }
        }
    }
}

/// Whether `piece` is made of consecutive points of some stroke of
/// `strokes`, drawn with the same size, colour and layer.
pub open spec fn is_piece_of(piece: StrokeView, strokes: Seq<StrokeView>) -> bool {
    exists|i: int, from: int, to: int|
        0 <= i < strokes.len() && 0 <= from <= to <= strokes[i].coordinates.len()
            && piece.size == strokes[i].size && piece.color == strokes[i].color
            && piece.layer == strokes[i].layer
            && piece.coordinates == #[trigger] strokes[i].coordinates.subrange(from, to)
}

proof fn lemma_tails_are_pieces(strokes: Seq<StrokeView>, point: (u16, u16), eraser_size: u16)
    ensures
        forall|k: int| 0 <= k < erased_tails(strokes, point, eraser_size).len()
            ==> is_piece_of(#[trigger] erased_tails(strokes, point, eraser_size)[k], strokes),
        !any_touched(strokes, point, eraser_size) ==> erased_tails(strokes, point, eraser_size) == Seq::<StrokeView>::empty(),
    decreases strokes.len(),
{
    if strokes.len() > 0 {
        let d = strokes.drop_last();
        let t = erased_tails(d, point, eraser_size);
        let s = strokes.last();
        let u = erased_tail(s, point, eraser_size);
        lemma_tails_are_pieces(d, point, eraser_size);
        lemma_first_hit_from(s.coordinates, point, reach_of(s, eraser_size), 0);
        lemma_touched_first_hit(s, point, eraser_size);
        assert forall|k: int| 0 <= k < (t + u).len() implies is_piece_of(#[trigger] (t + u)[k], strokes) by {
            if k < t.len() {
                let (i, from, to) = choose|i: int, from: int, to: int|
                    0 <= i < d.len() && 0 <= from <= to <= d[i].coordinates.len()
                        && t[k].size == d[i].size && t[k].color == d[i].color && t[k].layer == d[i].layer
                        && t[k].coordinates == #[trigger] d[i].coordinates.subrange(from, to);
                assert(strokes[i] == d[i]);
            } else {
                let h = first_hit(s.coordinates, point, reach_of(s, eraser_size));
                let n = s.coordinates.len() as int;
                assert(strokes[strokes.len() - 1] == s);
                assert(s.coordinates.skip(h + 1) =~= s.coordinates.subrange(h + 1, n));
            }
        }
        if !any_touched(strokes, point, eraser_size) {
            assert forall|i: int| 0 <= i < d.len() implies !touched(#[trigger] d[i], point, eraser_size) by {
                assert(strokes[i] == d[i]);
            }
            assert(!touched(strokes[strokes.len() - 1], point, eraser_size));
            assert(t + u =~= Seq::<StrokeView>::empty());
        }
    }
}

/// The point eraser only takes ink away: every stroke it leaves has at least
/// two points and is a run of consecutive points of a stroke that was there
/// before, with that stroke's size, colour and layer. Where it reaches
/// nothing, all it does is drop the strokes of fewer than two points.
pub proof fn lemma_erase_only_removes_ink(strokes: Seq<StrokeView>, point: (u16, u16), eraser_size: u16)
    ensures
        forall|k: int| 0 <= k < erase_result(strokes, point, eraser_size).len()
            ==> (#[trigger] erase_result(strokes, point, eraser_size)[k]).coordinates.len() > 1
                && is_piece_of(erase_result(strokes, point, eraser_size)[k], strokes),
        !any_touched(strokes, point, eraser_size) ==> erase_result(strokes, point, eraser_size) == long_strokes(strokes),
{
    let heads = erased_heads(strokes, point, eraser_size);
    let tails = erased_tails(strokes, point, eraser_size);
    let all = heads + tails;
    lemma_long_strokes_identity(all);
    lemma_tails_are_pieces(strokes, point, eraser_size);
    assert forall|k: int| 0 <= k < erase_result(strokes, point, eraser_size).len()
        implies is_piece_of(#[trigger] erase_result(strokes, point, eraser_size)[k], strokes) by {
        let r = erase_result(strokes, point, eraser_size)[k];
        let m = choose|m: int| 0 <= m < all.len() && all[m] == r;
        if m < heads.len() {
            let s = strokes[m];
            lemma_first_hit_from(s.coordinates, point, reach_of(s, eraser_size), 0);
            let h = first_hit(s.coordinates, point, reach_of(s, eraser_size));
            assert(s.coordinates.take(h) =~= s.coordinates.subrange(0, h));
        } else {
            assert(all[m] == tails[m - heads.len()]);
        }
    }
    if !any_touched(strokes, point, eraser_size) {
        assert forall|j: int| 0 <= j < strokes.len() implies heads[j] == strokes[j] by {
            let s = strokes[j];
            lemma_touched_first_hit(s, point, eraser_size);
            lemma_first_hit_from(s.coordinates, point, reach_of(s, eraser_size), 0);
            assert(s.coordinates.take(s.coordinates.len() as int) =~= s.coordinates);
        }
        assert(heads =~= strokes);
        assert(all =~= strokes);
    }
}

/// Where every stroke has at least two points, dropping the short ones
/// changes nothing.
pub proof fn lemma_long_strokes_keeps_long(strokes: Seq<StrokeView>)
    requires
        forall|i: int| 0 <= i < strokes.len() ==> (#[trigger] strokes[i]).coordinates.len() > 1,
    ensures
        long_strokes(strokes) == strokes,
    decreases strokes.len(),
{
    if strokes.len() > 0 {
        let d = strokes.drop_last();
        assert forall|i: int| 0 <= i < d.len() implies (#[trigger] d[i]).coordinates.len() > 1 by {
            assert(d[i] == strokes[i]);
        }
        lemma_long_strokes_keeps_long(d);
        assert(strokes[strokes.len() - 1].coordinates.len() > 1);
        assert(d.push(strokes.last()) =~= strokes);
    }
}

/// The number of points in all of `strokes`.
pub open spec fn ink(strokes: Seq<StrokeView>) -> int
    decreases strokes.len(),
{
    if strokes.len() == 0 {
        0
    } else {
        ink(strokes.drop_last()) + strokes.last().coordinates.len()
    }
}

/// How many of `strokes` have a point within the eraser's reach.
pub open spec fn touched_count(strokes: Seq<StrokeView>, point: (u16, u16), eraser_size: u16) -> int
    decreases strokes.len(),
{
    if strokes.len() == 0 {
        0
    } else {
        touched_count(strokes.drop_last(), point, eraser_size) + if touched(strokes.last(), point, eraser_size) {
            1int
        } else {
            0int
        }
    }
}

proof fn lemma_ink_add(a: Seq<StrokeView>, b: Seq<StrokeView>)
    ensures
        ink(a + b) == ink(a) + ink(b),
    decreases b.len(),
{
    if b.len() == 0 {
        assert(a + b =~= a);
    } else {
        lemma_ink_add(a, b.drop_last());
        assert((a + b).drop_last() =~= a + b.drop_last());
        assert((a + b).last() == b.last());
    }
}

proof fn lemma_ink_long(strokes: Seq<StrokeView>)
    ensures
        0 <= ink(long_strokes(strokes)) <= ink(strokes),
    decreases strokes.len(),
{
    if strokes.len() > 0 {
        lemma_ink_long(strokes.drop_last());
        let l = long_strokes(strokes.drop_last());
        if strokes.last().coordinates.len() > 1 {
            assert(l.push(strokes.last()).drop_last() =~= l);
        }
    }
}

proof fn lemma_ink_heads_tails(strokes: Seq<StrokeView>, point: (u16, u16), eraser_size: u16)
    ensures
        ink(erased_heads(strokes, point, eraser_size)) + ink(erased_tails(strokes, point, eraser_size))
            + touched_count(strokes, point, eraser_size) <= ink(strokes),
        0 <= touched_count(strokes, point, eraser_size),
        touched_count(strokes, point, eraser_size) > 0 <==> any_touched(strokes, point, eraser_size),
    decreases strokes.len(),
{
    if strokes.len() > 0 {
        let d = strokes.drop_last();
        let x = strokes.last();
        lemma_ink_heads_tails(d, point, eraser_size);
        let heads = erased_heads(strokes, point, eraser_size);
        assert(heads.drop_last() =~= erased_heads(d, point, eraser_size));
        assert(heads.last() == erased_head(x, point, eraser_size));
        lemma_ink_add(erased_tails(d, point, eraser_size), erased_tail(x, point, eraser_size));
        let u = erased_tail(x, point, eraser_size);
        lemma_first_hit_from(x.coordinates, point, reach_of(x, eraser_size), 0);
        let h = first_hit(x.coordinates, point, reach_of(x, eraser_size));
        if u.len() > 0 {
            assert(u.drop_last() =~= Seq::<StrokeView>::empty());
            assert(ink(u.drop_last()) == 0);
            assert(ink(u) == x.coordinates.len() - h - 1);
        } else {
            assert(ink(u) == 0);
        }
        assert(ink(heads) == ink(erased_heads(d, point, eraser_size)) + h);
        assert(erased_tails(strokes, point, eraser_size) == erased_tails(d, point, eraser_size) + u);
        lemma_touched_first_hit(x, point, eraser_size);
        if any_touched(d, point, eraser_size) {
            let i = choose|i: int| 0 <= i < d.len() && touched(#[trigger] d[i], point, eraser_size);
            assert(strokes[i] == d[i]);
        }
        if any_touched(strokes, point, eraser_size) && !touched(x, point, eraser_size) {
            let i = choose|i: int| 0 <= i < strokes.len() && touched(#[trigger] strokes[i], point, eraser_size);
            assert(d[i] == strokes[i]);
        }
        if touched(x, point, eraser_size) {
            assert(any_touched(strokes, point, eraser_size)) by {
                assert(strokes[strokes.len() - 1] == x);
            }
        }
    }
}

/// The point eraser takes at least one point out of every stroke it
/// reaches: the points left on the canvas number at most those before, less
/// one per reached stroke. Cutting one stroke never spares another.
pub proof fn lemma_point_erase_cuts_every_reached_stroke(strokes: Seq<StrokeView>, point: (u16, u16), eraser_size: u16)
    ensures
        ink(erase_result(strokes, point, eraser_size)) + touched_count(strokes, point, eraser_size) <= ink(strokes),
        touched_count(strokes, point, eraser_size) > 0 <==> any_touched(strokes, point, eraser_size),
{
    let heads = erased_heads(strokes, point, eraser_size);
    let tails = erased_tails(strokes, point, eraser_size);
    lemma_ink_heads_tails(strokes, point, eraser_size);
    lemma_ink_add(heads, tails);
    lemma_ink_long(heads + tails);
}

/// A stroke of at least two points that the point eraser does not reach
/// stays on the canvas unchanged, whatever else the eraser cuts.
pub proof fn lemma_point_erase_spares_unreached_strokes(strokes: Seq<StrokeView>, point: (u16, u16), eraser_size: u16)
    ensures
        forall|i: int|
            0 <= i < strokes.len() && !touched(#[trigger] strokes[i], point, eraser_size)
                && strokes[i].coordinates.len() > 1 ==> erase_result(strokes, point, eraser_size).contains(strokes[i]),
{
    let heads = erased_heads(strokes, point, eraser_size);
    let tails = erased_tails(strokes, point, eraser_size);
    let all = heads + tails;
    lemma_long_strokes_identity(all);
    assert forall|i: int|
        0 <= i < strokes.len() && !touched(#[trigger] strokes[i], point, eraser_size)
            && strokes[i].coordinates.len() > 1 implies erase_result(strokes, point, eraser_size).contains(strokes[i]) by {
        let s = strokes[i];
        lemma_touched_first_hit(s, point, eraser_size);
        lemma_first_hit_from(s.coordinates, point, reach_of(s, eraser_size), 0);
        assert(s.coordinates.take(s.coordinates.len() as int) =~= s.coordinates);
        assert(heads[i] == s);
        assert(all[i] == s);
    }
}

/// Whether `x` is among the pieces the point eraser splits off some stroke
/// of `strokes`.
spec fn split_from_some(strokes: Seq<StrokeView>, x: StrokeView, point: (u16, u16), eraser_size: u16) -> bool {
    exists|i: int| 0 <= i < strokes.len() && #[trigger] erased_tail(strokes[i], point, eraser_size).contains(x)
}

/// The split-off pieces of the whole list are exactly those of its strokes,
/// each taken on its own.
proof fn lemma_tails_gather(strokes: Seq<StrokeView>, point: (u16, u16), eraser_size: u16)
    ensures
        forall|i: int, x: StrokeView|
            0 <= i < strokes.len() && #[trigger] erased_tail(strokes[i], point, eraser_size).contains(x)
                ==> erased_tails(strokes, point, eraser_size).contains(x),
        forall|k: int| 0 <= k < erased_tails(strokes, point, eraser_size).len() ==> split_from_some(
            strokes,
            #[trigger] erased_tails(strokes, point, eraser_size)[k],
            point,
            eraser_size,
        ),
    decreases strokes.len(),
{
    if strokes.len() == 0 {
        assert(erased_tails(strokes, point, eraser_size).len() == 0);
    } else {
        let d = strokes.drop_last();
        let t = erased_tails(d, point, eraser_size);
        let u = erased_tail(strokes.last(), point, eraser_size);
        lemma_tails_gather(d, point, eraser_size);
        assert(erased_tails(strokes, point, eraser_size) == t + u);
        assert forall|i: int, x: StrokeView|
            0 <= i < strokes.len() && #[trigger] erased_tail(strokes[i], point, eraser_size).contains(x)
                implies erased_tails(strokes, point, eraser_size).contains(x) by {
            if i < d.len() {
                assert(d[i] == strokes[i]);
                assert(erased_tail(d[i], point, eraser_size).contains(x));
                let k = choose|k: int| 0 <= k < t.len() && t[k] == x;
                assert((t + u)[k] == x);
            } else {
                let k = choose|k: int| 0 <= k < u.len() && u[k] == x;
                assert((t + u)[t.len() + k] == x);
            }
        }
        assert forall|k: int| 0 <= k < erased_tails(strokes, point, eraser_size).len() implies split_from_some(
            strokes,
            #[trigger] erased_tails(strokes, point, eraser_size)[k],
            point,
            eraser_size,
        ) by {
            if k < t.len() {
                assert(split_from_some(d, t[k], point, eraser_size));
                let i = choose|i: int| 0 <= i < d.len() && #[trigger] erased_tail(d[i], point, eraser_size).contains(t[k]);
                assert(d[i] == strokes[i]);
                assert((t + u)[k] == t[k]);
                assert(erased_tail(strokes[i], point, eraser_size).contains(erased_tails(strokes, point, eraser_size)[k]));
            } else {
                assert((t + u)[k] == u[k - t.len()]);
                assert(strokes[strokes.len() - 1] == strokes.last());
                assert(erased_tail(strokes[strokes.len() - 1], point, eraser_size).contains(
                    erased_tails(strokes, point, eraser_size)[k],
                ));
            }
        }
    }
}

/// The point eraser cuts every stroke it reaches at the first point it
/// reaches, whatever it does to the other strokes: if that point has at
/// least two points before it, those points stay on the canvas as a stroke
/// of the same size, colour and layer, and if at least two points follow it,
/// they stay on the canvas as such a stroke too.
pub proof fn lemma_point_erase_cuts_at_first_reached_point(
    strokes: Seq<StrokeView>,
    point: (u16, u16),
    eraser_size: u16,
    i: int,
    h: int,
)
    requires
        0 <= i < strokes.len(),
        0 <= h < strokes[i].coordinates.len(),
        within(strokes[i].coordinates[h], point, strokes[i].size + eraser_size),
        forall|j: int| 0 <= j < h ==> !within(#[trigger] strokes[i].coordinates[j], point, strokes[i].size + eraser_size),
    ensures
        h > 1 ==> erase_result(strokes, point, eraser_size).contains(
            StrokeView {
                size: strokes[i].size,
                color: strokes[i].color,
                layer: strokes[i].layer,
                coordinates: strokes[i].coordinates.take(h),
            },
        ),
        strokes[i].coordinates.len() - h > 2 ==> erase_result(strokes, point, eraser_size).contains(
            StrokeView {
                size: strokes[i].size,
                color: strokes[i].color,
                layer: strokes[i].layer,
                coordinates: strokes[i].coordinates.skip(h + 1),
            },
        ),
{
    let s = strokes[i];
    let heads = erased_heads(strokes, point, eraser_size);
    let tails = erased_tails(strokes, point, eraser_size);
    let all = heads + tails;
    lemma_first_hit_unique(s.coordinates, point, reach_of(s, eraser_size), h);
    lemma_long_strokes_identity(all);
    lemma_tails_gather(strokes, point, eraser_size);
    assert(all[i] == heads[i]);
    if h > 1 {
        assert(all[i].coordinates.len() > 1);
    }
    if s.coordinates.len() - h > 2 {
        let piece = StrokeView { size: s.size, color: s.color, layer: s.layer, coordinates: s.coordinates.skip(h + 1) };
        assert(erased_tail(s, point, eraser_size)[0] == piece);
        assert(erased_tail(strokes[i], point, eraser_size).contains(piece));
        let k = choose|k: int| 0 <= k < tails.len() && tails[k] == piece;
        assert(all[heads.len() + k] == piece);
    }
}

/// Erasing a list of strokes is erasing each stroke on its own: a stroke is
/// left by the point eraser on the whole canvas exactly when it is left by
/// the point eraser on one of the canvas's strokes alone.
pub proof fn lemma_point_erase_is_per_stroke(strokes: Seq<StrokeView>, point: (u16, u16), eraser_size: u16)
    ensures
        forall|i: int, x: StrokeView|
            0 <= i < strokes.len() && #[trigger] erase_result(seq![strokes[i]], point, eraser_size).contains(x)
                ==> erase_result(strokes, point, eraser_size).contains(x),
        forall|x: StrokeView|
            #[trigger] erase_result(strokes, point, eraser_size).contains(x) ==> exists|i: int|
                0 <= i < strokes.len() && #[trigger] erase_result(seq![strokes[i]], point, eraser_size).contains(x),
{
    let heads = erased_heads(strokes, point, eraser_size);
    let tails = erased_tails(strokes, point, eraser_size);
    let all = heads + tails;
    lemma_long_strokes_identity(all);
    lemma_tails_gather(strokes, point, eraser_size);
    assert forall|i: int, x: StrokeView|
        0 <= i < strokes.len() && #[trigger] erase_result(seq![strokes[i]], point, eraser_size).contains(x)
            implies erase_result(strokes, point, eraser_size).contains(x) by {
        let one = seq![strokes[i]];
        let one_all = erased_heads(one, point, eraser_size) + erased_tails(one, point, eraser_size);
        lemma_long_strokes_identity(one_all);
        assert(one.drop_last() =~= Seq::<StrokeView>::empty());
        assert(erased_tails(one.drop_last(), point, eraser_size) =~= Seq::<StrokeView>::empty());
        assert(one.last() == strokes[i]);
        assert(erased_tails(one, point, eraser_size) =~= erased_tail(strokes[i], point, eraser_size));
        let m = choose|m: int| 0 <= m < one_all.len() && one_all[m] == x;
        if m == 0 {
            assert(all[i] == x);
        } else {
            assert(erased_tail(strokes[i], point, eraser_size)[m - 1] == x);
            assert(erased_tail(strokes[i], point, eraser_size).contains(x));
            let k = choose|k: int| 0 <= k < tails.len() && tails[k] == x;
            assert(all[heads.len() + k] == x);
        }
        let n = choose|n: int| 0 <= n < erase_result(one, point, eraser_size).len()
            && erase_result(one, point, eraser_size)[n] == x;
        assert(x.coordinates.len() > 1);
    }
    assert forall|x: StrokeView| #[trigger] erase_result(strokes, point, eraser_size).contains(x) implies exists|i: int|
        0 <= i < strokes.len() && #[trigger] erase_result(seq![strokes[i]], point, eraser_size).contains(x) by {
        let n = choose|n: int| 0 <= n < erase_result(strokes, point, eraser_size).len()
            && erase_result(strokes, point, eraser_size)[n] == x;
        assert(x.coordinates.len() > 1);
        let m = choose|m: int| 0 <= m < all.len() && all[m] == x;
        let i = if m < heads.len() {
            m
        } else {
            assert(split_from_some(strokes, tails[m - heads.len()], point, eraser_size));
            choose|i: int| 0 <= i < strokes.len() && #[trigger] erased_tail(strokes[i], point, eraser_size).contains(
                tails[m - heads.len()],
            )
        };
        let one = seq![strokes[i]];
        let one_all = erased_heads(one, point, eraser_size) + erased_tails(one, point, eraser_size);
        lemma_long_strokes_identity(one_all);
        assert(one.drop_last() =~= Seq::<StrokeView>::empty());
        assert(erased_tails(one.drop_last(), point, eraser_size) =~= Seq::<StrokeView>::empty());
        assert(one.last() == strokes[i]);
        assert(erased_tails(one, point, eraser_size) =~= erased_tail(strokes[i], point, eraser_size));
        if m < heads.len() {
            assert(one_all[0] == x);
        } else {
            assert(all[m] == tails[m - heads.len()]);
            let k = choose|k: int| 0 <= k < erased_tail(strokes[i], point, eraser_size).len()
                && erased_tail(strokes[i], point, eraser_size)[k] == x;
            assert(one_all[1 + k] == x);
        }
        assert(erase_result(one, point, eraser_size).contains(x));
    }
}

} // verus!
