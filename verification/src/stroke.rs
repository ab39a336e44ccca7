//! Strokes on the shared canvas, and the tools that make or erase them.
use vstd::prelude::*;

verus! {

/// A colour as four channels, each the IEEE-754 bit pattern of a 32-bit
/// float in `0.0..=1.0` (red, green, blue, alpha). Colours are only carried,
/// copied and compared by the library, so their bits are what it keeps.
/// Two colours are equal (`==`, `same_color`) as their float channels are:
/// not by bit pattern, so `0.0` equals `-0.0` and a NaN channel equals
/// nothing, itself included.
#[derive(Clone, Copy, Debug)]
pub struct Rgba {
    pub r: u32,
    pub g: u32,
    pub b: u32,
    pub a: u32,
}

/// Whether the 32-bit float with bit pattern `bits` is a NaN: all exponent
/// bits set and a non-zero fraction.
pub open spec fn is_nan_bits(bits: u32) -> bool {
    bits & 0x7fff_ffffu32 > 0x7f80_0000u32
}

/// Whether the 32-bit floats with bit patterns `x` and `y` are equal under
/// IEEE-754 comparison: neither is a NaN, and they have the same bits or
/// are both zeros of either sign.
pub open spec fn float_bits_eq(x: u32, y: u32) -> bool {
    &&& !is_nan_bits(x)
    &&& !is_nan_bits(y)
    &&& (x == y || (x & 0x7fff_ffffu32 == 0 && y & 0x7fff_ffffu32 == 0))
}

/// Whether two colours are equal channel by channel, as floats.
pub open spec fn same_color(c: Rgba, d: Rgba) -> bool {
    &&& float_bits_eq(c.r, d.r)
    &&& float_bits_eq(c.g, d.g)
    &&& float_bits_eq(c.b, d.b)
    &&& float_bits_eq(c.a, d.a)
}

fn float_bits_equal(x: u32, y: u32) -> (res: bool)
    ensures
        res == float_bits_eq(x, y),
{
    (x & 0x7fff_ffffu32) <= 0x7f80_0000u32 && (y & 0x7fff_ffffu32) <= 0x7f80_0000u32 && (x == y || ((x
        & 0x7fff_ffffu32) == 0 && (y & 0x7fff_ffffu32) == 0))
}

impl PartialEq for Rgba {
    fn eq(&self, other: &Self) -> (res: bool) {
        float_bits_equal(self.r, other.r) && float_bits_equal(self.g, other.g) && float_bits_equal(
            self.b,
            other.b,
        ) && float_bits_equal(self.a, other.a)
    }
}

impl vstd::std_specs::cmp::PartialEqSpecImpl for Rgba {
    open spec fn obeys_eq_spec() -> bool {
        true
    }

    open spec fn eq_spec(&self, other: &Self) -> bool {
        same_color(*self, *other)
    }
}

/// The drawing tools.
#[derive(Clone, Copy, PartialEq, Eq, Structural, Debug)]
pub enum Tool {
    Pen,
    Eraser,
    StrokeEraser,
}

/// One stroke: a brush radius, a colour, a layer and the canvas points the
/// brush went through, in order.
pub struct Stroke {
    pub size: u16,
    pub color: Rgba,
    pub layer: i8,
    pub coordinates: Vec<(u16, u16)>,
}

/// What a stroke is, as a mathematical value.
pub struct StrokeView {
    pub size: u16,
    pub color: Rgba,
    pub layer: i8,
    pub coordinates: Seq<(u16, u16)>,
}

impl DeepView for Stroke {
    type V = StrokeView;

    open spec fn deep_view(&self) -> StrokeView {
        StrokeView {
            size: self.size,
            color: self.color,
            layer: self.layer,
            coordinates: self.coordinates@,
        }
    }
}

/// Copies a list of points.
pub fn copy_points(points: &Vec<(u16, u16)>) -> (res: Vec<(u16, u16)>)
    ensures
        res@ == points@,
{
    let mut res: Vec<(u16, u16)> = Vec::new();
    let mut i: usize = 0;
    while i < points.len()
        invariant
            i <= points.len(),
            res@ == points@.take(i as int),
        decreases points.len() - i,
    {
        res.push(points[i]);
        i += 1;
        assert(res@ =~= points@.take(i as int));
    }
    assert(points@.take(i as int) =~= points@);
    res
}

impl Stroke {
    /// A copy of the stroke.
    pub fn duplicate(&self) -> (res: Stroke)
        ensures
            res.deep_view() == self.deep_view(),
    {
        Stroke {
            size: self.size,
            color: self.color,
            layer: self.layer,
            coordinates: copy_points(&self.coordinates),
        }
    }
}

/// The mathematical value of a list of strokes.
pub open spec fn view_strokes(strokes: Seq<Stroke>) -> Seq<StrokeView> {
    strokes.map_values(|s: Stroke| s.deep_view())
}

/// Copies a list of strokes.
pub fn copy_strokes(strokes: &[Stroke]) -> (res: Vec<Stroke>)
    ensures
        view_strokes(res@) == view_strokes(strokes@),
{
    let mut res: Vec<Stroke> = Vec::new();
    let mut i: usize = 0;
    while i < strokes.len()
        invariant
            i <= strokes@.len(),
            res@.len() == i,
            forall|j: int| 0 <= j < i ==> (#[trigger] res@[j]).deep_view() == strokes@[j].deep_view(),
        decreases strokes@.len() - i,
    {
        res.push(strokes[i].duplicate());
        i += 1;
    }
    assert(view_strokes(res@) =~= view_strokes(strokes@));
    res
}

} // verus!
