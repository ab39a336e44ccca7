//! Undo and redo of whole canvas states, and the palette of recently used
//! colours.
use vstd::prelude::*;
use std::collections::HashMap;
use crate::stroke::{Rgba, Stroke, StrokeView, view_strokes, copy_strokes, same_color};

verus! {

/// How many undo steps are kept.
pub const MAX_UNDO_STEPS: usize = 50;

/// How many colours the palette always starts with.
pub const DEFAULT_PALETTE_LEN: usize = 4;

/// How many colours picked from the wheel the palette keeps beyond the
/// defaults.
pub const MAX_CUSTOM_PALETTE_COLORS: usize = 3;

/// The canvas states of an undo or redo stack, oldest first.
pub open spec fn view_history(stack: Seq<Vec<Stroke>>) -> Seq<Seq<StrokeView>> {
    stack.map_values(|v: Vec<Stroke>| view_strokes(v@))
}

/// The canvas with its undo and redo stacks.
pub struct History {
    pub undo: Seq<Seq<StrokeView>>,
    pub redo: Seq<Seq<StrokeView>>,
    pub strokes: Seq<StrokeView>,
    pub revision: u64,
}

/// The history that the variables hold.
pub open spec fn history_view(undo: Seq<Vec<Stroke>>, redo: Seq<Vec<Stroke>>, strokes: Seq<Stroke>, revision: u64) -> History {
    History { undo: view_history(undo), redo: view_history(redo), strokes: view_strokes(strokes), revision }
}

/// The undo stack once `strokes` is recorded on it: the oldest record is
/// dropped beyond `MAX_UNDO_STEPS`.
pub open spec fn pushed_undo(undo: Seq<Seq<StrokeView>>, strokes: Seq<StrokeView>) -> Seq<Seq<StrokeView>> {
    let grown = undo.push(strokes);
    if grown.len() > MAX_UNDO_STEPS { grown.drop_first() } else { grown }
}

/// The history once a new drawing action starts: the current canvas is
/// recorded for undo, and nothing is left to redo.
pub open spec fn push_spec(h: History) -> History {
    History { undo: pushed_undo(h.undo, h.strokes), redo: Seq::empty(), ..h }
}

/// The history after an undo: the last recorded canvas comes back and the
/// canvas it replaces can be redone; with nothing to undo, nothing changes.
pub open spec fn undo_spec(h: History) -> History {
    if h.undo.len() == 0 {
        h
    } else {
        History {
            undo: h.undo.drop_last(),
            redo: h.redo.push(h.strokes),
            strokes: h.undo.last(),
            revision: (h.revision + 1) as u64,
        }
    }
}

/// The history after a redo, the mirror of an undo.
pub open spec fn redo_spec(h: History) -> History {
    if h.redo.len() == 0 {
        h
    } else {
        History {
            undo: h.undo.push(h.strokes),
            redo: h.redo.drop_last(),
            strokes: h.redo.last(),
            revision: (h.revision + 1) as u64,
        }
    }
}

/// Records the canvas just before a new drawing action starts, so that undo
/// can bring it back, and clears what could be redone.
pub fn push_undo_snapshot(undo_stack: &mut Vec<Vec<Stroke>>, redo_stack: &mut Vec<Vec<Stroke>>, strokes: &[Stroke])
    ensures
        view_history(final(undo_stack)@) == pushed_undo(view_history(old(undo_stack)@), view_strokes(strokes@)),
        final(redo_stack)@.len() == 0,
{
    let ghost h = history_view(undo_stack@, redo_stack@, strokes@, 0);
    let copy = copy_strokes(strokes);
    undo_stack.push(copy);
    assert(view_history(undo_stack@) =~= h.undo.push(h.strokes));
    if undo_stack.len() > MAX_UNDO_STEPS {
        let ghost before = undo_stack@;
        undo_stack.remove(0);
        assert(view_history(undo_stack@) =~= view_history(before).drop_first());
    }
    redo_stack.clear();
}

/// Brings back the last recorded canvas, keeping the current one for redo,
/// and counts the change in `canvas_revision`. Returns whether there was
/// anything to undo; the caller then broadcasts the canvas to the lobby.
pub fn apply_undo(
    undo_stack: &mut Vec<Vec<Stroke>>,
    redo_stack: &mut Vec<Vec<Stroke>>,
    strokes: &mut Vec<Stroke>,
    canvas_revision: &mut u64,
) -> (done: bool)
    requires
        old(undo_stack)@.len() > 0 ==> *old(canvas_revision) < u64::MAX,
    ensures
        history_view(final(undo_stack)@, final(redo_stack)@, final(strokes)@, *final(canvas_revision)) == undo_spec(
            history_view(old(undo_stack)@, old(redo_stack)@, old(strokes)@, *old(canvas_revision)),
        ),
        done == (old(undo_stack)@.len() > 0),
{
    let ghost h = history_view(undo_stack@, redo_stack@, strokes@, *canvas_revision);
    match undo_stack.pop() {
        Some(previous) => {
            let mut replaced = previous;
            std::mem::swap(strokes, &mut replaced);
            redo_stack.push(replaced);
            *canvas_revision += 1;
            assert(view_history(undo_stack@) =~= h.undo.drop_last());
            assert(view_history(redo_stack@) =~= h.redo.push(h.strokes));
            true
        },
        None => false,
    }
}

/// Reapplies the canvas that the last undo replaced, keeping the current one
/// for undo, and counts the change in `canvas_revision`. Returns whether
/// there was anything to redo; the caller then broadcasts the canvas.
pub fn apply_redo(
    undo_stack: &mut Vec<Vec<Stroke>>,
    redo_stack: &mut Vec<Vec<Stroke>>,
    strokes: &mut Vec<Stroke>,
    canvas_revision: &mut u64,
) -> (done: bool)
    requires
        old(redo_stack)@.len() > 0 ==> *old(canvas_revision) < u64::MAX,
    ensures
        history_view(final(undo_stack)@, final(redo_stack)@, final(strokes)@, *final(canvas_revision)) == redo_spec(
            history_view(old(undo_stack)@, old(redo_stack)@, old(strokes)@, *old(canvas_revision)),
        ),
        done == (old(redo_stack)@.len() > 0),
{
    let ghost h = history_view(undo_stack@, redo_stack@, strokes@, *canvas_revision);
    match redo_stack.pop() {
        Some(next) => {
            let mut replaced = next;
            std::mem::swap(strokes, &mut replaced);
            undo_stack.push(replaced);
            *canvas_revision += 1;
            assert(view_history(redo_stack@) =~= h.redo.drop_last());
            assert(view_history(undo_stack@) =~= h.undo.push(h.strokes));
            true
        },
        None => false,
    }
}

/// Redo undoes an undo: after an undo and a redo the canvas and both stacks
/// are as they were, and the revision has counted two changes.
pub proof fn lemma_redo_reverts_undo(h: History)
    requires
        h.undo.len() > 0,
        h.revision + 2 <= u64::MAX,
    ensures
        redo_spec(undo_spec(h)) == (History { revision: (h.revision + 2) as u64, ..h }),
{
    assert(h.undo.drop_last().push(h.undo.last()) =~= h.undo);
    assert(h.redo.push(h.strokes).drop_last() =~= h.redo);
}

/// Undo undoes a redo, in the same way.
pub proof fn lemma_undo_reverts_redo(h: History)
    requires
        h.redo.len() > 0,
        h.revision + 2 <= u64::MAX,
    ensures
        undo_spec(redo_spec(h)) == (History { revision: (h.revision + 2) as u64, ..h }),
{
    assert(h.redo.drop_last().push(h.redo.last()) =~= h.redo);
    assert(h.undo.push(h.strokes).drop_last() =~= h.undo);
}

/// Undo right after a new action starts brings back the canvas as it was
/// when the action started, and then offers that action's canvas for redo.
pub proof fn lemma_undo_restores_snapshot(h: History)
    requires
        h.revision < u64::MAX,
    ensures
        undo_spec(push_spec(h)).strokes == h.strokes,
        undo_spec(push_spec(h)).redo == seq![h.strokes],
{
    let undo = h.undo.push(h.strokes);
    if undo.len() > MAX_UNDO_STEPS {
        assert(undo.drop_first().last() == h.strokes);
    }
    assert(Seq::<Seq<StrokeView>>::empty().push(h.strokes) =~= seq![h.strokes]);
}

/// At most `MAX_UNDO_STEPS` canvases are ever kept: a new action, an undo
/// and a redo all keep the two stacks together within the limit.
pub proof fn lemma_history_stays_bounded(h: History)
    requires
        h.undo.len() + h.redo.len() <= MAX_UNDO_STEPS,
    ensures
        push_spec(h).undo.len() + push_spec(h).redo.len() <= MAX_UNDO_STEPS,
        undo_spec(h).undo.len() + undo_spec(h).redo.len() <= MAX_UNDO_STEPS,
        redo_spec(h).undo.len() + redo_spec(h).redo.len() <= MAX_UNDO_STEPS,
{
}

/// Whether no two colours of `palette` are equal.
pub open spec fn no_repeats(palette: Seq<Rgba>) -> bool {
    forall|i: int, j: int| 0 <= i < j < palette.len() ==> !same_color(palette[i], palette[j])
}

/// Whether `palette` holds a colour equal to `color` (as floats, see `Rgba`).
pub open spec fn holds_color(palette: Seq<Rgba>, color: Rgba) -> bool {
    exists|i: int| 0 <= i < palette.len() && same_color(#[trigger] palette[i], color)
}

/// The palette after `color` was picked: unchanged if it already holds an
/// equal colour; otherwise the colour is appended, and the oldest colour
/// after the defaults goes when more than `MAX_CUSTOM_PALETTE_COLORS` follow
/// them.
pub open spec fn remember_spec(palette: Seq<Rgba>, color: Rgba) -> Seq<Rgba> {
    if holds_color(palette, color) {
        palette
    } else {
        let grown = palette.push(color);
        if grown.len() > DEFAULT_PALETTE_LEN + MAX_CUSTOM_PALETTE_COLORS {
            grown.remove(DEFAULT_PALETTE_LEN as int)
        } else {
            grown
        }
    }
}

/// Adds a freshly picked colour to the palette, as `remember_spec` says.
/// Colours compare as their float channels do (`Rgba`'s `==`), not by bit
/// pattern.
pub fn remember_color(palette: &mut Vec<Rgba>, color: Rgba)
    ensures
        final(palette)@ == remember_spec(old(palette)@, color),
{
    let mut i: usize = 0;
    while i < palette.len()
        invariant
            i <= palette@.len(),
            forall|j: int| 0 <= j < i ==> !same_color(#[trigger] palette@[j], color),
        decreases palette@.len() - i,
    {
        if palette[i] == color {
            return;
        }
        i += 1;
    }
    palette.push(color);
    if palette.len() > DEFAULT_PALETTE_LEN + MAX_CUSTOM_PALETTE_COLORS {
        palette.remove(DEFAULT_PALETTE_LEN);
    }
}

/// Picking colours keeps the defaults in front, never adds a colour equal to
/// one already there, never lets more than `MAX_CUSTOM_PALETTE_COLORS`
/// follow the defaults, and leaves the picked colour, or one equal to it, in
/// the palette.
pub proof fn lemma_palette_laws(palette: Seq<Rgba>, color: Rgba)
    requires
        palette.len() >= DEFAULT_PALETTE_LEN,
        palette.len() <= DEFAULT_PALETTE_LEN + MAX_CUSTOM_PALETTE_COLORS,
        no_repeats(palette),
    ensures
        remember_spec(palette, color).take(DEFAULT_PALETTE_LEN as int) == palette.take(DEFAULT_PALETTE_LEN as int),
        remember_spec(palette, color).len() <= DEFAULT_PALETTE_LEN + MAX_CUSTOM_PALETTE_COLORS,
        no_repeats(remember_spec(palette, color)),
        remember_spec(palette, color).contains(color) || holds_color(remember_spec(palette, color), color),
{
    let r = remember_spec(palette, color);
    if !holds_color(palette, color) {
        let grown = palette.push(color);
        assert(grown[palette.len() as int] == color);
        if grown.len() > DEFAULT_PALETTE_LEN + MAX_CUSTOM_PALETTE_COLORS {
            assert(r[r.len() - 1] == color);
        } else {
            assert(r[palette.len() as int] == color);
        }
        assert(r.take(DEFAULT_PALETTE_LEN as int) =~= palette.take(DEFAULT_PALETTE_LEN as int));
        assert forall|i: int, j: int| 0 <= i < j < r.len() implies !same_color(r[i], r[j]) by {
            if grown.len() > DEFAULT_PALETTE_LEN + MAX_CUSTOM_PALETTE_COLORS {
                let gi = if i < DEFAULT_PALETTE_LEN { i } else { i + 1 };
                let gj = if j < DEFAULT_PALETTE_LEN { j } else { j + 1 };
                assert(r[i] == grown[gi] && r[j] == grown[gj]);
                if gj == palette.len() {
                    assert(palette[gi] == grown[gi]);
                    if same_color(palette[gi], color) {
                        assert(holds_color(palette, color));
                    }
                }
            } else {
                if j == palette.len() {
                    assert(palette[i] == r[i]);
                    if same_color(palette[i], color) {
                        assert(holds_color(palette, color));
                    }
                }
            }
        }
    }
}

/// The undo the player asks for (Ctrl+Z or the toolbar): `apply_undo`, after
/// which no stroke is in progress any more, locally or for any peer, whether
/// or not anything was undone. Returns whether something was undone.
pub fn undo_frame(
    undo_stack: &mut Vec<Vec<Stroke>>,
    redo_stack: &mut Vec<Vec<Stroke>>,
    strokes: &mut Vec<Stroke>,
    canvas_revision: &mut u64,
    local_stroke_idx: &mut Option<usize>,
    peer_current_stroke: &mut HashMap<u128, usize>,
) -> (done: bool)
    requires
        old(undo_stack)@.len() > 0 ==> *old(canvas_revision) < u64::MAX,
    ensures
        history_view(final(undo_stack)@, final(redo_stack)@, final(strokes)@, *final(canvas_revision)) == undo_spec(
            history_view(old(undo_stack)@, old(redo_stack)@, old(strokes)@, *old(canvas_revision)),
        ),
        done == (old(undo_stack)@.len() > 0),
        *final(local_stroke_idx) == None::<usize>,
        final(peer_current_stroke)@ == Map::<u128, usize>::empty(),
{
    let done = apply_undo(undo_stack, redo_stack, strokes, canvas_revision);
    *local_stroke_idx = None;
    peer_current_stroke.clear();
    done
}

/// The redo the player asks for (Ctrl+Y or the toolbar): `apply_redo`, after
/// which no stroke is in progress any more, locally or for any peer. Returns
/// whether something was redone.
pub fn redo_frame(
    undo_stack: &mut Vec<Vec<Stroke>>,
    redo_stack: &mut Vec<Vec<Stroke>>,
    strokes: &mut Vec<Stroke>,
    canvas_revision: &mut u64,
    local_stroke_idx: &mut Option<usize>,
    peer_current_stroke: &mut HashMap<u128, usize>,
) -> (done: bool)
    requires
        old(redo_stack)@.len() > 0 ==> *old(canvas_revision) < u64::MAX,
    ensures
        history_view(final(undo_stack)@, final(redo_stack)@, final(strokes)@, *final(canvas_revision)) == redo_spec(
            history_view(old(undo_stack)@, old(redo_stack)@, old(strokes)@, *old(canvas_revision)),
        ),
        done == (old(redo_stack)@.len() > 0),
        *final(local_stroke_idx) == None::<usize>,
        final(peer_current_stroke)@ == Map::<u128, usize>::empty(),
{
    let done = apply_redo(undo_stack, redo_stack, strokes, canvas_revision);
    *local_stroke_idx = None;
    peer_current_stroke.clear();
    done
}

} // verus!
