//! What the pointer and the size keys do to the canvas with each tool.
use vstd::prelude::*;
use std::collections::HashMap;
use crate::stroke::{Rgba, Stroke, StrokeView, Tool, view_strokes};
use crate::erase::{erase_at, stroke_erase_at, erase_result, untouched_strokes, any_touched, reaches_fit};
use crate::network::{NetworkPacket, DrawPacket, ErasePacket, StrokeErasePacket, SyncState, apply_spec, packet_ok, PeerCursor};

verus! {

/// The state of the left mouse button in one frame, and where the pointer
/// is on the canvas.
#[derive(Clone, Copy)]
pub struct PointerInput {
    pub point: (u16, u16),
    /// The button went down this frame.
    pub pressed: bool,
    /// The button is held.
    pub down: bool,
}

/// The layer every new stroke is drawn on.
pub const STROKE_LAYER: i8 = 1;

/// The announcement of a pen step.
pub open spec fn draw_packet(point: (u16, u16), new_stroke: Option<(u16, Rgba)>) -> NetworkPacket {
    match new_stroke {
        Some((radius, color)) => NetworkPacket::Draw(DrawPacket {
            point,
            is_new_stroke: true,
            size: Some(radius),
            color: Some(color),
            layer: Some(STROKE_LAYER),
        }),
        None => NetworkPacket::Draw(DrawPacket { point, is_new_stroke: false, size: None, color: None, layer: None }),
    }
}

/// The local canvas state one frame of a tool acts on, and the packet it
/// announces to the peers.
pub struct ToolStep {
    pub strokes: Seq<StrokeView>,
    /// The index of the local player's stroke in progress, if any.
    pub local_stroke: Option<usize>,
    /// For each peer, the index of the stroke it is drawing.
    pub peer_strokes: Map<u128, usize>,
    pub sent: Option<NetworkPacket>,
}

/// What the pen does in one frame. A press starts a new stroke at the
/// pointer, which becomes the local stroke in progress. Holding the button
/// extends the local stroke in progress, wherever it is in the list (peers'
/// strokes may have been appended after it), if it is still on the canvas.
/// Both steps are announced to the peers.
pub open spec fn pen_spec(
    strokes: Seq<StrokeView>,
    local_stroke: Option<usize>,
    peer_strokes: Map<u128, usize>,
    pointer: PointerInput,
    radius: u16,
    color: Rgba,
) -> ToolStep {
    if pointer.pressed {
        ToolStep {
            strokes: strokes.push(StrokeView { size: radius, color, layer: STROKE_LAYER, coordinates: seq![pointer.point] }),
            local_stroke: Some(strokes.len() as usize),
            peer_strokes,
            sent: Some(draw_packet(pointer.point, Some((radius, color)))),
        }
    } else if pointer.down {
        ToolStep {
            strokes: match local_stroke {
                Some(idx) => if idx < strokes.len() {
                    let s = strokes[idx as int];
                    strokes.update(idx as int, StrokeView { coordinates: s.coordinates.push(pointer.point), ..s })
                } else {
                    strokes
                },
                None => strokes,
            },
            local_stroke,
            peer_strokes,
            sent: Some(draw_packet(pointer.point, None)),
        }
    } else {
        ToolStep { strokes, local_stroke, peer_strokes, sent: None }
    }
}

/// What an eraser does in one frame: while the button is held it erases at
/// the pointer; when it reached something, it is announced to the peers and
/// no stroke is in progress any more, locally or for any peer, as on every
/// peer that replays it.
pub open spec fn eraser_spec(
    strokes: Seq<StrokeView>,
    local_stroke: Option<usize>,
    peer_strokes: Map<u128, usize>,
    pointer: PointerInput,
    erased: Seq<StrokeView>,
    packet: NetworkPacket,
    eraser_size: u16,
) -> ToolStep {
    if !pointer.down {
        ToolStep { strokes, local_stroke, peer_strokes, sent: None }
    } else if any_touched(strokes, pointer.point, eraser_size) {
        ToolStep { strokes: erased, local_stroke: None, peer_strokes: Map::empty(), sent: Some(packet) }
    } else {
        ToolStep { strokes: erased, local_stroke, peer_strokes, sent: None }
    }
}

/// What `tool` does in one frame.
pub open spec fn tool_spec(
    strokes: Seq<StrokeView>,
    local_stroke: Option<usize>,
    peer_strokes: Map<u128, usize>,
    pointer: PointerInput,
    radius: u16,
    eraser_size: u16,
    tool: Tool,
    color: Rgba,
) -> ToolStep {
    match tool {
        Tool::Pen => pen_spec(strokes, local_stroke, peer_strokes, pointer, radius, color),
        Tool::Eraser => eraser_spec(
            strokes,
            local_stroke,
            peer_strokes,
            pointer,
            erase_result(strokes, pointer.point, eraser_size),
            NetworkPacket::Erase(ErasePacket { point: pointer.point, size: eraser_size }),
            eraser_size,
        ),
        Tool::StrokeEraser => eraser_spec(
            strokes,
            local_stroke,
            peer_strokes,
            pointer,
            untouched_strokes(strokes, pointer.point, eraser_size),
            NetworkPacket::StrokeErase(StrokeErasePacket { point: pointer.point, size: eraser_size }),
            eraser_size,
        ),
    }
}

/// Applies `current_tool` for one frame of pointer input, as `tool_spec`
/// describes, and returns the packet to broadcast, if the canvas changed in
/// a way peers must hear of.
pub fn handle_tool(
    strokes: &mut Vec<Stroke>,
    local_stroke_idx: &mut Option<usize>,
    peer_current_stroke: &mut HashMap<u128, usize>,
    pointer: PointerInput,
    radius: u16,
    eraser_size: u16,
    current_tool: Tool,
    color: Rgba,
) -> (sent: Option<NetworkPacket>)
    requires
        current_tool != Tool::Pen && pointer.down ==> reaches_fit(view_strokes(old(strokes)@), eraser_size),
    ensures
        (ToolStep {
            strokes: view_strokes(final(strokes)@),
            local_stroke: *final(local_stroke_idx),
            peer_strokes: final(peer_current_stroke)@,
            sent,
        }) == tool_spec(
            view_strokes(old(strokes)@),
            *old(local_stroke_idx),
            old(peer_current_stroke)@,
            pointer,
            radius,
            eraser_size,
            current_tool,
            color,
        ),
{
    match current_tool {
        Tool::Pen => pen_drawing(strokes, local_stroke_idx, pointer, radius, color),
        Tool::Eraser => {
            if !pointer.down {
                return None;
            }
            if erase_at(strokes, pointer.point, eraser_size) {
                peer_current_stroke.clear();
                *local_stroke_idx = None;
                Some(NetworkPacket::Erase(ErasePacket { point: pointer.point, size: eraser_size }))
            } else {
                None
            }
        },
        Tool::StrokeEraser => {
            if !pointer.down {
                return None;
            }
            if stroke_erase_at(strokes, pointer.point, eraser_size) {
                peer_current_stroke.clear();
                *local_stroke_idx = None;
                Some(NetworkPacket::StrokeErase(StrokeErasePacket { point: pointer.point, size: eraser_size }))
            } else {
                None
            }
        },
    }
}

fn pen_drawing(
    strokes: &mut Vec<Stroke>,
    local_stroke_idx: &mut Option<usize>,
    pointer: PointerInput,
    radius: u16,
    color: Rgba,
) -> (sent: Option<NetworkPacket>)
    ensures
        ({
            let step = pen_spec(view_strokes(old(strokes)@), *old(local_stroke_idx), Map::empty(), pointer, radius, color);
            &&& view_strokes(final(strokes)@) == step.strokes
            &&& *final(local_stroke_idx) == step.local_stroke
            &&& sent == step.sent
        }),
{
    let ghost before = view_strokes(strokes@);
    if pointer.pressed {
        let mut coordinates: Vec<(u16, u16)> = Vec::new();
        coordinates.push(pointer.point);
        strokes.push(Stroke { size: radius, color, layer: STROKE_LAYER, coordinates });
        *local_stroke_idx = Some(strokes.len() - 1);
        assert(view_strokes(strokes@) =~= before.push(
            StrokeView { size: radius, color, layer: STROKE_LAYER, coordinates: seq![pointer.point] },
        ));
        Some(NetworkPacket::Draw(DrawPacket {
            point: pointer.point,
            is_new_stroke: true,
            size: Some(radius),
            color: Some(color),
            layer: Some(STROKE_LAYER),
        }))
    } else if pointer.down {
        if let Some(idx) = *local_stroke_idx {
            if idx < strokes.len() {
                strokes[idx].coordinates.push(pointer.point);
                assert(view_strokes(strokes@) =~= before.update(
                    idx as int,
                    StrokeView { coordinates: before[idx as int].coordinates.push(pointer.point), ..before[idx as int] },
                ));
            }
        }
        Some(NetworkPacket::Draw(DrawPacket {
            point: pointer.point,
            is_new_stroke: false,
            size: None,
            color: None,
            layer: None,
        }))
    } else {
        None
    }
}

/// One frame of the size keys on a size: Up grows it by one, then Down
/// shrinks it by one unless that would take it below one.
pub open spec fn size_step(size: u16, up: bool, down: bool) -> int {
    let grown = if up { size + 1 } else { size as int };
    if down && grown > 1 { grown - 1 } else { grown }
}

/// Changes the size of the current tool's brush with the Up and Down keys:
/// the pen's radius for the pen, the eraser's size for both erasers.
pub fn change_tool_size(tool: Tool, up: bool, down: bool, pen_size: &mut u16, eraser_size: &mut u16)
    requires
        up && tool == Tool::Pen ==> *old(pen_size) < u16::MAX,
        up && tool != Tool::Pen ==> *old(eraser_size) < u16::MAX,
    ensures
        tool == Tool::Pen ==> *final(pen_size) == size_step(*old(pen_size), up, down) && *final(eraser_size) == *old(eraser_size),
        tool != Tool::Pen ==> *final(eraser_size) == size_step(*old(eraser_size), up, down) && *final(pen_size) == *old(pen_size),
{
    if tool == Tool::Pen {
        if up {
            *pen_size += 1;
        }
        if down {
            if *pen_size > 1 {
                *pen_size -= 1;
            }
        }
    }
    if tool == Tool::Eraser || tool == Tool::StrokeEraser {
        if up {
            *eraser_size += 1;
        }
        if down {
            if *eraser_size > 1 {
                *eraser_size -= 1;
            }
        }
    }
}

/// The size keys never take a size below one: Up alone grows it by one, and
/// Down alone shrinks it by one but leaves a size of one as it is.
pub proof fn lemma_sizes_stay_positive(size: u16, up: bool, down: bool)
    requires
        size >= 1,
    ensures
        size_step(size, up, down) >= 1,
        up && !down ==> size_step(size, up, down) == size + 1,
        down && !up ==> size_step(size, up, down) == if size > 1 { size - 1 } else { 1 },
{
}

/// The tool a typed key selects: D the pen, E the eraser, R the stroke
/// eraser; other keys select none.
pub fn tool_for_key(key: char) -> (tool: Option<Tool>)
    ensures
        tool == (if key == 'd' {
            Some(Tool::Pen)
        } else if key == 'e' {
            Some(Tool::Eraser)
        } else if key == 'r' {
            Some(Tool::StrokeEraser)
        } else {
            None
        }),
{
    match key {
        'd' => Some(Tool::Pen),
        'e' => Some(Tool::Eraser),
        'r' => Some(Tool::StrokeEraser),
        _ => None,
    }
}

/// The local stroke in progress survives peers' strokes: when a peer starts
/// a stroke between the press that starts the local stroke and the next
/// frame the button is held, the held point still extends the local stroke,
/// and the peer's stroke is left as it arrived.
pub proof fn lemma_local_stroke_survives_peer_strokes(
    strokes: Seq<StrokeView>,
    local_stroke: Option<usize>,
    peer_strokes: Map<u128, usize>,
    revision: u64,
    background: Rgba,
    cursors: Map<u128, PeerCursor>,
    peer: u128,
    peer_draw: DrawPacket,
    press: PointerInput,
    hold: PointerInput,
    radius: u16,
    color: Rgba,
)
    requires
        press.pressed,
        !hold.pressed,
        hold.down,
        peer_draw.is_new_stroke,
        strokes.len() + 2 < usize::MAX,
        packet_ok(
            (SyncState {
                strokes: pen_spec(strokes, local_stroke, peer_strokes, press, radius, color).strokes,
                peer_strokes,
                revision,
                background,
                local_stroke: pen_spec(strokes, local_stroke, peer_strokes, press, radius, color).local_stroke,
                cursors,
            }),
            peer,
            NetworkPacket::Draw(peer_draw),
        ),
    ensures
        ({
            let a = pen_spec(strokes, local_stroke, peer_strokes, press, radius, color);
            let s1 = SyncState {
                strokes: a.strokes,
                peer_strokes,
                revision,
                background,
                local_stroke: a.local_stroke,
                cursors,
            };
            let s2 = apply_spec(s1, peer, NetworkPacket::Draw(peer_draw));
            let b = pen_spec(s2.strokes, s2.local_stroke, s2.peer_strokes, hold, radius, color);
            &&& b.strokes.len() == strokes.len() + 2
            &&& b.strokes.take(strokes.len() as int) == strokes
            &&& b.strokes[strokes.len() as int].coordinates == seq![press.point, hold.point]
            &&& b.strokes[strokes.len() + 1int] == s2.strokes[strokes.len() + 1int]
            &&& b.strokes[strokes.len() + 1int].coordinates == seq![peer_draw.point]
        }),
{
    let a = pen_spec(strokes, local_stroke, peer_strokes, press, radius, color);
    let s1 = SyncState { strokes: a.strokes, peer_strokes, revision, background, local_stroke: a.local_stroke, cursors };
    let s2 = apply_spec(s1, peer, NetworkPacket::Draw(peer_draw));
    let b = pen_spec(s2.strokes, s2.local_stroke, s2.peer_strokes, hold, radius, color);
    assert(s2.local_stroke == Some(strokes.len() as usize));
    assert(b.strokes.take(strokes.len() as int) =~= strokes);
    assert(b.strokes[strokes.len() as int].coordinates =~= seq![press.point, hold.point]);
}

/// An eraser frame leaves the local canvas as every peer leaves it by
/// replaying the packet the frame announces: with the point eraser held, the
/// strokes are those that taking in an erase packet at the pointer gives,
/// and with the stroke eraser those that a stroke-erase packet gives. The
/// frame announces its packet exactly when replaying it counts a change,
/// and then no stroke is in progress, as on the peers.
pub proof fn lemma_eraser_frame_matches_replay(
    strokes: Seq<StrokeView>,
    local_stroke: Option<usize>,
    peer_strokes: Map<u128, usize>,
    revision: u64,
    background: Rgba,
    cursors: Map<u128, PeerCursor>,
    peer: u128,
    pointer: PointerInput,
    radius: u16,
    eraser_size: u16,
    color: Rgba,
)
    requires
        pointer.down,
        revision < u64::MAX,
    ensures
        ({
            let s = SyncState { strokes, peer_strokes, revision, background, local_stroke, cursors };
            let packet = NetworkPacket::Erase(ErasePacket { point: pointer.point, size: eraser_size });
            let step = tool_spec(strokes, local_stroke, peer_strokes, pointer, radius, eraser_size, Tool::Eraser, color);
            let replay = apply_spec(s, peer, packet);
            &&& step.strokes == replay.strokes
            &&& (step.sent is Some <==> replay.revision != revision)
            &&& step.sent is Some ==> step.sent == Some(packet) && step.local_stroke == replay.local_stroke
                && step.peer_strokes == replay.peer_strokes
        }),
        ({
            let s = SyncState { strokes, peer_strokes, revision, background, local_stroke, cursors };
            let packet = NetworkPacket::StrokeErase(StrokeErasePacket { point: pointer.point, size: eraser_size });
            let step = tool_spec(strokes, local_stroke, peer_strokes, pointer, radius, eraser_size, Tool::StrokeEraser, color);
            let replay = apply_spec(s, peer, packet);
            &&& step.strokes == replay.strokes
            &&& (step.sent is Some <==> replay.revision != revision)
            &&& step.sent is Some ==> step.sent == Some(packet) && step.local_stroke == replay.local_stroke
                && step.peer_strokes == replay.peer_strokes
        }),
{
}

/// One frame of the current tool as the canvas counts it: `handle_tool`,
/// and one more change on `canvas_revision` whenever the frame announced
/// something to the peers.
pub fn tool_frame(
    strokes: &mut Vec<Stroke>,
    local_stroke_idx: &mut Option<usize>,
    peer_current_stroke: &mut HashMap<u128, usize>,
    canvas_revision: &mut u64,
    pointer: PointerInput,
    radius: u16,
    eraser_size: u16,
    current_tool: Tool,
    color: Rgba,
) -> (sent: Option<NetworkPacket>)
    requires
        current_tool != Tool::Pen && pointer.down ==> reaches_fit(view_strokes(old(strokes)@), eraser_size),
        tool_spec(
            view_strokes(old(strokes)@),
            *old(local_stroke_idx),
            old(peer_current_stroke)@,
            pointer,
            radius,
            eraser_size,
            current_tool,
            color,
        ).sent is Some ==> *old(canvas_revision) < u64::MAX,
    ensures
        (ToolStep {
            strokes: view_strokes(final(strokes)@),
            local_stroke: *final(local_stroke_idx),
            peer_strokes: final(peer_current_stroke)@,
            sent,
        }) == tool_spec(
            view_strokes(old(strokes)@),
            *old(local_stroke_idx),
            old(peer_current_stroke)@,
            pointer,
            radius,
            eraser_size,
            current_tool,
            color,
        ),
        *final(canvas_revision) == if sent is Some { *old(canvas_revision) + 1 } else { *old(canvas_revision) as int },
{
    let sent = handle_tool(strokes, local_stroke_idx, peer_current_stroke, pointer, radius, eraser_size, current_tool, color);
    if sent.is_some() {
        *canvas_revision += 1;
    }
    sent
}

} // verus!
