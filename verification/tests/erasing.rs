use std::collections::HashMap;

use os_paint::erase::{erase_at, stroke_erase_at};
use os_paint::input::{change_tool_size, handle_tool, tool_for_key, tool_frame, PointerInput};
use os_paint::network::NetworkPacket;
use os_paint::stroke::{Rgba, Stroke, Tool};

const WHITE: Rgba = Rgba { r: 0x3F80_0000, g: 0x3F80_0000, b: 0x3F80_0000, a: 0x3F80_0000 };
const RED: Rgba = Rgba { r: 0x3F66_6666, g: 0x3E23_D70A, b: 0x3E61_47AE, a: 0x3F80_0000 };

fn stroke(size: u16, points: &[(u16, u16)]) -> Stroke {
    Stroke { size, color: WHITE, layer: 1, coordinates: points.to_vec() }
}

fn points(strokes: &[Stroke]) -> Vec<Vec<(u16, u16)>> {
    strokes.iter().map(|s| s.coordinates.clone()).collect()
}

#[test]
fn erase_cuts_stroke_at_first_reached_point() {
    let mut strokes = vec![stroke(2, &[(0, 0), (10, 0), (20, 0), (30, 0), (40, 0)])];
    assert!(erase_at(&mut strokes, (20, 0), 3));
    assert_eq!(points(&strokes), vec![vec![(0, 0), (10, 0)], vec![(30, 0), (40, 0)]]);
    assert_eq!(strokes[1].size, 2);
    assert_eq!(strokes[1].color, WHITE);
    assert_eq!(strokes[1].layer, 1);
}

#[test]
fn erase_keeps_later_points_of_a_cut_stroke() {
    // Only the first point in reach is cut; later ones stay until the next erase.
    let mut strokes = vec![stroke(1, &[(0, 0), (100, 0), (0, 1), (100, 0)])];
    assert!(erase_at(&mut strokes, (0, 0), 1));
    assert_eq!(points(&strokes), vec![vec![(100, 0), (0, 1), (100, 0)]]);
}

#[test]
fn erase_reach_is_strict_euclidean_distance() {
    // (20, 0) to (25, 0) is exactly 5 = 2 + 3: not reached.
    let mut strokes = vec![stroke(2, &[(20, 0), (40, 0)])];
    assert!(!erase_at(&mut strokes, (25, 0), 3));
    assert_eq!(points(&strokes), vec![vec![(20, 0), (40, 0)]]);
    assert!(erase_at(&mut strokes, (24, 0), 3));
    assert_eq!(points(&strokes), Vec::<Vec<(u16, u16)>>::new());
    // (0, 0) to (3, 4) is 5 on the diagonal.
    let mut strokes = vec![stroke(2, &[(0, 0), (9, 9), (9, 10)])];
    assert!(!erase_at(&mut strokes, (3, 4), 3));
    assert!(erase_at(&mut strokes, (3, 4), 4));
    assert_eq!(points(&strokes), vec![vec![(9, 9), (9, 10)]]);
}

#[test]
fn erase_drops_single_point_strokes_even_when_nothing_is_reached() {
    let mut strokes = vec![stroke(5, &[(500, 500)]), stroke(5, &[(0, 0), (1, 1)]), stroke(5, &[])];
    assert!(!erase_at(&mut strokes, (300, 300), 1));
    assert_eq!(points(&strokes), vec![vec![(0, 0), (1, 1)]]);
}

#[test]
fn erase_appends_pieces_after_all_strokes() {
    let mut strokes = vec![
        stroke(1, &[(0, 0), (5, 5), (10, 10), (11, 11), (12, 12)]),
        stroke(1, &[(100, 100), (101, 101)]),
    ];
    assert!(erase_at(&mut strokes, (5, 5), 1));
    assert_eq!(
        points(&strokes),
        vec![vec![(100, 100), (101, 101)], vec![(10, 10), (11, 11), (12, 12)]],
    );
}

#[test]
fn stroke_erase_removes_whole_strokes_in_reach() {
    let mut strokes = vec![
        stroke(3, &[(0, 0), (50, 50)]),
        stroke(3, &[(200, 200), (210, 210)]),
        stroke(1, &[(60, 50), (70, 50)]),
    ];
    assert!(stroke_erase_at(&mut strokes, (52, 50), 2));
    assert_eq!(points(&strokes), vec![vec![(200, 200), (210, 210)], vec![(60, 50), (70, 50)]]);
    assert!(!stroke_erase_at(&mut strokes, (52, 50), 2));
    assert!(stroke_erase_at(&mut strokes, (58, 50), 2));
    assert_eq!(points(&strokes), vec![vec![(200, 200), (210, 210)]]);
}

#[test]
fn stroke_erase_keeps_single_point_strokes_out_of_reach() {
    let mut strokes = vec![stroke(1, &[(9, 9)])];
    assert!(!stroke_erase_at(&mut strokes, (0, 0), 1));
    assert_eq!(points(&strokes), vec![vec![(9, 9)]]);
}

struct Local {
    strokes: Vec<Stroke>,
    local: Option<usize>,
    peers: HashMap<u128, usize>,
}

impl Local {
    fn new(strokes: Vec<Stroke>) -> Local {
        Local { strokes, local: None, peers: HashMap::new() }
    }

    fn tool(&mut self, pointer: PointerInput, radius: u16, eraser_size: u16, tool: Tool, color: Rgba) -> Option<NetworkPacket> {
        handle_tool(&mut self.strokes, &mut self.local, &mut self.peers, pointer, radius, eraser_size, tool, color)
    }
}

#[test]
fn pen_press_starts_a_stroke_and_hold_extends_it() {
    let mut l = Local::new(Vec::new());
    let sent = l.tool(PointerInput { point: (7, 8), pressed: true, down: true }, 5, 25, Tool::Pen, RED);
    assert!(matches!(
        sent,
        Some(NetworkPacket::Draw(ref d)) if d.point == (7, 8) && d.is_new_stroke
            && d.size == Some(5) && d.color == Some(RED) && d.layer == Some(1)
    ));
    assert_eq!(l.strokes.len(), 1);
    assert_eq!(l.strokes[0].size, 5);
    assert_eq!(l.strokes[0].color, RED);
    assert_eq!(l.local, Some(0));
    let sent = l.tool(PointerInput { point: (9, 9), pressed: false, down: true }, 5, 25, Tool::Pen, RED);
    assert!(matches!(
        sent,
        Some(NetworkPacket::Draw(ref d)) if d.point == (9, 9) && !d.is_new_stroke
            && d.size.is_none() && d.color.is_none() && d.layer.is_none()
    ));
    assert_eq!(points(&l.strokes), vec![vec![(7, 8), (9, 9)]]);
    let sent = l.tool(PointerInput { point: (1, 1), pressed: false, down: false }, 5, 25, Tool::Pen, RED);
    assert!(sent.is_none());
    assert_eq!(points(&l.strokes), vec![vec![(7, 8), (9, 9)]]);
}

#[test]
fn pen_hold_extends_the_local_stroke_past_peer_strokes() {
    let mut l = Local::new(vec![stroke(1, &[(0, 0), (1, 1)])]);
    l.tool(PointerInput { point: (7, 8), pressed: true, down: true }, 5, 25, Tool::Pen, RED);
    // A peer's stroke arrives after the local one.
    l.strokes.push(stroke(2, &[(100, 100)]));
    l.peers.insert(42, 2);
    l.tool(PointerInput { point: (9, 9), pressed: false, down: true }, 5, 25, Tool::Pen, RED);
    assert_eq!(points(&l.strokes), vec![vec![(0, 0), (1, 1)], vec![(7, 8), (9, 9)], vec![(100, 100)]]);
    assert_eq!(l.peers.get(&42), Some(&2));
}

#[test]
fn pen_hold_without_a_stroke_still_announces_the_point() {
    let mut l = Local::new(vec![stroke(1, &[(0, 0), (1, 1)])]);
    let sent = l.tool(PointerInput { point: (3, 3), pressed: false, down: true }, 5, 25, Tool::Pen, WHITE);
    assert!(matches!(sent, Some(NetworkPacket::Draw(ref d)) if !d.is_new_stroke));
    assert_eq!(points(&l.strokes), vec![vec![(0, 0), (1, 1)]]);
}

#[test]
fn erasers_announce_only_what_they_reached() {
    let mut l = Local::new(vec![stroke(2, &[(0, 0), (10, 0), (20, 0)])]);
    l.local = Some(0);
    l.peers.insert(5, 0);
    let up = PointerInput { point: (10, 0), pressed: false, down: false };
    assert!(l.tool(up, 5, 3, Tool::Eraser, WHITE).is_none());
    assert_eq!(l.strokes.len(), 1);
    let far = PointerInput { point: (500, 500), pressed: false, down: true };
    assert!(l.tool(far, 5, 3, Tool::Eraser, WHITE).is_none());
    assert_eq!(l.local, Some(0));
    let near = PointerInput { point: (10, 0), pressed: false, down: true };
    let sent = l.tool(near, 5, 3, Tool::Eraser, WHITE);
    assert!(matches!(sent, Some(NetworkPacket::Erase(ref e)) if e.point == (10, 0) && e.size == 3));
    assert!(l.strokes.is_empty());
    assert_eq!(l.local, None);
    assert!(l.peers.is_empty());

    let mut l = Local::new(vec![stroke(2, &[(0, 0), (10, 0)]), stroke(2, &[(90, 90), (91, 91)])]);
    let sent = l.tool(near, 5, 3, Tool::StrokeEraser, WHITE);
    assert!(matches!(sent, Some(NetworkPacket::StrokeErase(ref e)) if e.point == (10, 0) && e.size == 3));
    assert_eq!(points(&l.strokes), vec![vec![(90, 90), (91, 91)]]);
}

#[test]
fn size_keys_change_the_current_tool_only() {
    let (mut pen, mut eraser) = (5u16, 25u16);
    change_tool_size(Tool::Pen, true, false, &mut pen, &mut eraser);
    assert_eq!((pen, eraser), (6, 25));
    change_tool_size(Tool::Eraser, false, true, &mut pen, &mut eraser);
    assert_eq!((pen, eraser), (6, 24));
    change_tool_size(Tool::StrokeEraser, true, false, &mut pen, &mut eraser);
    assert_eq!((pen, eraser), (6, 25));
    change_tool_size(Tool::Pen, true, true, &mut pen, &mut eraser);
    assert_eq!((pen, eraser), (6, 25));
    let (mut pen, mut eraser) = (1u16, 1u16);
    change_tool_size(Tool::Pen, false, true, &mut pen, &mut eraser);
    change_tool_size(Tool::Eraser, false, true, &mut pen, &mut eraser);
    assert_eq!((pen, eraser), (1, 1));
    change_tool_size(Tool::Pen, true, true, &mut pen, &mut eraser);
    assert_eq!(pen, 1);
}

#[test]
fn tool_keys() {
    assert_eq!(tool_for_key('d'), Some(Tool::Pen));
    assert_eq!(tool_for_key('e'), Some(Tool::Eraser));
    assert_eq!(tool_for_key('r'), Some(Tool::StrokeEraser));
    assert_eq!(tool_for_key('D'), None);
    assert_eq!(tool_for_key('x'), None);
}

#[test]
fn tool_frames_count_announced_changes() {
    let mut strokes = vec![stroke(2, &[(0, 0), (10, 0)])];
    let mut local = None;
    let mut peers = HashMap::new();
    let mut revision = 10u64;
    let far = PointerInput { point: (500, 500), pressed: false, down: true };
    let sent = tool_frame(&mut strokes, &mut local, &mut peers, &mut revision, far, 5, 3, Tool::Eraser, WHITE);
    assert!(sent.is_none());
    assert_eq!(revision, 10);
    let press = PointerInput { point: (600, 600), pressed: true, down: true };
    let sent = tool_frame(&mut strokes, &mut local, &mut peers, &mut revision, press, 5, 3, Tool::Pen, WHITE);
    assert!(sent.is_some());
    assert_eq!(revision, 11);
    assert_eq!(local, Some(1));
}
