use std::collections::hash_map::DefaultHasher;
use std::collections::HashMap;
use std::hash::{Hash, Hasher};

use matchbox_socket::PeerId;
use os_paint::network::{
    apply_packet, canvas_snapshot_packet, handle_incoming, lobby_members, reset_for_lobby, MemberColor, stroke_from_packet, LobbyChange, cursor_packet, hue_of_hash, packet_applicable, peer_hue,
    peer_label, peer_state, CanvasSnapshotPacket, CursorPacket, DrawPacket, ErasePacket, NetworkPacket,
    PeerCursor, PeerState, StrokeErasePacket, StrokePacket,
};
use os_paint::stroke::{Rgba, Stroke};

const BLUE: Rgba = Rgba { r: 0, g: 0x3EF0_A3D7, b: 0x3F73_3333, a: 0x3F80_0000 };
const BLACK: Rgba = Rgba { r: 0, g: 0, b: 0, a: 0x3F80_0000 };

struct Peer {
    strokes: Vec<Stroke>,
    peer_current_stroke: HashMap<u128, usize>,
    revision: u64,
    background: Rgba,
    local: Option<usize>,
    cursors: HashMap<u128, PeerCursor>,
}

impl Peer {
    fn new() -> Peer {
        Peer {
            strokes: Vec::new(),
            peer_current_stroke: HashMap::new(),
            revision: 0,
            background: BLACK,
            local: None,
            cursors: HashMap::new(),
        }
    }

    fn take(&mut self, from: u128, packet: NetworkPacket) {
        assert!(packet_applicable(&self.strokes, &self.peer_current_stroke, self.revision, from, &packet));
        apply_packet(
            &mut self.strokes,
            &mut self.peer_current_stroke,
            &mut self.revision,
            &mut self.background,
            &mut self.local,
            &mut self.cursors,
            from,
            packet,
        );
    }

    fn points(&self) -> Vec<Vec<(u16, u16)>> {
        self.strokes.iter().map(|s| s.coordinates.clone()).collect()
    }
}

fn new_stroke(point: (u16, u16)) -> NetworkPacket {
    NetworkPacket::Draw(DrawPacket { point, is_new_stroke: true, size: Some(4), color: Some(BLUE), layer: Some(1) })
}

fn next_point(point: (u16, u16)) -> NetworkPacket {
    NetworkPacket::Draw(DrawPacket { point, is_new_stroke: false, size: None, color: None, layer: None })
}

fn snapshot(revision: u64, strokes: Vec<Vec<(u16, u16)>>) -> NetworkPacket {
    NetworkPacket::CanvasSnapshot(CanvasSnapshotPacket {
        revision,
        strokes: strokes
            .into_iter()
            .map(|coordinates| StrokePacket { size: 3, color: BLUE, layer: 1, coordinates })
            .collect(),
        background: BLUE,
    })
}

#[test]
fn peer_strokes_are_built_point_by_point() {
    let mut p = Peer::new();
    p.take(1, new_stroke((10, 10)));
    p.take(2, new_stroke((50, 50)));
    p.take(1, next_point((11, 11)));
    p.take(2, next_point((51, 51)));
    p.take(3, next_point((99, 99)));
    assert_eq!(p.points(), vec![vec![(10, 10), (11, 11)], vec![(50, 50), (51, 51)]]);
    assert_eq!(p.strokes[0].size, 4);
    assert_eq!(p.strokes[0].color, BLUE);
    assert_eq!(p.revision, 5);
    assert_eq!(p.peer_current_stroke.get(&1), Some(&0));
    assert_eq!(p.peer_current_stroke.get(&2), Some(&1));
}

#[test]
fn newer_snapshot_replaces_canvas_and_older_is_ignored() {
    let mut p = Peer::new();
    p.take(1, new_stroke((10, 10)));
    p.local = Some(0);
    p.take(2, snapshot(5, vec![vec![(1, 2), (3, 4)]]));
    assert_eq!(p.points(), vec![vec![(1, 2), (3, 4)]]);
    assert_eq!(p.revision, 5);
    assert_eq!(p.background, BLUE);
    assert!(p.peer_current_stroke.is_empty());
    assert_eq!(p.local, None);
    p.take(2, snapshot(5, vec![]));
    p.take(2, snapshot(3, vec![]));
    assert_eq!(p.points(), vec![vec![(1, 2), (3, 4)]]);
    assert_eq!(p.revision, 5);
}

#[test]
fn peers_converge_on_the_newest_snapshot() {
    let mut a = Peer::new();
    let mut b = Peer::new();
    a.take(7, new_stroke((1, 1)));
    a.take(7, next_point((2, 2)));
    b.take(8, new_stroke((9, 9)));
    let shared = vec![vec![(5, 5), (6, 6)], vec![(7, 7), (8, 8)]];
    a.take(9, snapshot(10, shared.clone()));
    b.take(9, snapshot(10, shared.clone()));
    assert_eq!(a.points(), b.points());
    assert_eq!(a.points(), shared);
    assert_eq!(a.revision, b.revision);
    assert_eq!(a.background, b.background);
}

#[test]
fn remote_erases_are_replayed() {
    let mut p = Peer::new();
    p.take(1, new_stroke((0, 0)));
    p.take(1, next_point((10, 0)));
    p.take(1, next_point((20, 0)));
    p.local = Some(0);
    p.take(2, NetworkPacket::Erase(ErasePacket { point: (500, 500), size: 2 }));
    assert_eq!(p.revision, 3);
    assert_eq!(p.local, Some(0));
    p.take(2, NetworkPacket::Erase(ErasePacket { point: (20, 0), size: 2 }));
    assert_eq!(p.points(), vec![vec![(0, 0), (10, 0)]]);
    assert_eq!(p.revision, 4);
    assert_eq!(p.local, None);
    assert!(p.peer_current_stroke.is_empty());
    p.take(2, NetworkPacket::StrokeErase(StrokeErasePacket { point: (0, 0), size: 1 }));
    assert!(p.strokes.is_empty());
    assert_eq!(p.revision, 5);
}

#[test]
fn cursors_are_remembered_and_dropped_when_peers_leave() {
    let mut p = Peer::new();
    p.take(4, NetworkPacket::Cursor(CursorPacket { point: (3, 4), color: BLUE, name: "Ada".to_string() }));
    p.take(4, NetworkPacket::Cursor(CursorPacket { point: (5, 6), color: BLACK, name: "Ada L".to_string() }));
    p.take(5, NetworkPacket::Cursor(CursorPacket { point: (1, 1), color: BLUE, name: "Bob".to_string() }));
    assert_eq!(p.cursors[&4].point, (5, 6));
    assert_eq!(p.cursors[&4].name, "Ada L");
    assert_eq!(p.revision, 0);
    let joined = peer_state(&vec![(6, PeerState::Connected), (4, PeerState::Disconnected), (7, PeerState::Connected)], &mut p.cursors);
    assert_eq!(joined, vec![6, 7]);
    assert!(!p.cursors.contains_key(&4));
    assert!(p.cursors.contains_key(&5));
}

#[test]
fn packets_that_would_panic_are_not_applicable() {
    let strokes = vec![Stroke { size: 65000, color: BLUE, layer: 1, coordinates: vec![(0, 0), (1, 1)] }];
    let mut current = HashMap::new();
    let missing_size = NetworkPacket::Draw(DrawPacket { point: (0, 0), is_new_stroke: true, size: None, color: Some(BLUE), layer: Some(1) });
    assert!(!packet_applicable(&strokes, &current, 0, 1, &missing_size));
    current.insert(1u128, 5usize);
    assert!(!packet_applicable(&strokes, &current, 0, 1, &next_point((1, 1))));
    assert!(packet_applicable(&strokes, &current, 0, 2, &next_point((1, 1))));
    assert!(!packet_applicable(&strokes, &current, u64::MAX, 2, &next_point((1, 1))));
    let big_eraser = NetworkPacket::Erase(ErasePacket { point: (0, 0), size: 1000 });
    assert!(!packet_applicable(&strokes, &current, 0, 2, &big_eraser));
    let small_eraser = NetworkPacket::StrokeErase(StrokeErasePacket { point: (0, 0), size: 500 });
    assert!(packet_applicable(&strokes, &current, 0, 2, &small_eraser));
    assert!(!packet_applicable(&strokes, &current, u64::MAX, 2, &small_eraser));
    let far_eraser = NetworkPacket::StrokeErase(StrokeErasePacket { point: (0, 0), size: 1 });
    let strokes = vec![Stroke { size: 1, color: BLUE, layer: 1, coordinates: vec![(900, 900), (901, 901)] }];
    assert!(packet_applicable(&strokes, &current, u64::MAX, 2, &far_eraser));
    assert!(packet_applicable(&strokes, &current, u64::MAX, 2, &snapshot(1, vec![])));
}

#[test]
fn snapshot_packet_carries_the_canvas() {
    let strokes = vec![Stroke { size: 9, color: BLUE, layer: 1, coordinates: vec![(1, 2), (3, 4)] }];
    match canvas_snapshot_packet(&strokes, 42, BLACK) {
        NetworkPacket::CanvasSnapshot(c) => {
            assert_eq!(c.revision, 42);
            assert_eq!(c.background, BLACK);
            assert_eq!(c.strokes.len(), 1);
            assert_eq!(c.strokes[0].size, 9);
            assert_eq!(c.strokes[0].coordinates, vec![(1, 2), (3, 4)]);
        }
        _ => panic!("not a snapshot"),
    }
    match cursor_packet((8, 9), BLUE, "Zoe") {
        NetworkPacket::Cursor(c) => {
            assert_eq!(c.point, (8, 9));
            assert_eq!(c.color, BLUE);
            assert_eq!(c.name, "Zoe");
        }
        _ => panic!("not a cursor"),
    }
}

fn hash_of(peer: u128) -> u64 {
    let mut hasher = DefaultHasher::new();
    PeerId(uuid::Uuid::from_u128(peer)).hash(&mut hasher);
    hasher.finish()
}

#[test]
fn peer_labels_and_hues_come_from_the_id_hash() {
    for peer in [0u128, 1, 0x1234_5678_9abc_def0_0fed_cba9_8765_4321, u128::MAX] {
        let hash = hash_of(peer);
        assert_eq!(peer_label(peer), format!("Guest-{:04X}", (hash & 0xFFFF) as u16));
        assert_eq!(peer_hue(peer) as u64, (hash >> 40) % 360);
    }
    assert_ne!(peer_label(1), peer_label(2));
}

#[test]
fn hue_formula() {
    assert_eq!(hue_of_hash(0), 0);
    assert_eq!(hue_of_hash(360u64 << 40), 0);
    assert_eq!(hue_of_hash(361u64 << 40), 1);
    assert_eq!(hue_of_hash((1u64 << 40) - 1), 0);
    assert_eq!(hue_of_hash(u64::MAX), ((u64::MAX >> 40) % 360) as u16);
}

#[test]
fn an_erase_that_reaches_nothing_can_strand_a_peer_stroke() {
    let mut p = Peer::new();
    p.take(1, new_stroke((10, 10)));
    p.take(2, NetworkPacket::Erase(ErasePacket { point: (3000, 2000), size: 1 }));
    assert!(p.strokes.is_empty());
    assert_eq!(p.peer_current_stroke.get(&1), Some(&0));
    assert!(!packet_applicable(&p.strokes, &p.peer_current_stroke, p.revision, 1, &next_point((11, 11))));
}

#[test]
fn revision_only_counts_up() {
    let mut p = Peer::new();
    p.take(1, snapshot(100, vec![]));
    let before = p.revision;
    p.take(1, snapshot(50, vec![vec![(1, 1), (2, 2)]]));
    p.take(1, NetworkPacket::Cursor(CursorPacket { point: (0, 0), color: BLUE, name: String::new() }));
    p.take(1, NetworkPacket::StrokeErase(StrokeErasePacket { point: (0, 0), size: 1 }));
    assert_eq!(p.revision, before);
    p.take(1, new_stroke((1, 1)));
    assert_eq!(p.revision, before + 1);
}

#[test]
fn handle_incoming_takes_packets_in_order() {
    let mut p = Peer::new();
    let packets = vec![(1u128, new_stroke((1, 1))), (1, next_point((2, 2))), (2, new_stroke((5, 5)))];
    let taken = handle_incoming(
        &mut p.strokes,
        &mut p.peer_current_stroke,
        &mut p.revision,
        &mut p.background,
        &mut p.local,
        &mut p.cursors,
        packets,
    );
    assert_eq!(taken, 3);
    assert_eq!(p.points(), vec![vec![(1, 1), (2, 2)], vec![(5, 5)]]);
    assert_eq!(p.revision, 3);
}

#[test]
fn handle_incoming_stops_before_a_packet_it_cannot_take() {
    let mut p = Peer::new();
    let broken = NetworkPacket::Draw(DrawPacket { point: (0, 0), is_new_stroke: true, size: None, color: None, layer: None });
    let packets = vec![(1u128, new_stroke((1, 1))), (3, broken), (1, next_point((2, 2)))];
    let taken = handle_incoming(
        &mut p.strokes,
        &mut p.peer_current_stroke,
        &mut p.revision,
        &mut p.background,
        &mut p.local,
        &mut p.cursors,
        packets,
    );
    assert_eq!(taken, 1);
    assert_eq!(p.points(), vec![vec![(1, 1)]]);
    assert_eq!(p.revision, 1);
}

#[test]
fn strokes_and_canvases_survive_sending() {
    let s = Stroke { size: 7, color: BLUE, layer: -3, coordinates: vec![(1, 2), (3, 4), (65535, 0)] };
    let back = stroke_from_packet(StrokePacket::from_stroke(&s));
    assert_eq!((back.size, back.color, back.layer), (s.size, s.color, s.layer));
    assert_eq!(back.coordinates, s.coordinates);

    let canvas = vec![s, Stroke { size: 1, color: BLACK, layer: 1, coordinates: vec![(9, 9)] }];
    let mut p = Peer::new();
    p.take(1, canvas_snapshot_packet(&canvas, 12, BLUE));
    assert_eq!(p.points(), canvas.iter().map(|s| s.coordinates.clone()).collect::<Vec<_>>());
    assert_eq!(p.strokes[0].layer, -3);
    assert_eq!(p.strokes[1].color, BLACK);
    assert_eq!(p.revision, 12);
    assert_eq!(p.background, BLUE);
}

#[test]
fn lobby_changes_reset_the_session() {
    for change in [LobbyChange::Host, LobbyChange::Join, LobbyChange::Leave] {
        let mut p = Peer::new();
        p.take(1, new_stroke((1, 1)));
        p.take(1, NetworkPacket::Cursor(CursorPacket { point: (3, 4), color: BLUE, name: "Ada".to_string() }));
        p.local = Some(0);
        let mut undo = vec![Vec::new()];
        let mut redo = vec![Vec::new(), Vec::new()];
        reset_for_lobby(
            change,
            &mut p.strokes,
            &mut p.revision,
            &mut p.peer_current_stroke,
            &mut p.local,
            &mut p.cursors,
            &mut undo,
            &mut redo,
        );
        assert!(undo.is_empty() && redo.is_empty());
        match change {
            LobbyChange::Host => {
                assert_eq!(p.strokes.len(), 1);
                assert_eq!(p.revision, 1);
                assert_eq!(p.local, Some(0));
                assert_eq!(p.cursors.len(), 1);
                assert_eq!(p.peer_current_stroke.len(), 1);
            }
            LobbyChange::Join => {
                assert!(p.strokes.is_empty());
                assert_eq!(p.revision, 0);
                assert_eq!(p.local, None);
                assert!(p.cursors.is_empty() && p.peer_current_stroke.is_empty());
            }
            LobbyChange::Leave => {
                assert_eq!(p.strokes.len(), 1);
                assert_eq!(p.revision, 1);
                assert_eq!(p.local, None);
                assert!(p.cursors.is_empty() && p.peer_current_stroke.is_empty());
            }
        }
    }
}

#[test]
fn lobby_list_puts_the_player_first_then_peers() {
    let mut cursors = HashMap::new();
    cursors.insert(2u128, PeerCursor { point: (0, 0), color: BLUE, name: "Bea".to_string() });
    let members = lobby_members("Ada", BLACK, true, &vec![2, 3], &cursors);
    assert_eq!(members.len(), 3);
    assert_eq!(members[0].0, "Ada");
    assert!(matches!(members[0].1, MemberColor::Chosen(c) if c.r == BLACK.r && c.a == BLACK.a));
    assert_eq!(members[1].0, "Bea");
    assert!(matches!(members[1].1, MemberColor::Chosen(c) if c.g == BLUE.g));
    assert_eq!(members[2].0, peer_label(3));
    assert!(matches!(members[2].1, MemberColor::OfPeer(3)));
    let members = lobby_members("Ada", BLACK, false, &vec![3], &cursors);
    assert_eq!(members.len(), 1);
    assert_eq!(members[0].0, peer_label(3));
}
