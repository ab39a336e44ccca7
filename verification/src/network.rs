//! The messages peers exchange, and how a peer's canvas takes them in.
use vstd::prelude::*;
use std::collections::HashMap;
use std::collections::hash_map::DefaultHasher;
use std::hash::{Hash, Hasher};
use matchbox_socket::PeerId;
use vstd::std_specs::hash::DefaultHasherAdditionalSpecFns;
use crate::text::{guest_label, padded_digits};
use crate::stroke::{Rgba, Stroke, StrokeView, view_strokes, copy_points};
use crate::erase::{
    lemma_erase_only_removes_ink, lemma_long_strokes_keeps_long, lemma_stroke_erase_removes_exactly_touched,
    erase_at, stroke_erase_at, erase_result, untouched_strokes, any_touched, reaches_fit, reach_fits,
    touched, touches_checked,
};

verus! {

broadcast use vstd::std_specs::hash::group_hash_axioms;

/// One step of a pen stroke: the first point of a new stroke (with its size,
/// colour and layer) or the next point of the sender's current stroke.
pub struct DrawPacket {
    pub point: (u16, u16),
    pub is_new_stroke: bool,
    pub size: Option<u16>,
    pub color: Option<Rgba>,
    pub layer: Option<i8>,
}

/// A use of the point eraser.
pub struct ErasePacket {
    pub point: (u16, u16),
    pub size: u16,
}

/// A use of the stroke eraser.
pub struct StrokeErasePacket {
    pub point: (u16, u16),
    pub size: u16,
}

/// A whole stroke, as sent in a canvas snapshot.
pub struct StrokePacket {
    pub size: u16,
    pub color: Rgba,
    pub layer: i8,
    pub coordinates: Vec<(u16, u16)>,
}

/// The whole canvas of the sender, tagged with its revision.
pub struct CanvasSnapshotPacket {
    pub revision: u64,
    pub strokes: Vec<StrokePacket>,
    pub background: Rgba,
}

/// Where the sender points, in which colour, under which name.
pub struct CursorPacket {
    pub point: (u16, u16),
    pub color: Rgba,
    pub name: String,
}

/// A peer's last known cursor position, selected colour and display name.
pub struct PeerCursor {
    pub point: (u16, u16),
    pub color: Rgba,
    pub name: String,
}

/// Every message a peer sends.
pub enum NetworkPacket {
    Draw(DrawPacket),
    Erase(ErasePacket),
    StrokeErase(StrokeErasePacket),
    CanvasSnapshot(CanvasSnapshotPacket),
    Cursor(CursorPacket),
}

impl DeepView for StrokePacket {
    type V = StrokeView;

    open spec fn deep_view(&self) -> StrokeView {
        StrokeView {
            size: self.size,
            color: self.color,
            layer: self.layer,
            coordinates: self.coordinates@,
        }
    }
}

/// The mathematical value of a list of sent strokes.
pub open spec fn view_packets(packets: Seq<StrokePacket>) -> Seq<StrokeView> {
    packets.map_values(|s: StrokePacket| s.deep_view())
}

/// Everything a peer's canvas keeps about the shared session.
pub struct SyncState {
    /// The strokes on the canvas.
    pub strokes: Seq<StrokeView>,
    /// For each peer, the index of the stroke it is drawing.
    pub peer_strokes: Map<u128, usize>,
    /// How many changes the canvas has seen.
    pub revision: u64,
    pub background: Rgba,
    /// The index of the local player's stroke in progress, if known.
    pub local_stroke: Option<usize>,
    /// The last cursor of each peer.
    pub cursors: Map<u128, PeerCursor>,
}

/// The state that a peer's variables hold.
pub open spec fn sync_view(
    strokes: Seq<Stroke>,
    peer_strokes: Map<u128, usize>,
    revision: u64,
    background: Rgba,
    local_stroke: Option<usize>,
    cursors: Map<u128, PeerCursor>,
) -> SyncState {
    SyncState {
        strokes: view_strokes(strokes),
        peer_strokes,
        revision,
        background,
        local_stroke,
        cursors,
    }
}

/// Whether a peer with these strokes, current peer strokes and revision can
/// take in `packet` from `peer`: a new stroke comes with its size, colour
/// and layer; the sender's current stroke is on the canvas; the eraser's
/// reach fits in a `u16`; and the revision has room to count the change.
pub open spec fn packet_fits(
    strokes: Seq<StrokeView>,
    peer_strokes: Map<u128, usize>,
    revision: u64,
    peer: u128,
    packet: NetworkPacket,
) -> bool {
    match packet {
        NetworkPacket::Draw(d) => {
            &&& revision < u64::MAX
            &&& d.is_new_stroke ==> d.size is Some && d.color is Some && d.layer is Some
            &&& !d.is_new_stroke && peer_strokes.contains_key(peer) ==> peer_strokes[peer] < strokes.len()
        },
        NetworkPacket::Erase(e) => {
            &&& reaches_fit(strokes, e.size)
            &&& any_touched(strokes, e.point, e.size) ==> revision < u64::MAX
        },
        NetworkPacket::StrokeErase(e) => {
            &&& reaches_fit(strokes, e.size)
            &&& any_touched(strokes, e.point, e.size) ==> revision < u64::MAX
        },
        _ => true,
    }
}

/// Whether a peer in state `s` can take in `packet` from `peer`.
pub open spec fn packet_ok(s: SyncState, peer: u128, packet: NetworkPacket) -> bool {
    packet_fits(s.strokes, s.peer_strokes, s.revision, peer, packet)
}

/// The state after taking in `packet` from `peer`.
/// - A new stroke is appended and becomes the sender's current stroke; the
///   next point of a stroke extends the sender's current stroke, if it has
///   one. Either way the revision counts one change.
/// - An erase is replayed on the canvas; when it reached something, the
///   revision counts one change and no stroke is in progress any more.
/// - A snapshot newer than the canvas replaces strokes, revision and
///   background, and no stroke is in progress any more; an older or equal
///   one is ignored.
/// - A cursor becomes the sender's last known cursor.
pub open spec fn apply_spec(s: SyncState, peer: u128, packet: NetworkPacket) -> SyncState {
    match packet {
        NetworkPacket::Draw(d) => {
            if d.is_new_stroke {
                let stroke = StrokeView {
                    size: d.size->0,
                    color: d.color->0,
                    layer: d.layer->0,
                    coordinates: seq![d.point],
                };
                SyncState {
                    strokes: s.strokes.push(stroke),
                    peer_strokes: s.peer_strokes.insert(peer, s.strokes.len() as usize),
                    revision: (s.revision + 1) as u64,
                    ..s
                }
            } else if s.peer_strokes.contains_key(peer) {
                let idx = s.peer_strokes[peer] as int;
                let old_stroke = s.strokes[idx];
                let stroke = StrokeView { coordinates: old_stroke.coordinates.push(d.point), ..old_stroke };
                SyncState { strokes: s.strokes.update(idx, stroke), revision: (s.revision + 1) as u64, ..s }
            } else {
                SyncState { revision: (s.revision + 1) as u64, ..s }
            }
        },
        NetworkPacket::Erase(e) => {
            let strokes = erase_result(s.strokes, e.point, e.size);
            if any_touched(s.strokes, e.point, e.size) {
                SyncState {
                    strokes,
                    revision: (s.revision + 1) as u64,
                    peer_strokes: Map::empty(),
                    local_stroke: None,
                    ..s
                }
            } else {
                SyncState { strokes, ..s }
            }
        },
        NetworkPacket::StrokeErase(e) => {
            let strokes = untouched_strokes(s.strokes, e.point, e.size);
            if any_touched(s.strokes, e.point, e.size) {
                SyncState {
                    strokes,
                    revision: (s.revision + 1) as u64,
                    peer_strokes: Map::empty(),
                    local_stroke: None,
                    ..s
                }
            } else {
                SyncState { strokes, ..s }
            }
        },
        NetworkPacket::CanvasSnapshot(c) => {
            if c.revision > s.revision {
                SyncState {
                    strokes: view_packets(c.strokes@),
                    revision: c.revision,
                    background: c.background,
                    peer_strokes: Map::empty(),
                    local_stroke: None,
                    ..s
                }
            } else {
                s
            }
        },
        NetworkPacket::Cursor(c) => {
            SyncState {
                cursors: s.cursors.insert(peer, PeerCursor { point: c.point, color: c.color, name: c.name }),
                ..s
            }
        },
    }
}

impl StrokePacket {
    /// The stroke as it is sent.
    pub fn from_stroke(stroke: &Stroke) -> (res: StrokePacket)
        ensures
            res.deep_view() == stroke.deep_view(),
    {
        StrokePacket {
            size: stroke.size,
            color: stroke.color,
            layer: stroke.layer,
            coordinates: copy_points(&stroke.coordinates),
        }
    }
}

/// The stroke a received stroke packet describes.
pub fn stroke_from_packet(packet: StrokePacket) -> (res: Stroke)
    ensures
        res.deep_view() == packet.deep_view(),
{
    Stroke { size: packet.size, color: packet.color, layer: packet.layer, coordinates: packet.coordinates }
}

/// A stroke survives being sent and received: turning it into a packet and
/// back keeps its size, colour bits, layer and points.
pub proof fn lemma_stroke_survives_sending(stroke: Stroke, packet: StrokePacket, received: Stroke)
    requires
        packet.deep_view() == stroke.deep_view(),
        received.deep_view() == packet.deep_view(),
    ensures
        received.size == stroke.size,
        received.color == stroke.color,
        received.layer == stroke.layer,
        received.coordinates@ == stroke.coordinates@,
{
}

/// The strokes a snapshot carries, as strokes of the canvas.
fn strokes_from_packets(packets: &Vec<StrokePacket>) -> (res: Vec<Stroke>)
    ensures
        view_strokes(res@) == view_packets(packets@),
{
    let mut res: Vec<Stroke> = Vec::new();
    let mut i: usize = 0;
    while i < packets.len()
        invariant
            i <= packets@.len(),
            res@.len() == i,
            forall|j: int| 0 <= j < i ==> (#[trigger] res@[j]).deep_view() == packets@[j].deep_view(),
        decreases packets@.len() - i,
    {
        let p = &packets[i];
        res.push(
            Stroke { size: p.size, color: p.color, layer: p.layer, coordinates: copy_points(&p.coordinates) },
        );
        i += 1;
    }
    assert(view_strokes(res@) =~= view_packets(packets@));
    res
}

/// Builds the snapshot of a canvas: its strokes, revision and background.
pub fn canvas_snapshot_packet(strokes: &[Stroke], canvas_revision: u64, background: Rgba) -> (res: NetworkPacket)
    ensures
        res matches NetworkPacket::CanvasSnapshot(c) && c.revision == canvas_revision
            && c.background == background && view_packets(c.strokes@) == view_strokes(strokes@),
{
    let mut sent: Vec<StrokePacket> = Vec::new();
    let mut i: usize = 0;
    while i < strokes.len()
        invariant
            i <= strokes@.len(),
            sent@.len() == i,
            forall|j: int| 0 <= j < i ==> (#[trigger] sent@[j]).deep_view() == strokes@[j].deep_view(),
        decreases strokes@.len() - i,
    {
        sent.push(StrokePacket::from_stroke(&strokes[i]));
        i += 1;
    }
    assert(view_packets(sent@) =~= view_strokes(strokes@));
    NetworkPacket::CanvasSnapshot(CanvasSnapshotPacket { revision: canvas_revision, strokes: sent, background })
}

/// Builds the message that tells peers where the local player points.
pub fn cursor_packet(point: (u16, u16), color: Rgba, name: &str) -> (res: NetworkPacket)
    ensures
        res matches NetworkPacket::Cursor(c) && c.point == point && c.color == color && c.name@ == name@,
{
    NetworkPacket::Cursor(CursorPacket { point, color, name: name.to_owned() })
}

/// Takes in one packet that `peer` sent, as `apply_spec` describes.
pub fn apply_packet(
    strokes: &mut Vec<Stroke>,
    peer_current_stroke: &mut HashMap<u128, usize>,
    canvas_revision: &mut u64,
    background: &mut Rgba,
    local_stroke_idx: &mut Option<usize>,
    peer_cursors: &mut HashMap<u128, PeerCursor>,
    peer: u128,
    packet: NetworkPacket,
)
    requires
        packet_ok(
            sync_view(
                old(strokes)@,
                old(peer_current_stroke)@,
                *old(canvas_revision),
                *old(background),
                *old(local_stroke_idx),
                old(peer_cursors)@,
            ),
            peer,
            packet,
        ),
    ensures
        sync_view(
            final(strokes)@,
            final(peer_current_stroke)@,
            *final(canvas_revision),
            *final(background),
            *final(local_stroke_idx),
            final(peer_cursors)@,
        ) == apply_spec(
            sync_view(
                old(strokes)@,
                old(peer_current_stroke)@,
                *old(canvas_revision),
                *old(background),
                *old(local_stroke_idx),
                old(peer_cursors)@,
            ),
            peer,
            packet,
        ),
{
    let ghost s = sync_view(
        strokes@,
        peer_current_stroke@,
        *canvas_revision,
        *background,
        *local_stroke_idx,
        peer_cursors@,
    );
    match packet {
        NetworkPacket::Draw(d) => {
            if d.is_new_stroke {
                let size = d.size.unwrap();
                let color = d.color.unwrap();
                let layer = d.layer.unwrap();
                let mut coordinates: Vec<(u16, u16)> = Vec::new();
                coordinates.push(d.point);
                strokes.push(Stroke { size, color, layer, coordinates });
                peer_current_stroke.insert(peer, strokes.len() - 1);
                assert(view_strokes(strokes@) =~= s.strokes.push(
                    StrokeView { size, color, layer, coordinates: seq![d.point] },
                ));
            } else {
                match peer_current_stroke.get(&peer) {
                    Some(idx) => {
                        let idx: usize = *idx;
                        let ghost before = strokes@;
                        strokes[idx].coordinates.push(d.point);
                        assert(view_strokes(strokes@) =~= view_strokes(before).update(
                            idx as int,
                            StrokeView {
                                coordinates: view_strokes(before)[idx as int].coordinates.push(d.point),
                                ..view_strokes(before)[idx as int]
                            },
                        ));
                    },
                    None => {},
                }
            }
            *canvas_revision += 1;
        },
        NetworkPacket::Erase(e) => {
            if erase_at(strokes, e.point, e.size) {
                *canvas_revision += 1;
                peer_current_stroke.clear();
                *local_stroke_idx = None;
            }
        },
        NetworkPacket::StrokeErase(e) => {
            if stroke_erase_at(strokes, e.point, e.size) {
                *canvas_revision += 1;
                peer_current_stroke.clear();
                *local_stroke_idx = None;
            }
        },
        NetworkPacket::CanvasSnapshot(c) => {
            if c.revision > *canvas_revision {
                *strokes = strokes_from_packets(&c.strokes);
                *canvas_revision = c.revision;
                *background = c.background;
                peer_current_stroke.clear();
                *local_stroke_idx = None;
            }
        },
        NetworkPacket::Cursor(c) => {
            peer_cursors.insert(peer, PeerCursor { point: c.point, color: c.color, name: c.name });
        },
    }
}

/// Whether a peer whose variables hold these values can take in `packet`
/// from `peer` (see `packet_ok`).
pub fn packet_applicable(
    strokes: &Vec<Stroke>,
    peer_current_stroke: &HashMap<u128, usize>,
    canvas_revision: u64,
    peer: u128,
    packet: &NetworkPacket,
) -> (res: bool)
    ensures
        res == packet_fits(view_strokes(strokes@), peer_current_stroke@, canvas_revision, peer, *packet),
{
    match packet {
        NetworkPacket::Draw(d) => {
            if canvas_revision == u64::MAX {
                return false;
            }
            if d.is_new_stroke {
                d.size.is_some() && d.color.is_some() && d.layer.is_some()
            } else {
                match peer_current_stroke.get(&peer) {
                    Some(idx) => *idx < strokes.len(),
                    None => true,
                }
            }
        },
        NetworkPacket::Erase(e) => erase_applicable(strokes, canvas_revision, e.point, e.size),
        NetworkPacket::StrokeErase(e) => erase_applicable(strokes, canvas_revision, e.point, e.size),
        _ => true,
    }
}

/// Whether an eraser of size `eraser_size` at `point` can be replayed on
/// `strokes` at revision `canvas_revision`.
fn erase_applicable(strokes: &Vec<Stroke>, canvas_revision: u64, point: (u16, u16), eraser_size: u16) -> (res: bool)
    ensures
        res == (reaches_fit(view_strokes(strokes@), eraser_size) && (any_touched(
            view_strokes(strokes@),
            point,
            eraser_size,
        ) ==> canvas_revision < u64::MAX)),
{
    let ghost v = view_strokes(strokes@);
    let mut any = false;
    let mut i: usize = 0;
    while i < strokes.len()
        invariant
            v == view_strokes(strokes@),
            i <= v.len(),
            forall|j: int| 0 <= j < i ==> reach_fits(#[trigger] v[j], eraser_size),
            any == exists|j: int| 0 <= j < i && touched(#[trigger] v[j], point, eraser_size),
        decreases v.len() - i,
    {
        assert(v[i as int] == strokes@[i as int].deep_view());
        if strokes[i].coordinates.len() > 0 && strokes[i].size as u32 + eraser_size as u32 > u16::MAX as u32 {
            return false;
        }
        if touches_checked(&strokes[i], point, eraser_size) {
            any = true;
        }
        i += 1;
    }
    !any || canvas_revision < u64::MAX
}

/// Taking in a packet never moves the revision back.
pub proof fn lemma_revision_never_decreases(s: SyncState, peer: u128, packet: NetworkPacket)
    requires
        packet_ok(s, peer, packet),
    ensures
        apply_spec(s, peer, packet).revision >= s.revision,
{
}

/// A cursor from a peer is stored as that peer's cursor exactly as it was
/// sent (its point, its colour and its name, whatever the local background
/// or selection), other peers' cursors stay as they were, and nothing on the
/// canvas changes.
pub proof fn lemma_cursor_is_stored_as_sent(s: SyncState, peer: u128, cursor: CursorPacket)
    ensures
        ({
            let t = apply_spec(s, peer, NetworkPacket::Cursor(cursor));
            &&& t.cursors.contains_key(peer)
            &&& t.cursors[peer].point == cursor.point
            &&& t.cursors[peer].color == cursor.color
            &&& t.cursors[peer].name == cursor.name
            &&& t.cursors.dom() == s.cursors.dom().insert(peer)
            &&& forall|q: u128| q != peer && #[trigger] s.cursors.contains_key(q) ==> t.cursors[q] == s.cursors[q]
            &&& t.strokes == s.strokes
            &&& t.peer_strokes == s.peer_strokes
            &&& t.revision == s.revision
            &&& t.background == s.background
            &&& t.local_stroke == s.local_stroke
        }),
{
}

/// Conflicting snapshots resolve to the newest: a snapshot newer than a
/// peer's canvas replaces it whatever the peer held before, so any two peers
/// that take it in end up with the same strokes, revision and background; a
/// snapshot that is not newer changes nothing.
pub proof fn lemma_snapshots_converge(s1: SyncState, s2: SyncState, peer1: u128, peer2: u128, snapshot: CanvasSnapshotPacket)
    ensures
        snapshot.revision > s1.revision && snapshot.revision > s2.revision ==> {
            let a = apply_spec(s1, peer1, NetworkPacket::CanvasSnapshot(snapshot));
            let b = apply_spec(s2, peer2, NetworkPacket::CanvasSnapshot(snapshot));
            &&& a.strokes == b.strokes
            &&& a.strokes == view_packets(snapshot.strokes@)
            &&& a.revision == b.revision
            &&& a.background == b.background
        },
        snapshot.revision <= s1.revision ==> apply_spec(s1, peer1, NetworkPacket::CanvasSnapshot(snapshot)) == s1,
{
}

/// A peer's strokes arrive whole: after a new stroke from `peer`, the next
/// point `peer` sends extends that very stroke, and nothing else changes on
/// the canvas.
pub proof fn lemma_peer_stroke_continues(s: SyncState, peer: u128, first: DrawPacket, next: DrawPacket)
    requires
        first.is_new_stroke,
        !next.is_new_stroke,
        packet_ok(s, peer, NetworkPacket::Draw(first)),
        s.revision + 1 < u64::MAX,
        s.strokes.len() < usize::MAX,
    ensures
        ({
            let mid = apply_spec(s, peer, NetworkPacket::Draw(first));
            let end = apply_spec(mid, peer, NetworkPacket::Draw(next));
            &&& packet_ok(mid, peer, NetworkPacket::Draw(next))
            &&& end.strokes.len() == s.strokes.len() + 1
            &&& end.strokes.take(s.strokes.len() as int) == s.strokes
            &&& end.strokes.last().coordinates == seq![first.point, next.point]
            &&& end.strokes.last().size == first.size->0
            &&& end.strokes.last().color == first.color->0
            &&& end.strokes.last().layer == first.layer->0
        }),
{
    let mid = apply_spec(s, peer, NetworkPacket::Draw(first));
    let end = apply_spec(mid, peer, NetworkPacket::Draw(next));
    assert(mid.peer_strokes[peer] == s.strokes.len());
    assert(end.strokes.take(s.strokes.len() as int) =~= s.strokes);
    assert(end.strokes.last().coordinates =~= seq![first.point, next.point]);
}

/// The 16 bytes of a peer id, most significant first.
pub open spec fn id_bytes(peer: u128) -> Seq<u8> {
    Seq::new(16, |i: int| ((peer as int / (vstd::arithmetic::power2::pow2((8 * (15 - i)) as nat) as int)) % 256) as u8)
}

/// What a fresh `DefaultHasher` finishes with after hashing the peer id
/// `peer`.
pub open spec fn peer_hash(peer: u128) -> u64 {
    DefaultHasher::spec_finish(seq![id_bytes(peer)])
}

/// Feeds the peer id `peer` to `hasher` (`<PeerId as Hash>::hash`). A
/// `PeerId` hashes its `Uuid`, and a `Uuid` writes its 16 bytes, most
/// significant first, in a single `write`.
#[verifier::external_body]
fn feed_peer_id(peer: u128, hasher: &mut DefaultHasher)
    ensures
        final(hasher)@ == old(hasher)@.push(id_bytes(peer)),
{
    PeerId(uuid::Uuid::from_u128(peer)).hash(hasher)
}

/// Hashes the peer id `peer` with a fresh `DefaultHasher`.
fn hash_peer_id(peer: u128) -> (hash: u64)
    ensures
        hash == peer_hash(peer),
{
    let mut hasher = DefaultHasher::new();
    feed_peer_id(peer, &mut hasher);
    assert(hasher@ =~= seq![id_bytes(peer)]);
    hasher.finish()
}

/// The hue, in whole degrees below 360, that a peer id hashing to `hash` is
/// drawn in: the hash's bits from the 40th up, modulo 360.
pub fn hue_of_hash(hash: u64) -> (hue: u16)
    ensures
        hue == (hash >> 40u64) % 360,
{
    ((hash >> 40u64) % 360) as u16
}

/// The stable hue of a peer, derived from its id so that every screen shows
/// the peer in the same colour without any coordination.
pub fn peer_hue(peer: u128) -> (hue: u16)
    ensures
        hue == (peer_hash(peer) >> 40u64) % 360,
{
    hue_of_hash(hash_peer_id(peer))
}

/// The placeholder name of a peer, shown until its own name arrives with its
/// first cursor: "Guest-" and four upper-case hexadecimal digits of its id's
/// hash.
pub fn peer_label(peer: u128) -> (label: String)
    ensures
        label@ == "Guest-"@ + padded_digits((peer_hash(peer) % 0x10000) as nat, 16, 4),
{
    guest_label(hash_peer_id(peer))
}

/// A change in a peer's connection.
#[derive(Clone, Copy, PartialEq, Eq, Structural, Debug)]
pub enum PeerState {
    Connected,
    Disconnected,
}

/// The cursors left after the connection changes `changes`: each peer that
/// left loses its cursor.
pub open spec fn cursors_after(cursors: Map<u128, PeerCursor>, changes: Seq<(u128, PeerState)>) -> Map<u128, PeerCursor>
    decreases changes.len(),
{
    if changes.len() == 0 {
        cursors
    } else {
        let rest = cursors_after(cursors, changes.drop_last());
        if changes.last().1 == PeerState::Disconnected {
            rest.remove(changes.last().0)
        } else {
            rest
        }
    }
}

/// The peers that joined in `changes`, in order.
pub open spec fn joined_peers(changes: Seq<(u128, PeerState)>) -> Seq<u128>
    decreases changes.len(),
{
    if changes.len() == 0 {
        seq![]
    } else if changes.last().1 == PeerState::Connected {
        joined_peers(changes.drop_last()).push(changes.last().0)
    } else {
        joined_peers(changes.drop_last())
    }
}

/// Takes in the connection changes since the last frame: every peer that
/// left loses its cursor. Returns the peers that joined, in order; each of
/// them is to be sent the canvas.
pub fn peer_state(changes: &Vec<(u128, PeerState)>, peer_cursors: &mut HashMap<u128, PeerCursor>) -> (joined: Vec<u128>)
    ensures
        final(peer_cursors)@ == cursors_after(old(peer_cursors)@, changes@),
        joined@ == joined_peers(changes@),
{
    let mut joined: Vec<u128> = Vec::new();
    let mut i: usize = 0;
    while i < changes.len()
        invariant
            i <= changes@.len(),
            peer_cursors@ == cursors_after(old(peer_cursors)@, changes@.take(i as int)),
            joined@ == joined_peers(changes@.take(i as int)),
        decreases changes@.len() - i,
    {
        let (peer, state) = changes[i];
        assert(changes@.take(i + 1).drop_last() =~= changes@.take(i as int));
        match state {
            PeerState::Connected => {
                joined.push(peer);
            },
            PeerState::Disconnected => {
                peer_cursors.remove(&peer);
            },
        }
        i += 1;
    }
    assert(changes@.take(i as int) =~= changes@);
    joined
}

/// Whether every peer's current stroke is on the canvas.
pub open spec fn peer_strokes_on_canvas(s: SyncState) -> bool {
    forall|p: u128| #[trigger] s.peer_strokes.contains_key(p) ==> s.peer_strokes[p] < s.strokes.len()
}

/// Every peer's current stroke stays on the canvas, so the next point a peer
/// sends always finds its stroke. A point erase that reaches nothing is the
/// exception: it still drops the strokes of fewer than two points without
/// forgetting the peers' current strokes, so here the law is stated for a
/// canvas whose strokes all have at least two points.
pub proof fn lemma_peer_strokes_stay_on_canvas(s: SyncState, peer: u128, packet: NetworkPacket)
    requires
        packet_ok(s, peer, packet),
        peer_strokes_on_canvas(s),
        s.strokes.len() < usize::MAX,
        packet matches NetworkPacket::Erase(e) ==> any_touched(s.strokes, e.point, e.size) || forall|i: int|
            0 <= i < s.strokes.len() ==> (#[trigger] s.strokes[i]).coordinates.len() > 1,
    ensures
        peer_strokes_on_canvas(apply_spec(s, peer, packet)),
{
    let t = apply_spec(s, peer, packet);
    match packet {
        NetworkPacket::Draw(d) => {
            assert forall|p: u128| #[trigger] t.peer_strokes.contains_key(p) implies t.peer_strokes[p] < t.strokes.len() by {
                if d.is_new_stroke && p != peer {
                    assert(s.peer_strokes.contains_key(p));
                }
            }
        },
        NetworkPacket::Erase(e) => {
            if !any_touched(s.strokes, e.point, e.size) {
                lemma_erase_only_removes_ink(s.strokes, e.point, e.size);
                lemma_long_strokes_keeps_long(s.strokes);
            }
        },
        NetworkPacket::StrokeErase(e) => {
            lemma_stroke_erase_removes_exactly_touched(s.strokes, e.point, e.size);
        },
        _ => {},
    }
}

/// A canvas survives being sent as a snapshot: a peer with an older revision
/// that takes in the snapshot of `strokes` ends up with exactly those
/// strokes, and with the snapshot's revision and background.
pub proof fn lemma_snapshot_round_trip(
    strokes: Seq<Stroke>,
    snapshot: CanvasSnapshotPacket,
    s: SyncState,
    peer: u128,
)
    requires
        view_packets(snapshot.strokes@) == view_strokes(strokes),
        snapshot.revision > s.revision,
    ensures
        apply_spec(s, peer, NetworkPacket::CanvasSnapshot(snapshot)).strokes == view_strokes(strokes),
        apply_spec(s, peer, NetworkPacket::CanvasSnapshot(snapshot)).revision == snapshot.revision,
        apply_spec(s, peer, NetworkPacket::CanvasSnapshot(snapshot)).background == snapshot.background,
{
}

/// The state after taking in `packets` in order.
pub open spec fn apply_all(s: SyncState, packets: Seq<(u128, NetworkPacket)>) -> SyncState
    decreases packets.len(),
{
    if packets.len() == 0 {
        s
    } else {
        apply_spec(apply_all(s, packets.drop_last()), packets.last().0, packets.last().1)
    }
}

/// Whether `packets` can all be taken in, in order, from state `s`.
pub open spec fn all_fit(s: SyncState, packets: Seq<(u128, NetworkPacket)>) -> bool
    decreases packets.len(),
{
    if packets.len() == 0 {
        true
    } else {
        all_fit(s, packets.drop_last()) && packet_ok(apply_all(s, packets.drop_last()), packets.last().0, packets.last().1)
    }
}

/// Takes in the packets received this frame, in order, as `apply_spec`
/// describes, and stops before the first packet the canvas cannot take in
/// (see `packet_fits`). Returns how many packets were taken in; the caller
/// treats a packet left over as fatal.
pub fn handle_incoming(
    strokes: &mut Vec<Stroke>,
    peer_current_stroke: &mut HashMap<u128, usize>,
    canvas_revision: &mut u64,
    background: &mut Rgba,
    local_stroke_idx: &mut Option<usize>,
    peer_cursors: &mut HashMap<u128, PeerCursor>,
    packets: Vec<(u128, NetworkPacket)>,
) -> (taken: usize)
    ensures
        taken <= packets@.len(),
        all_fit(
            sync_view(
                old(strokes)@,
                old(peer_current_stroke)@,
                *old(canvas_revision),
                *old(background),
                *old(local_stroke_idx),
                old(peer_cursors)@,
            ),
            packets@.take(taken as int),
        ),
        sync_view(
            final(strokes)@,
            final(peer_current_stroke)@,
            *final(canvas_revision),
            *final(background),
            *final(local_stroke_idx),
            final(peer_cursors)@,
        ) == apply_all(
            sync_view(
                old(strokes)@,
                old(peer_current_stroke)@,
                *old(canvas_revision),
                *old(background),
                *old(local_stroke_idx),
                old(peer_cursors)@,
            ),
            packets@.take(taken as int),
        ),
        taken < packets@.len() ==> !packet_ok(
            sync_view(
                final(strokes)@,
                final(peer_current_stroke)@,
                *final(canvas_revision),
                *final(background),
                *final(local_stroke_idx),
                final(peer_cursors)@,
            ),
            packets@[taken as int].0,
            packets@[taken as int].1,
        ),
{
    let ghost s0 = sync_view(
        strokes@,
        peer_current_stroke@,
        *canvas_revision,
        *background,
        *local_stroke_idx,
        peer_cursors@,
    );
    let ghost orig = packets@;
    let mut pending = packets;
    let n = pending.len();
    let mut taken: usize = 0;
    assert(orig.take(0) =~= Seq::<(u128, NetworkPacket)>::empty());
    assert(orig.skip(0) =~= orig);
    while pending.len() > 0
        invariant
            taken <= orig.len(),
            orig.len() == n,
            pending@ == orig.skip(taken as int),
            all_fit(s0, orig.take(taken as int)),
            sync_view(
                strokes@,
                peer_current_stroke@,
                *canvas_revision,
                *background,
                *local_stroke_idx,
                peer_cursors@,
            ) == apply_all(s0, orig.take(taken as int)),
        ensures
            taken <= orig.len(),
            all_fit(s0, orig.take(taken as int)),
            sync_view(
                strokes@,
                peer_current_stroke@,
                *canvas_revision,
                *background,
                *local_stroke_idx,
                peer_cursors@,
            ) == apply_all(s0, orig.take(taken as int)),
            taken < orig.len() ==> !packet_ok(
                sync_view(
                    strokes@,
                    peer_current_stroke@,
                    *canvas_revision,
                    *background,
                    *local_stroke_idx,
                    peer_cursors@,
                ),
                orig[taken as int].0,
                orig[taken as int].1,
            ),
        decreases orig.len() - taken,
    {
        assert(pending@[0] == orig[taken as int]);
        let ok = packet_applicable(strokes, peer_current_stroke, *canvas_revision, pending[0].0, &pending[0].1);
        if !ok {
            break;
        }
        let (peer, packet) = pending.remove(0);
        assert(orig.take(taken + 1).drop_last() =~= orig.take(taken as int));
        assert(orig.take(taken + 1).last() == orig[taken as int]);
        apply_packet(strokes, peer_current_stroke, canvas_revision, background, local_stroke_idx, peer_cursors, peer, packet);
        taken += 1;
        assert(pending@ =~= orig.skip(taken as int));
    }
    proof {
        if taken == orig.len() {
            assert(orig.take(taken as int) =~= orig);
        }
    }
    taken
}

/// Over any run of packets that can all be taken in, the revision never
/// moves back.
pub proof fn lemma_revision_never_decreases_over(s: SyncState, packets: Seq<(u128, NetworkPacket)>)
    requires
        all_fit(s, packets),
    ensures
        apply_all(s, packets).revision >= s.revision,
    decreases packets.len(),
{
    if packets.len() > 0 {
        lemma_revision_never_decreases_over(s, packets.drop_last());
        lemma_revision_never_decreases(apply_all(s, packets.drop_last()), packets.last().0, packets.last().1);
    }
}

/// What joining, hosting or leaving a lobby does to the canvas state.
#[derive(Clone, Copy, PartialEq, Eq, Structural, Debug)]
pub enum LobbyChange {
    /// Hosting a new lobby keeps the canvas.
    Host,
    /// Joining a lobby shows the room's own canvas, so the local one goes.
    Join,
    /// Leaving keeps the canvas but forgets the peers.
    Leave,
}

/// Resets the session state for a lobby change: every change forgets the
/// undo and redo history; joining also empties the canvas, resets the
/// revision and forgets in-progress strokes and peer cursors; leaving
/// forgets in-progress strokes and peer cursors.
pub fn reset_for_lobby(
    change: LobbyChange,
    strokes: &mut Vec<Stroke>,
    canvas_revision: &mut u64,
    peer_current_stroke: &mut HashMap<u128, usize>,
    local_stroke_idx: &mut Option<usize>,
    peer_cursors: &mut HashMap<u128, PeerCursor>,
    undo_stack: &mut Vec<Vec<Stroke>>,
    redo_stack: &mut Vec<Vec<Stroke>>,
)
    ensures
        final(undo_stack)@.len() == 0,
        final(redo_stack)@.len() == 0,
        change == LobbyChange::Join ==> final(strokes)@.len() == 0 && *final(canvas_revision) == 0,
        change != LobbyChange::Join ==> final(strokes)@ == old(strokes)@ && *final(canvas_revision) == *old(
            canvas_revision,
        ),
        change == LobbyChange::Host ==> final(peer_current_stroke)@ == old(peer_current_stroke)@
            && *final(local_stroke_idx) == *old(local_stroke_idx) && final(peer_cursors)@ == old(peer_cursors)@,
        change != LobbyChange::Host ==> final(peer_current_stroke)@ == Map::<u128, usize>::empty()
            && *final(local_stroke_idx) == None::<usize> && final(peer_cursors)@ == Map::<u128, PeerCursor>::empty(),
{
    if change == LobbyChange::Join {
        strokes.clear();
        *canvas_revision = 0;
    }
    if change != LobbyChange::Host {
        peer_current_stroke.clear();
        *local_stroke_idx = None;
        peer_cursors.clear();
    }
    undo_stack.clear();
    redo_stack.clear();
}

/// How a lobby member's colour is chosen.
#[derive(Clone, Copy, Debug)]
pub enum MemberColor {
    /// The colour the member has selected, as their last cursor said.
    Chosen(Rgba),
    /// No cursor has arrived yet: the stable colour derived from the peer id.
    OfPeer(u128),
}

/// The entry of the lobby list for the connected peer `peer`: its last
/// cursor's name and colour, or, before its first cursor, its placeholder
/// label and the colour derived from its id.
pub open spec fn member_entry(cursors: Map<u128, PeerCursor>, peer: u128) -> (Seq<char>, MemberColor) {
    if cursors.contains_key(peer) {
        (cursors[peer].name@, MemberColor::Chosen(cursors[peer].color))
    } else {
        ("Guest-"@ + padded_digits((peer_hash(peer) % 0x10000) as nat, 16, 4), MemberColor::OfPeer(peer))
    }
}

/// The lobby list shown in the menu: the local player first, once the
/// signalling server has given them an id, then each connected peer in
/// order (see `member_entry`).
pub fn lobby_members(
    player_name: &str,
    player_color: Rgba,
    has_local_id: bool,
    connected: &Vec<u128>,
    peer_cursors: &HashMap<u128, PeerCursor>,
) -> (members: Vec<(String, MemberColor)>)
    ensures
        ({
            let offset: int = if has_local_id { 1 } else { 0 };
            &&& members@.len() == offset + connected@.len()
            &&& has_local_id ==> members@[0].0@ == player_name@ && members@[0].1 == MemberColor::Chosen(player_color)
            &&& forall|k: int| 0 <= k < connected@.len() ==> {
                let entry = member_entry(peer_cursors@, connected@[k]);
                &&& (#[trigger] members@[offset + k]).0@ == entry.0
                &&& members@[offset + k].1 == entry.1
            }
        }),
{
    let mut members: Vec<(String, MemberColor)> = Vec::new();
    if has_local_id {
        members.push((player_name.to_owned(), MemberColor::Chosen(player_color)));
    }
    let ghost offset: int = if has_local_id { 1 } else { 0 };
    let mut i: usize = 0;
    while i < connected.len()
        invariant
            offset == (if has_local_id { 1int } else { 0int }),
            i <= connected@.len(),
            members@.len() == offset + i,
            has_local_id ==> members@[0].0@ == player_name@ && members@[0].1 == MemberColor::Chosen(player_color),
            forall|k: int| 0 <= k < i ==> {
                let entry = member_entry(peer_cursors@, connected@[k]);
                &&& (#[trigger] members@[offset + k]).0@ == entry.0
                &&& members@[offset + k].1 == entry.1
            },
        decreases connected@.len() - i,
    {
        let peer = connected[i];
        let entry = match peer_cursors.get(&peer) {
            Some(cursor) => (cursor.name.clone(), MemberColor::Chosen(cursor.color)),
            None => (peer_label(peer), MemberColor::OfPeer(peer)),
        };
        members.push(entry);
        i += 1;
    }
    members
}

} // verus!
