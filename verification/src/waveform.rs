//! The waveform view: a strip with the songs on top, then one lane per track.
//! The edges of the selected song are dragged in the strip, those of its
//! tracks in the lanes. What is decided here is what the pointer means and
//! what is shown where; where a frame lies on the screen is up to the caller.

use crate::audio;
use crate::audio::{extremes, AudioData, PEAK_BIN};
use crate::message::Message;
use crate::mix;
use crate::project;
use crate::project::{plain_name, Song, SongView};
use crate::single;
use crate::single::{Single, ZERO_BITS};
use crate::songs;
use crate::songs::find_song;
use crate::text;
use crate::text::{decimal_text, padded_text};
use vstd::prelude::*;
use vstd::string::*;

verus! {

/// How close to an edge it can be grabbed, in pixels: the bits of 7.
pub const HIT_BITS: u32 = 0x40e0_0000;

/// What is being dragged.
#[derive(Clone, Copy, Debug, PartialEq, Eq, Structural)]
pub enum Drag {
    SongStart(u64),
    SongEnd(u64),
    TrackStart(u64, usize),
    TrackEnd(u64, usize),
}

/// What the pointer is up to.
#[derive(Clone, Copy, Debug, PartialEq, Eq, Structural)]
pub struct WfState {
    pub dragging: Option<Drag>,
    /// Whether the playhead follows the pointer.
    pub scrubbing: bool,
    /// Whether shift is held.
    pub shift: bool,
}

impl Default for WfState {
    fn default() -> (r: Self)
        ensures
            r == (WfState { dragging: None, scrubbing: false, shift: false }),
    {
        WfState { dragging: None, scrubbing: false, shift: false }
    }
}

/// What comes of an event of the pointer.
#[derive(Debug)]
pub struct Reaction {
    /// Whether nothing else should see the event.
    pub captured: bool,
    pub message: Option<Message>,
    /// Whether the press counts as a click, which a second one can follow.
    pub clicked: bool,
}

/// The distances of the pointer from the start and the end of a range, in
/// pixels.
#[derive(Clone, Copy, Debug, PartialEq, Eq, Structural)]
pub struct Edges {
    pub start: Single,
    pub end: Single,
}

/// One end of a range.
#[derive(Clone, Copy, Debug, PartialEq, Eq, Structural)]
pub enum Edge {
    Start,
    End,
}

/// The edge that can be grabbed: the nearer one within reach, the start where
/// both are as near.
pub open spec fn grabbed(edges: Edges) -> Option<Edge> {
    let reach = Single { bits: HIT_BITS };
    if edges.start.at_most(reach) && edges.start.at_most(edges.end) {
        Some(Edge::Start)
    } else if edges.end.at_most(reach) {
        Some(Edge::End)
    } else {
        None
    }
}

/// The edge that can be grabbed.
pub fn hit_edge(edges: Edges) -> (r: Option<Edge>)
    ensures
        r == grabbed(edges),
{
    let reach = Single { bits: HIT_BITS };
    if edges.start.le(reach) && edges.start.le(edges.end) {
        Some(Edge::Start)
    } else if edges.end.le(reach) {
        Some(Edge::End)
    } else {
        None
    }
}

/// Where a press or a look of the pointer falls.
#[derive(Clone, Copy, Debug)]
pub struct Spot {
    /// The frame, kept inside the recording.
    pub frame: usize,
    /// Whether it is in the strip, and there among the song bands.
    pub in_strip: bool,
    pub in_bands: bool,
    /// How far the edges of the selected song are, if one is selected.
    pub song_edges: Option<Edges>,
    /// The whole frames at or below and at or above, where it is not before
    /// the recording.
    pub between: Option<(usize, usize)>,
    /// The lane, if any.
    pub lane: Option<usize>,
    /// How far the edges of the track in that lane are, where the selected
    /// song uses it.
    pub track_edges: Option<Edges>,
}

/// Whether a song lies under the pointer.
pub open spec fn under(s: SongView, between: (usize, usize)) -> bool {
    s.start <= between.0 && between.1 <= s.end
}

/// The first song from `i` on under the pointer that is not selected.
pub open spec fn other_band(
    list: Seq<SongView>,
    selected: Option<u64>,
    between: (usize, usize),
    i: nat,
) -> Option<u64>
    decreases list.len() - i,
{
    if i >= list.len() {
        None
    } else if under(list[i as int], between) && Some(list[i as int].id) != selected {
        Some(list[i as int].id)
    } else {
        other_band(list, selected, between, i + 1)
    }
}

/// Whether the selected song lies under the pointer.
pub open spec fn selected_band(
    list: Seq<SongView>,
    selected: Option<u64>,
    between: (usize, usize),
) -> bool {
    exists|i: int|
        0 <= i < list.len() && under(#[trigger] list[i], between) && Some(list[i].id) == selected
}

/// The song under the pointer, rather one that is not selected yet.
pub open spec fn band_at(
    list: Seq<SongView>,
    selected: Option<u64>,
    between: Option<(usize, usize)>,
) -> Option<u64> {
    match between {
        Some(b) => match other_band(list, selected, b, 0) {
            Some(id) => Some(id),
            None => if selected_band(list, selected, b) {
                selected
            } else {
                None
            },
        },
        None => None,
    }
}

/// The song under the pointer.
pub fn hit_song_band(list: &Vec<Song>, selected: Option<u64>, between: Option<(usize, usize)>) -> (r:
    Option<u64>)
    ensures
        r == band_at(project::songs_view(list@), selected, between),
{
    let (low, high): (usize, usize) = match between {
        Some(b) => b,
        None => {
            return None;
        },
    };
    let ghost v = project::songs_view(list@);
    let ghost b = (low, high);
    let mut fallback: Option<u64> = None;
    let mut i: usize = 0;
    while i < list.len()
        invariant
            i <= list@.len() == v.len(),
            v == project::songs_view(list@),
            b == (low, high),
            between == Some(b),
            other_band(v, selected, b, 0) == other_band(v, selected, b, i as nat),
            fallback is Some ==> fallback == selected && selected_band(v, selected, b),
            fallback is None ==> forall|k: int|
                0 <= k < i ==> !(under(#[trigger] v[k], b) && Some(v[k].id) == selected),
        decreases list.len() - i,
    {
        let s = &list[i];
        assert(v[i as int] == s@);
        if s.start <= low && high <= s.end {
            let other = match selected {
                Some(id) => s.id != id,
                None => true,
            };
            if other {
                return Some(s.id);
            }
            fallback = Some(s.id);
        }
        i += 1;
    }
    fallback
}

/// The drag that starts at the edge of the selected song.
pub open spec fn song_drag(id: u64, edge: Edge) -> Drag {
    match edge {
        Edge::Start => Drag::SongStart(id),
        Edge::End => Drag::SongEnd(id),
    }
}

/// The drag that starts at the edge of a track.
pub open spec fn track_drag(id: u64, ch: usize, edge: Edge) -> Drag {
    match edge {
        Edge::Start => Drag::TrackStart(id, ch),
        Edge::End => Drag::TrackEnd(id, ch),
    }
}

/// The id of the selected song, where there is one.
pub open spec fn selected_id(list: Seq<SongView>, selected: Option<u64>) -> Option<u64> {
    match selected {
        Some(id) => if songs::song_of(list, id) is Some {
            Some(id)
        } else {
            None
        },
        None => None,
    }
}

fn find_selected(list: &Vec<Song>, selected: Option<u64>) -> (r: Option<u64>)
    ensures
        r == selected_id(project::songs_view(list@), selected),
{
    match selected {
        Some(id) => {
            let p: usize = find_song(list, id);
            if p < list.len() {
                Some(id)
            } else {
                None
            }
        },
        None => None,
    }
}

/// The edge of the selected song under the pointer.
pub open spec fn song_edge_at(list: Seq<SongView>, selected: Option<u64>, spot: Spot) -> Option<
    Drag,
> {
    match (selected_id(list, selected), spot.song_edges) {
        (Some(id), Some(edges)) => match grabbed(edges) {
            Some(e) => Some(song_drag(id, e)),
            None => None,
        },
        _ => None,
    }
}

/// The edge of the selected song under the pointer.
pub fn hit_song_edge(list: &Vec<Song>, selected: Option<u64>, spot: &Spot) -> (r: Option<Drag>)
    ensures
        r == song_edge_at(project::songs_view(list@), selected, *spot),
{
    match (find_selected(list, selected), spot.song_edges) {
        (Some(id), Some(edges)) => match hit_edge(edges) {
            Some(Edge::Start) => Some(Drag::SongStart(id)),
            Some(Edge::End) => Some(Drag::SongEnd(id)),
            None => None,
        },
        _ => None,
    }
}

/// The edge of a track of the selected song under the pointer.
pub open spec fn track_edge_at(list: Seq<SongView>, selected: Option<u64>, spot: Spot) -> Option<
    Drag,
> {
    match (selected_id(list, selected), spot.lane, spot.track_edges) {
        (Some(id), Some(ch), Some(edges)) => match grabbed(edges) {
            Some(e) => Some(track_drag(id, ch, e)),
            None => None,
        },
        _ => None,
    }
}

/// The edge of a track of the selected song under the pointer.
pub fn hit_track_edge(list: &Vec<Song>, selected: Option<u64>, spot: &Spot) -> (r: Option<Drag>)
    ensures
        r == track_edge_at(project::songs_view(list@), selected, *spot),
{
    match (find_selected(list, selected), spot.lane, spot.track_edges) {
        (Some(id), Some(ch), Some(edges)) => match hit_edge(edges) {
            Some(Edge::Start) => Some(Drag::TrackStart(id, ch)),
            Some(Edge::End) => Some(Drag::TrackEnd(id, ch)),
            None => None,
        },
        _ => None,
    }
}

/// What a drag to a frame asks for. A start or end of a track that is dragged
/// back onto that of the song is gone.
pub open spec fn drag_asks(list: Seq<SongView>, drag: Drag, frame: usize) -> Option<Message> {
    match drag {
        Drag::SongStart(id) => Some(Message::MoveSongStart(id, frame)),
        Drag::SongEnd(id) => Some(Message::MoveSongEnd(id, frame)),
        Drag::TrackStart(id, ch) => match songs::song_of(list, id) {
            Some(s) => Some(
                Message::TrackStart(
                    id,
                    ch,
                    if frame > s.start {
                        Some(
                            if frame < s.end {
                                frame
                            } else {
                                s.end
                            },
                        )
                    } else {
                        None
                    },
                ),
            ),
            None => None,
        },
        Drag::TrackEnd(id, ch) => match songs::song_of(list, id) {
            Some(s) => Some(
                Message::TrackEnd(
                    id,
                    ch,
                    if frame < s.end {
                        Some(
                            if frame > s.start {
                                frame
                            } else {
                                s.start
                            },
                        )
                    } else {
                        None
                    },
                ),
            ),
            None => None,
        },
    }
}

/// What a drag to a frame asks for.
pub fn drag_message(list: &Vec<Song>, drag: Drag, frame: usize) -> (r: Option<Message>)
    ensures
        r == drag_asks(project::songs_view(list@), drag, frame),
{
    match drag {
        Drag::SongStart(id) => Some(Message::MoveSongStart(id, frame)),
        Drag::SongEnd(id) => Some(Message::MoveSongEnd(id, frame)),
        Drag::TrackStart(id, ch) => {
            let p: usize = find_song(list, id);
            if p >= list.len() {
                return None;
            }
            let s = &list[p];
            assert(project::songs_view(list@)[p as int] == s@);
            let value: Option<usize> = if frame > s.start {
                Some(
                    if frame < s.end {
                        frame
                    } else {
                        s.end
                    },
                )
            } else {
                None
            };
            Some(Message::TrackStart(id, ch, value))
        },
        Drag::TrackEnd(id, ch) => {
            let p: usize = find_song(list, id);
            if p >= list.len() {
                return None;
            }
            let s = &list[p];
            assert(project::songs_view(list@)[p as int] == s@);
            let value: Option<usize> = if frame < s.end {
                Some(
                    if frame > s.start {
                        frame
                    } else {
                        s.start
                    },
                )
            } else {
                None
            };
            Some(Message::TrackEnd(id, ch, value))
        },
    }
}

/// What a press of the pointer comes to: the state of the pointer, and the
/// reaction.
pub open spec fn pressed(
    state: WfState,
    list: Seq<SongView>,
    selected: Option<u64>,
    spot: Spot,
    double: bool,
) -> (WfState, Reaction) {
    let playhead = Some(Message::SetPlayhead(spot.frame));
    if spot.in_strip {
        match song_edge_at(list, selected, spot) {
            Some(drag) => (
                WfState { dragging: Some(drag), ..state },
                Reaction { captured: true, message: None, clicked: false },
            ),
            None => {
                let band = if spot.in_bands {
                    band_at(list, selected, spot.between)
                } else {
                    None
                };
                let message = if band is Some && band != selected {
                    Some(Message::SelectSong(band))
                } else {
                    playhead
                };
                (state, Reaction { captured: true, message, clicked: false })
            },
        }
    } else {
        match track_edge_at(list, selected, spot) {
            Some(drag) => (
                WfState { dragging: Some(drag), ..state },
                Reaction { captured: true, message: None, clicked: false },
            ),
            None => match (selected_id(list, selected), spot.lane) {
                (Some(id), Some(ch)) if double => (
                    state,
                    Reaction {
                        captured: true,
                        message: Some(Message::ToggleTrackActive(id, ch)),
                        clicked: true,
                    },
                ),
                _ => (
                    WfState { scrubbing: true, ..state },
                    Reaction { captured: true, message: playhead, clicked: true },
                ),
            },
        }
    }
}

/// What the wheel means.
#[derive(Clone, Copy, Debug, PartialEq, Eq, Structural)]
pub enum WheelStep {
    /// Move along by the sideways turn of the wheel.
    PanSideways,
    /// Move along by the turn of the wheel.
    Pan,
    ZoomIn,
    ZoomOut,
}

/// What the pointer looks like.
#[derive(Clone, Copy, Debug, PartialEq, Eq, Structural)]
pub enum Look {
    Plain,
    Pointer,
    Grab,
    Grabbing,
    Resizing,
}

impl WfState {
    /// The left button goes down. `double` says whether it did so on the same
    /// spot a moment ago.
    pub fn press(&mut self, list: &Vec<Song>, selected: Option<u64>, spot: &Spot, double: bool) -> (r:
        Reaction)
        ensures
            (*final(self), r) == pressed(
                *old(self),
                project::songs_view(list@),
                selected,
                *spot,
                double,
            ),
    {
        let ghost v = project::songs_view(list@);
        if spot.in_strip {
            if let Some(drag) = hit_song_edge(list, selected, spot) {
                self.dragging = Some(drag);
                return Reaction { captured: true, message: None, clicked: false };
            }
            if spot.in_bands {
                if let Some(id) = hit_song_band(list, selected, spot.between) {
                    let other = match selected {
                        Some(s) => s != id,
                        None => true,
                    };
                    if other {
                        return Reaction {
                            captured: true,
                            message: Some(Message::SelectSong(Some(id))),
                            clicked: false,
                        };
                    }
                }
            }
            Reaction {
                captured: true,
                message: Some(Message::SetPlayhead(spot.frame)),
                clicked: false,
            }
        } else {
            if let Some(drag) = hit_track_edge(list, selected, spot) {
                self.dragging = Some(drag);
                return Reaction { captured: true, message: None, clicked: false };
            }
            if double {
                if let (Some(id), Some(ch)) = (find_selected(list, selected), spot.lane) {
                    return Reaction {
                        captured: true,
                        message: Some(Message::ToggleTrackActive(id, ch)),
                        clicked: true,
                    };
                }
            }
            self.scrubbing = true;
            Reaction {
                captured: true,
                message: Some(Message::SetPlayhead(spot.frame)),
                clicked: true,
            }
        }
    }

    /// The pointer moves to a frame: a drag goes on, or the playhead follows.
    pub fn moved(&self, list: &Vec<Song>, frame: usize) -> (r: Reaction)
        ensures
            r == match self.dragging {
                Some(drag) => (Reaction {
                    captured: true,
                    message: drag_asks(project::songs_view(list@), drag, frame),
                    clicked: false,
                }),
                None => if self.scrubbing {
                    (Reaction {
                        captured: true,
                        message: Some(Message::SetPlayhead(frame)),
                        clicked: false,
                    })
                } else {
                    (Reaction { captured: false, message: None, clicked: false })
                },
            },
    {
        match self.dragging {
            Some(drag) => Reaction {
                captured: true,
                message: drag_message(list, drag, frame),
                clicked: false,
            },
            None => if self.scrubbing {
                Reaction {
                    captured: true,
                    message: Some(Message::SetPlayhead(frame)),
                    clicked: false,
                }
            } else {
                Reaction { captured: false, message: None, clicked: false }
            },
        }
    }

    /// A button comes up.
    pub fn release(&mut self)
        ensures
            *final(self) == (WfState { dragging: None, scrubbing: false, ..*old(self) }),
    {
        self.dragging = None;
        self.scrubbing = false;
    }

    /// Shift is pressed or let go.
    pub fn set_shift(&mut self, shift: bool)
        ensures
            *final(self) == (WfState { shift, ..*old(self) }),
    {
        self.shift = shift;
    }

    /// What the wheel means: with shift held, or turned more sideways than up
    /// or down, it moves along, otherwise it zooms.
    pub fn wheel(&self, sideways: bool, up: bool) -> (r: WheelStep)
        ensures
            r == if sideways {
                WheelStep::PanSideways
            } else if self.shift {
                WheelStep::Pan
            } else if up {
                WheelStep::ZoomIn
            } else {
                WheelStep::ZoomOut
            },
    {
        if sideways {
            WheelStep::PanSideways
        } else if self.shift {
            WheelStep::Pan
        } else if up {
            WheelStep::ZoomIn
        } else {
            WheelStep::ZoomOut
        }
    }

    /// What the pointer looks like, at a spot or outside.
    pub fn mouse_interaction(&self, list: &Vec<Song>, selected: Option<u64>, spot: &Option<Spot>) -> (r:
        Look)
        ensures
            r == match (self.dragging, *spot) {
                (Some(Drag::SongStart(_)), _) => Look::Grabbing,
                (Some(Drag::SongEnd(_)), _) => Look::Grabbing,
                (Some(_), _) => Look::Resizing,
                (None, Some(p)) => {
                    let v = project::songs_view(list@);
                    if p.in_strip {
                        let band = band_at(v, selected, p.between);
                        if song_edge_at(v, selected, p) is Some {
                            Look::Grab
                        } else if p.in_bands && band is Some && band != selected {
                            Look::Pointer
                        } else {
                            Look::Plain
                        }
                    } else if track_edge_at(v, selected, p) is Some {
                        Look::Resizing
                    } else {
                        Look::Plain
                    }
                },
                (None, None) => Look::Plain,
            },
    {
        if let Some(drag) = self.dragging {
            return match drag {
                Drag::SongStart(_) => Look::Grabbing,
                Drag::SongEnd(_) => Look::Grabbing,
                _ => Look::Resizing,
            };
        }
        if let Some(p) = spot {
            if p.in_strip {
                if hit_song_edge(list, selected, p).is_some() {
                    return Look::Grab;
                }
                if p.in_bands {
                    if let Some(id) = hit_song_band(list, selected, p.between) {
                        let other = match selected {
                            Some(s) => s != id,
                            None => true,
                        };
                        if other {
                            return Look::Pointer;
                        }
                    }
                }
            } else if hit_track_edge(list, selected, p).is_some() {
                return Look::Resizing;
            }
        }
        Look::Plain
    }
}

/// Wherever it is pressed, no song under the pointer is selected twice: a
/// press asks for a song only where that song lies under the pointer and is
/// not selected.
pub proof fn law_press_selects_song_under_pointer(
    state: WfState,
    list: Seq<SongView>,
    selected: Option<u64>,
    spot: Spot,
    double: bool,
)
    ensures
        pressed(state, list, selected, spot, double).1.message matches Some(
            Message::SelectSong(asked),
        ) ==> asked != selected && (exists|i: int|
            0 <= i < list.len() && under(#[trigger] list[i], spot.between->0) && asked == Some(
                list[i].id,
            )),
{
    if spot.between is Some {
        lemma_other_band(list, selected, spot.between->0, 0);
    }
}

proof fn lemma_other_band(
    list: Seq<SongView>,
    selected: Option<u64>,
    between: (usize, usize),
    i: nat,
)
    ensures
        other_band(list, selected, between, i) matches Some(id) ==> Some(id) != selected && exists|
            k: int,
        |
            0 <= k < list.len() && under(#[trigger] list[k], between) && list[k].id == id,
    decreases list.len() - i,
{
    if i < list.len() {
        lemma_other_band(list, selected, between, i + 1);
    }
}

/// Whether an edge is within reach of the pointer: seven pixels.
pub open spec fn within_reach(distance: Single) -> bool {
    distance.at_most(Single { bits: 0x40e0_0000 })
}

proof fn lemma_listed(list: Seq<SongView>, id: u64, i: int)
    requires
        0 <= i < list.len(),
        list[i].id == id,
        forall|j: int| 0 <= j < i ==> (#[trigger] list[j]).id != id,
    ensures
        songs::song_of(list, id) == Some(list[i]),
        selected_id(list, Some(id)) == Some(id),
{
    songs::lemma_place(list, id);
    let p = songs::place_of(list, id);
    if p < i {
        assert(list[p].id != id);
    }
    if i < p {
        assert(list[i].id != id);
    }
}

/// The flags of the selected song are dragged: a press in the strip within reach of
/// the start of the song, and no nearer to its end, lets every move of the pointer
/// move the start of that song to the pointer; within reach of the end, and nearer
/// to it or not within reach of the start, it is the end that moves. Elsewhere
/// nothing is dragged.
pub proof fn law_flag_is_dragged(
    state: WfState,
    list: Seq<SongView>,
    id: u64,
    i: int,
    spot: Spot,
    double: bool,
    edges: Edges,
    frame: usize,
)
    requires
        0 <= i < list.len(),
        list[i].id == id,
        forall|j: int| 0 <= j < i ==> (#[trigger] list[j]).id != id,
        spot.in_strip,
        spot.song_edges == Some(edges),
    ensures
        ({
            let (after, r) = pressed(state, list, Some(id), spot, double);
            let at_start = within_reach(edges.start) && edges.start.at_most(edges.end);
            &&& at_start ==> {
                &&& after == (WfState { dragging: after.dragging, ..state })
                &&& after.dragging matches Some(d) && drag_asks(list, d, frame) == Some(
                    Message::MoveSongStart(id, frame),
                )
                &&& r.captured && r.message is None
            }
            &&& !at_start && within_reach(edges.end) ==> {
                &&& after == (WfState { dragging: after.dragging, ..state })
                &&& after.dragging matches Some(d) && drag_asks(list, d, frame) == Some(
                    Message::MoveSongEnd(id, frame),
                )
                &&& r.captured && r.message is None
            }
            &&& !at_start && !within_reach(edges.end) ==> after == state && r.message is Some
        }),
{
    lemma_listed(list, id, i);
}

/// The edges of a track of the selected song are dragged in its lane: within reach
/// of the start every move of the pointer sets where this track joins that song, and
/// within reach of the end where it leaves, at the pointer but not outside the song.
/// Dragged onto the edge of the song, the track has none of its own.
pub proof fn law_track_edge_is_dragged(
    state: WfState,
    list: Seq<SongView>,
    id: u64,
    i: int,
    spot: Spot,
    double: bool,
    ch: usize,
    edges: Edges,
    frame: usize,
)
    requires
        0 <= i < list.len(),
        list[i].id == id,
        forall|j: int| 0 <= j < i ==> (#[trigger] list[j]).id != id,
        !spot.in_strip,
        spot.lane == Some(ch),
        spot.track_edges == Some(edges),
    ensures
        ({
            let (after, r) = pressed(state, list, Some(id), spot, double);
            let song = list[i];
            let at_start = within_reach(edges.start) && edges.start.at_most(edges.end);
            &&& at_start ==> {
                &&& after == (WfState { dragging: after.dragging, ..state })
                &&& r.captured && r.message is None
                &&& after.dragging matches Some(d) && drag_asks(list, d, frame) matches Some(
                    Message::TrackStart(song_id, track, value),
                ) && {
                    &&& song_id == id && track == ch
                    &&& frame <= song.start ==> value is None
                    &&& song.start < frame <= song.end ==> value == Some(frame)
                    &&& song.start < frame && song.end < frame ==> value == Some(song.end)
                }
            }
            &&& !at_start && within_reach(edges.end) ==> {
                &&& after == (WfState { dragging: after.dragging, ..state })
                &&& r.captured && r.message is None
                &&& after.dragging matches Some(d) && drag_asks(list, d, frame) matches Some(
                    Message::TrackEnd(song_id, track, value),
                ) && {
                    &&& song_id == id && track == ch
                    &&& frame >= song.end ==> value is None
                    &&& song.start <= frame < song.end ==> value == Some(frame)
                    &&& frame < song.end && frame < song.start ==> value == Some(song.start)
                }
            }
            &&& !at_start && !within_reach(edges.end) ==> after.dragging == state.dragging
                && r.message is Some
        }),
{
    lemma_listed(list, id, i);
}

proof fn lemma_first_band(
    list: Seq<SongView>,
    selected: Option<u64>,
    between: (usize, usize),
    i: nat,
    k: int,
)
    requires
        i <= k < list.len(),
        list[k].start <= between.0 && between.1 <= list[k].end && Some(list[k].id) != selected,
        forall|j: int|
            i <= j < k ==> !((#[trigger] list[j]).start <= between.0 && between.1 <= list[j].end
                && Some(list[j].id) != selected),
    ensures
        other_band(list, selected, between, i) == Some(list[k].id),
    decreases k - i,
{
    if i < k {
        assert(!(list[i as int].start <= between.0 && between.1 <= list[i as int].end && Some(
            list[i as int].id,
        ) != selected));
        lemma_first_band(list, selected, between, i + 1, k);
    }
}

proof fn lemma_no_band(
    list: Seq<SongView>,
    selected: Option<u64>,
    between: (usize, usize),
    i: nat,
)
    requires
        forall|j: int|
            i <= j < list.len() ==> !((#[trigger] list[j]).start <= between.0 && between.1
                <= list[j].end && Some(list[j].id) != selected),
    ensures
        other_band(list, selected, between, i) is None,
    decreases list.len() - i,
{
    if i < list.len() {
        assert(!(list[i as int].start <= between.0 && between.1 <= list[i as int].end && Some(
            list[i as int].id,
        ) != selected));
        lemma_no_band(list, selected, between, i + 1);
    }
}

/// A press on the band of a song that is not selected, away from the flags of the
/// selected one, selects it: the first of the list where several overlap.
pub proof fn law_band_is_selected(
    state: WfState,
    list: Seq<SongView>,
    selected: Option<u64>,
    spot: Spot,
    double: bool,
    between: (usize, usize),
    k: int,
)
    requires
        spot.in_strip && spot.in_bands,
        spot.song_edges matches Some(e) ==> !within_reach(e.start) && !within_reach(e.end),
        spot.between == Some(between),
        0 <= k < list.len(),
        list[k].start <= between.0 && between.1 <= list[k].end && Some(list[k].id) != selected,
        forall|j: int|
            0 <= j < k ==> !((#[trigger] list[j]).start <= between.0 && between.1 <= list[j].end
                && Some(list[j].id) != selected),
    ensures
        ({
            let (after, r) = pressed(state, list, selected, spot, double);
            after == state && r.captured && r.message == Some(
                Message::SelectSong(Some(list[k].id)),
            )
        }),
{
    lemma_first_band(list, selected, between, 0, k);
}

/// A press anywhere else in the strip takes the playhead there.
pub proof fn law_press_in_strip_sets_playhead(
    state: WfState,
    list: Seq<SongView>,
    selected: Option<u64>,
    spot: Spot,
    double: bool,
)
    requires
        spot.in_strip,
        spot.song_edges matches Some(e) ==> !within_reach(e.start) && !within_reach(e.end),
        spot.in_bands ==> (spot.between matches Some(b) ==> forall|j: int|
            0 <= j < list.len() ==> !((#[trigger] list[j]).start <= b.0 && b.1 <= list[j].end
                && Some(list[j].id) != selected)),
    ensures
        ({
            let (after, r) = pressed(state, list, selected, spot, double);
            after == state && r.captured && r.message == Some(Message::SetPlayhead(spot.frame))
        }),
{
    if spot.in_bands {
        if let Some(b) = spot.between {
            lemma_no_band(list, selected, b, 0);
        }
    }
}

/// A press in a lane, away from the edges of its track, takes the playhead there and
/// lets it follow the pointer; a second one on the same spot makes the selected song
/// use the track or leave it out.
pub proof fn law_press_in_lane(
    state: WfState,
    list: Seq<SongView>,
    id: u64,
    i: int,
    spot: Spot,
    ch: usize,
)
    requires
        0 <= i < list.len(),
        list[i].id == id,
        forall|j: int| 0 <= j < i ==> (#[trigger] list[j]).id != id,
        !spot.in_strip,
        spot.lane == Some(ch),
        spot.track_edges matches Some(e) ==> !within_reach(e.start) && !within_reach(e.end),
    ensures
        ({
            let (after, r) = pressed(state, list, Some(id), spot, false);
            &&& after == (WfState { scrubbing: true, ..state })
            &&& r.captured && r.clicked
            &&& r.message == Some(Message::SetPlayhead(spot.frame))
        }),
        ({
            let (after, r) = pressed(state, list, Some(id), spot, true);
            &&& after == state
            &&& r.captured && r.clicked
            &&& r.message == Some(Message::ToggleTrackActive(id, ch))
        }),
{
    lemma_listed(list, id, i);
}

/// A lane is drawn as unused where the selected song does not use the track or the
/// track has no frame, and else as used in just the frames in which it is heard.
pub proof fn law_lane_shows_range(song: SongView, ch: int, start: usize, end: usize)
    requires
        0 <= ch < song.tracks.len(),
        song.start <= song.end,
        mix::runs(song, ch, start, end),
    ensures
        !song.tracks[ch].active || end <= start ==> shade_of(Some(song), ch) is Unused,
        song.tracks[ch].active && start < end ==> shade_of(Some(song), ch) == (LaneShade::Used {
            start,
            end,
            own_start: song.tracks[ch].start is Some,
            own_end: song.tracks[ch].end is Some,
        }),
{
}

/// The least and the greatest sample of the frames `[begin, end)` of a track:
/// by the peaks as far as they lie inside, by the samples at both ends. Without
/// a frame it is silence.
pub fn min_max(audio: &AudioData, ch: usize, begin: usize, end: usize) -> (r: (Single, Single))
    requires
        audio.well_formed(),
        ch < audio.tracks@.len(),
        end <= begin || end <= audio.frame_count(),
    ensures
        end <= begin ==> r == (single::zero(), single::zero()),
        begin < end ==> r == (
            audio::lowest(audio.tracks@[ch as int]@.subrange(begin as int, end as int)),
            audio::highest(audio.tracks@[ch as int]@.subrange(begin as int, end as int)),
        ),
{
    if end <= begin {
        return (Single { bits: ZERO_BITS }, Single { bits: ZERO_BITS });
    }
    let ghost track = audio.tracks@[ch as int]@;
    proof {
        assert(audio.samples()[ch as int].len() == audio.frame_count());
        assert(audio::peaks_view(audio.peaks@).len() == audio.tracks@.len());
        assert(audio::peaks_view(audio.peaks@)[ch as int] == audio.peaks@[ch as int]@);
        assert(audio.peaks@[ch as int]@ == audio::peaks_of(track));
    }
    let mut first: usize = begin / PEAK_BIN;
    if begin % PEAK_BIN > 0 {
        first += 1;
    }
    let last: usize = end / PEAK_BIN;
    if first >= last {
        return extremes(&audio.tracks[ch], begin, end);
    }
    let peaks = &audio.peaks[ch];
    let (mut lo, mut hi): (Single, Single) = extremes(&audio.tracks[ch], begin, first * PEAK_BIN);
    let mut i: usize = first;
    while i < last
        invariant
            first <= i <= last,
            begin <= first * PEAK_BIN,
            last * PEAK_BIN <= end <= track.len(),
            peaks@ == audio::peaks_of(track),
            lo == audio::lowest(track.subrange(begin as int, i * PEAK_BIN)),
            hi == audio::highest(track.subrange(begin as int, i * PEAK_BIN)),
        decreases last - i,
    {
        proof {
            let before = track.subrange(begin as int, i * PEAK_BIN);
            let inside = audio::bin(track, i as int);
            audio::lemma_not_nan(before);
            audio::lemma_extremes_join(before, inside);
            assert(before + inside =~= track.subrange(begin as int, (i + 1) * PEAK_BIN));
        }
        lo = lo.min(peaks[i].0);
        hi = hi.max(peaks[i].1);
        i += 1;
    }
    let (low, high): (Single, Single) = extremes(&audio.tracks[ch], last * PEAK_BIN, end);
    proof {
        let before = track.subrange(begin as int, last * PEAK_BIN);
        let rest = track.subrange(last * PEAK_BIN, end as int);
        audio::lemma_not_nan(before);
        audio::lemma_extremes_join(before, rest);
        assert(before + rest =~= track.subrange(begin as int, end as int));
    }
    (lo.min(low), hi.max(high))
}

/// The frames that a column of the waveform stands for: those from `begin` up
/// to `last`, one at least, as far as the recording goes.
pub fn column_range(begin: usize, last: usize, frames: usize) -> (r: (usize, usize))
    requires
        begin < frames,
    ensures
        r.0 == begin,
        r.1 == if last <= begin {
            begin + 1
        } else if last < frames {
            last as int
        } else {
            frames as int
        },
{
    if last <= begin {
        (begin, begin + 1)
    } else if last < frames {
        (begin, last)
    } else {
        (begin, frames)
    }
}

/// The distances between the ticks of the time ruler, in hundredths of a
/// second.
pub open spec fn tick_steps() -> Seq<u32> {
    seq![
        1u32,
        2,
        5,
        10,
        20,
        50,
        100,
        200,
        500,
        1000,
        1500,
        3000,
        6000,
        12000,
        30000,
        60000,
        120000,
        180000,
    ]
}

/// The distance between the ticks of the time ruler: the first that is wide
/// enough, an hour where none is.
pub fn tick_step<F: Fn(u32) -> bool>(wide_enough: F) -> (r: u32)
    requires
        forall|t: u32| wide_enough.requires((t,)),
    ensures
        (exists|i: int|
            0 <= i < tick_steps().len() && r == #[trigger] tick_steps()[i] && wide_enough.ensures(
                (r,),
                true,
            ) && (forall|j: int|
                0 <= j < i ==> wide_enough.ensures((#[trigger] tick_steps()[j],), false))) || (r
            == 360000 && (forall|j: int|
            0 <= j < tick_steps().len() ==> wide_enough.ensures(
                (#[trigger] tick_steps()[j],),
                false,
            ))),
{
    let steps: [u32; 18] = [
        1,
        2,
        5,
        10,
        20,
        50,
        100,
        200,
        500,
        1000,
        1500,
        3000,
        6000,
        12000,
        30000,
        60000,
        120000,
        180000,
    ];
    assert(steps@ =~= tick_steps());
    let mut i: usize = 0;
    while i < 18
        invariant
            i <= 18,
            steps@ == tick_steps(),
            tick_steps().len() == 18,
            forall|t: u32| wide_enough.requires((t,)),
            forall|j: int|
                0 <= j < i ==> wide_enough.ensures((#[trigger] tick_steps()[j],), false),
        decreases 18 - i,
    {
        let t: u32 = steps[i];
        assert(tick_steps()[i as int] == t);
        if wide_enough(t) {
            return t;
        }
        i += 1;
    }
    360000
}

/// The label of a tick at a whole second: minutes and seconds.
pub fn tick_label(seconds: u64) -> (r: String)
    ensures
        r@ == text::decimal((seconds / 60) as nat) + ":"@ + text::padded((seconds % 60) as nat, 2),
{
    let mut label = decimal_text(seconds / 60);
    label.append(":");
    label.append(padded_text(seconds % 60, 2).as_str());
    label
}

/// How a lane is drawn.
#[derive(Clone, Copy, Debug)]
pub enum LaneShade {
    /// No song is selected.
    Plain,
    /// The selected song does not use the track.
    Unused,
    /// The selected song uses the track in this range; whether its start and
    /// its end are its own.
    Used { start: usize, end: usize, own_start: bool, own_end: bool },
}

/// How a lane is drawn.
pub open spec fn shade_of(song: Option<SongView>, ch: int) -> LaneShade {
    match song {
        None => LaneShade::Plain,
        Some(s) => match s.range(ch) {
            None => LaneShade::Unused,
            Some((start, end)) => LaneShade::Used {
                start,
                end,
                own_start: s.tracks[ch].start is Some,
                own_end: s.tracks[ch].end is Some,
            },
        },
    }
}

/// How a lane is drawn.
pub fn lane_shade(song: Option<&Song>, ch: usize) -> (r: LaneShade)
    requires
        song matches Some(s) ==> s@.clampable(),
    ensures
        r == shade_of(
            match song {
                Some(s) => Some(s@),
                None => None,
            },
            ch as int,
        ),
{
    match song {
        None => LaneShade::Plain,
        Some(s) => match s.track_range(ch) {
            None => LaneShade::Unused,
            Some((start, end)) => {
                let t = s.tracks[ch];
                LaneShade::Used {
                    start,
                    end,
                    own_start: t.start.is_some(),
                    own_end: t.end.is_some(),
                }
            },
        },
    }
}

/// The label of a lane: the name of the track, and whether the selected song
/// leaves it out.
pub fn lane_label(track_names: &[String], ch: usize, shade: &LaneShade) -> (r: String)
    requires
        ch < usize::MAX,
    ensures
        ({
            let name = if ch < track_names@.len() {
                track_names@[ch as int]@
            } else {
                "Track "@ + text::decimal((ch + 1) as nat)
            };
            r@ == if shade is Unused {
                name + "  (not used)"@
            } else {
                name
            }
        }),
{
    let mut label = if ch < track_names.len() {
        track_names[ch].clone()
    } else {
        plain_name(ch)
    };
    if let LaneShade::Unused = shade {
        label.append("  (not used)");
    }
    label
}

/// The label of a song band: its number, and its title where it has one.
pub fn band_label(number: usize, title: &str) -> (r: String)
    ensures
        r@ == if title@.len() == 0 {
            text::padded(number as nat, 2)
        } else {
            text::padded(number as nat, 2) + " "@ + title@
        },
{
    let mut label = padded_text(number as u64, 2);
    if title.unicode_len() > 0 {
        label.append(" ");
        label.append(title);
    }
    label
}

/// The ticks of the ruler get wider step by step, from a hundredth of a second to half
/// an hour.
pub proof fn law_ticks_get_wider(i: int, j: int)
    requires
        0 <= i < j < tick_steps().len(),
    ensures
        tick_steps()[i] < tick_steps()[j],
        tick_steps()[0] == 1,
        tick_steps().last() == 180000,
{
}

/// Without a selected song nothing is dragged: a press in the strip selects a song or
/// sets the playhead, and one in a lane sets the playhead and lets it follow.
pub proof fn law_nothing_is_dragged_without_song(
    state: WfState,
    list: Seq<SongView>,
    selected: Option<u64>,
    spot: Spot,
    double: bool,
)
    requires
        selected matches Some(id) ==> forall|i: int|
            0 <= i < list.len() ==> (#[trigger] list[i]).id != id,
    ensures
        ({
            let (after, r) = pressed(state, list, selected, spot, double);
            &&& after.dragging == state.dragging
            &&& r.captured && r.message is Some
            &&& spot.in_strip ==> after == state
            &&& !spot.in_strip ==> after.scrubbing && r.message == Some(
                Message::SetPlayhead(spot.frame),
            )
        }),
{
    if let Some(id) = selected {
        songs::lemma_place(list, id);
    }
}

}
