use multi_track_split::message::Message;
use multi_track_split::player::{
    choose_device, Cmd, DeviceChoice, MixSource, NextSample, Player, PlayerStep, BLOCK_FRAMES,
};
use multi_track_split::project::Song;
use multi_track_split::single::Single;
use multi_track_split::waveform::{
    band_label, column_range, drag_message, hit_edge, hit_song_band, lane_label, lane_shade,
    tick_label, tick_step, Drag, Edge, Edges, LaneShade, Look, Spot, WfState, WheelStep,
};

fn edges(start: f32, end: f32) -> Edges {
    Edges { start: Single { bits: start.to_bits() }, end: Single { bits: end.to_bits() } }
}

fn songs() -> Vec<Song> {
    vec![
        Song::new(3, "a".to_string(), 100, 200, 2),
        Song::new(5, String::new(), 150, 300, 2),
    ]
}

fn spot() -> Spot {
    Spot {
        frame: 160,
        in_strip: true,
        in_bands: true,
        song_edges: None,
        between: Some((160, 161)),
        lane: None,
        track_edges: None,
    }
}

fn asked(m: Option<Message>) -> String {
    m.map(|m| format!("{m:?}")).unwrap_or_default()
}

#[test]
fn nearer_edge_is_grabbed() {
    assert_eq!(hit_edge(edges(3.0, 5.0)), Some(Edge::Start));
    assert_eq!(hit_edge(edges(5.0, 3.0)), Some(Edge::End));
    assert_eq!(hit_edge(edges(4.0, 4.0)), Some(Edge::Start));
    assert_eq!(hit_edge(edges(7.0, 100.0)), Some(Edge::Start));
    assert_eq!(hit_edge(edges(7.5, 7.0)), Some(Edge::End));
    assert_eq!(hit_edge(edges(7.1, 7.1)), None);
    assert_eq!(hit_edge(edges(f32::NAN, 1.0)), Some(Edge::End));
}

#[test]
fn bands_prefer_other_songs() {
    let list = songs();
    assert_eq!(hit_song_band(&list, None, Some((160, 161))), Some(3));
    assert_eq!(hit_song_band(&list, Some(3), Some((160, 161))), Some(5));
    assert_eq!(hit_song_band(&list, Some(3), Some((120, 121))), Some(3));
    assert_eq!(hit_song_band(&list, Some(3), Some((200, 201))), Some(5));
    assert_eq!(hit_song_band(&list, Some(5), Some((300, 300))), Some(5));
    assert_eq!(hit_song_band(&list, Some(5), Some((300, 301))), None);
    assert_eq!(hit_song_band(&list, None, None), None);
}

#[test]
fn presses_in_the_strip() {
    let list = songs();
    let mut state = WfState::default();
    let r = state.press(&list, Some(3), &spot(), false);
    assert_eq!((asked(r.message), r.captured), ("SelectSong(Some(5))".to_string(), true));
    let ruler = Spot { in_bands: false, ..spot() };
    let r = state.press(&list, Some(3), &ruler, false);
    assert_eq!(asked(r.message), "SetPlayhead(160)");
    let edge = Spot { song_edges: Some(edges(90.0, 2.0)), ..spot() };
    let r = state.press(&list, Some(3), &edge, false);
    assert!(r.message.is_none() && r.captured && !r.clicked);
    assert_eq!(state.dragging, Some(Drag::SongEnd(3)));
    assert_eq!(asked(state.moved(&list, 170).message), "MoveSongEnd(3, 170)");
    state.release();
    assert_eq!(state, WfState::default());
    assert!(!state.moved(&list, 170).captured);
    let mut state = WfState::default();
    let r = state.press(&list, Some(9), &edge, false);
    assert_eq!(asked(r.message), "SelectSong(Some(3))");
}

#[test]
fn presses_in_the_lanes() {
    let list = songs();
    let lane = Spot { in_strip: false, lane: Some(1), ..spot() };
    let mut state = WfState::default();
    let r = state.press(&list, Some(3), &lane, false);
    assert_eq!((asked(r.message), r.clicked), ("SetPlayhead(160)".to_string(), true));
    assert!(state.scrubbing);
    assert_eq!(asked(state.moved(&list, 7).message), "SetPlayhead(7)");
    state.release();
    let r = state.press(&list, Some(3), &lane, true);
    assert_eq!(asked(r.message), "ToggleTrackActive(3, 1)");
    assert!(!state.scrubbing);
    let r = state.press(&list, None, &lane, true);
    assert_eq!(asked(r.message), "SetPlayhead(160)");
    let edge = Spot { track_edges: Some(edges(1.0, 2.0)), ..lane };
    let mut state = WfState::default();
    state.press(&list, Some(3), &edge, false);
    assert_eq!(state.dragging, Some(Drag::TrackStart(3, 1)));
    assert_eq!(state.mouse_interaction(&list, Some(3), &None), Look::Resizing);
}

#[test]
fn drags_ask_for_moves() {
    let list = songs();
    let ask = |drag, frame| asked(drag_message(&list, drag, frame));
    assert_eq!(ask(Drag::SongStart(3), 5), "MoveSongStart(3, 5)");
    assert_eq!(ask(Drag::TrackStart(3, 1), 150), "TrackStart(3, 1, Some(150))");
    assert_eq!(ask(Drag::TrackStart(3, 1), 900), "TrackStart(3, 1, Some(200))");
    assert_eq!(ask(Drag::TrackStart(3, 1), 100), "TrackStart(3, 1, None)");
    assert_eq!(ask(Drag::TrackEnd(3, 1), 150), "TrackEnd(3, 1, Some(150))");
    assert_eq!(ask(Drag::TrackEnd(3, 1), 5), "TrackEnd(3, 1, Some(100))");
    assert_eq!(ask(Drag::TrackEnd(3, 1), 200), "TrackEnd(3, 1, None)");
    assert_eq!(ask(Drag::TrackEnd(9, 1), 200), "");
}

#[test]
fn pointer_looks() {
    let list = songs();
    let state = WfState::default();
    let look = |s: Spot| state.mouse_interaction(&list, Some(3), &Some(s));
    assert_eq!(look(spot()), Look::Pointer);
    assert_eq!(look(Spot { in_bands: false, ..spot() }), Look::Plain);
    assert_eq!(look(Spot { song_edges: Some(edges(0.0, 9.0)), ..spot() }), Look::Grab);
    let lane = Spot { in_strip: false, lane: Some(0), ..spot() };
    assert_eq!(look(lane), Look::Plain);
    assert_eq!(look(Spot { track_edges: Some(edges(9.0, 0.0)), ..lane }), Look::Resizing);
    assert_eq!(state.mouse_interaction(&list, Some(3), &None), Look::Plain);
    let dragging = WfState { dragging: Some(Drag::SongStart(3)), ..state };
    assert_eq!(dragging.mouse_interaction(&list, None, &None), Look::Grabbing);
}

#[test]
fn wheel_zooms_or_moves() {
    let mut state = WfState::default();
    assert_eq!(state.wheel(false, true), WheelStep::ZoomIn);
    assert_eq!(state.wheel(false, false), WheelStep::ZoomOut);
    assert_eq!(state.wheel(true, true), WheelStep::PanSideways);
    state.set_shift(true);
    assert_eq!(state.wheel(false, true), WheelStep::Pan);
}

#[test]
fn rulers_and_labels() {
    assert_eq!(tick_step(|_| true), 1);
    assert_eq!(tick_step(|t| t >= 51), 100);
    assert_eq!(tick_step(|t| t >= 180000), 180000);
    assert_eq!(tick_step(|_| false), 360000);
    assert_eq!(tick_label(125), "2:05");
    assert_eq!(tick_label(3600), "60:00");
    assert_eq!(band_label(4, ""), "04");
    assert_eq!(band_label(4, "x"), "04 x");
    assert_eq!(column_range(5, 5, 10), (5, 6));
    assert_eq!(column_range(5, 8, 10), (5, 8));
    assert_eq!(column_range(5, 80, 10), (5, 10));
    let names = vec!["Kick".to_string()];
    assert_eq!(lane_label(&names, 0, &LaneShade::Plain), "Kick");
    assert_eq!(lane_label(&names, 1, &LaneShade::Unused), "Track 2  (not used)");
    let mut list = songs();
    list[0].tracks[1].start = Some(120);
    assert!(matches!(lane_shade(None, 0), LaneShade::Plain));
    assert!(matches!(
        lane_shade(Some(&list[0]), 1),
        LaneShade::Used { start: 120, end: 200, own_start: true, own_end: false }
    ));
    assert!(matches!(lane_shade(Some(&list[0]), 2), LaneShade::Unused));
}

#[test]
fn whole_range_is_played() {
    let mut source = MixSource::new(1000, 100, 5000);
    let mut samples = 0;
    let mut next = 100;
    let mut block = 0;
    loop {
        match source.advance() {
            NextSample::End => break,
            NextSample::Render { from, to } => {
                assert_eq!(from, next);
                assert!(to - from <= BLOCK_FRAMES);
                next = to;
                block = 1;
            }
            NextSample::Take(i) => {
                assert_eq!(i, block);
                block += 1;
            }
        }
        samples += 1;
    }
    assert_eq!((samples, next), (1800, 1000));
    assert_eq!(source.advance(), NextSample::End);
    assert_eq!(MixSource::new(1000, 2000, 500).advance(), NextSample::End);
}

#[test]
fn player_commands() {
    let names = |steps: Vec<PlayerStep>| {
        steps.iter().map(|s| format!("{s:?}")).collect::<Vec<_>>().join(" ")
    };
    let (mut player, steps) = Player::new();
    assert_eq!(names(steps), "OpenStream(None)");
    assert_eq!(names(player.command(Cmd::Play)), "OpenStream(None) StartSink");
    player.stream_opened(true);
    player.sink_started(true);
    assert_eq!(names(player.command(Cmd::Play)), "StopSink StartSink");
    player.sink_started(true);
    assert_eq!(names(player.command(Cmd::Stop)), "StopSink");
    assert_eq!(names(player.command(Cmd::Stop)), "");
    player.sink_started(true);
    assert_eq!(
        names(player.command(Cmd::SetDevice(Some("X".to_string())))),
        "StopSink CloseStream OpenStream(Some(\"X\"))"
    );
    player.stream_opened(false);
    assert_eq!(names(player.command(Cmd::Play)), "OpenStream(Some(\"X\")) StartSink");
}

#[test]
fn devices_are_found_by_name() {
    let listed = Some(vec![None, Some("A".to_string()), Some("B".to_string())]);
    let wanted = |n: &str| Some(n.to_string());
    assert_eq!(choose_device(&None, &None), DeviceChoice::Default);
    assert_eq!(choose_device(&wanted("B"), &listed), DeviceChoice::Listed(2));
    assert_eq!(choose_device(&wanted("C"), &listed), DeviceChoice::Missing);
    assert_eq!(choose_device(&wanted("B"), &None), DeviceChoice::Unavailable);
}
