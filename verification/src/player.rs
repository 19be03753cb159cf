//! Playback: which blocks of the mix are rendered in turn, and what becomes of
//! the output device as commands come in.

use crate::text;
use crate::text::same_text;
use vstd::prelude::*;
use vstd::string::*;

verus! {

/// How many frames are rendered at a time; a few thousandths of a second, so
/// changes to the mix are heard almost at once.
pub const BLOCK_FRAMES: usize = 256;

/// Where the playback of a range stands: the next frame to render, and the
/// next sample to hand out of the block rendered last.
#[derive(Clone, Copy, Debug, PartialEq, Eq, Structural)]
pub struct MixSource {
    pub frame: usize,
    pub end: usize,
    /// How many samples the last block has, two per frame.
    pub filled: usize,
    pub pos: usize,
}

/// What to do for the next sample.
#[derive(Clone, Copy, Debug, PartialEq, Eq, Structural)]
pub enum NextSample {
    /// The range is over.
    End,
    /// Render the frames `[from, to)` as the new block, and take its first
    /// sample.
    Render { from: usize, to: usize },
    /// Take the sample of the block at this index.
    Take(usize),
}

impl MixSource {
    /// The block is never longer than it may be, and the range is in order.
    pub open spec fn well_formed(self) -> bool {
        &&& self.frame <= self.end
        &&& self.pos <= self.filled <= 2 * BLOCK_FRAMES
    }

    /// How many samples are still to come, two per frame.
    pub open spec fn remaining(self) -> int {
        self.filled - self.pos + 2 * (self.end - self.frame)
    }

    /// The playback of the frames `[start, end)` of a recording.
    pub fn new(frames: usize, start: usize, end: usize) -> (r: Self)
        ensures
            r.well_formed(),
            r.end == if end < frames { end } else { frames },
            r.frame == if start < r.end { start } else { r.end },
            r.filled == 0,
            r.pos == 0,
    {
        let end: usize = if end < frames {
            end
        } else {
            frames
        };
        let frame: usize = if start < end {
            start
        } else {
            end
        };
        MixSource { frame, end, filled: 0, pos: 0 }
    }

    /// The end of the block that is rendered next.
    pub open spec fn block_end(self) -> usize {
        if self.end - self.frame > BLOCK_FRAMES {
            (self.frame + BLOCK_FRAMES) as usize
        } else {
            self.end
        }
    }

    /// What to do for the next sample, and where playback stands then.
    pub open spec fn advanced(self) -> (NextSample, MixSource) {
        if self.pos < self.filled {
            (NextSample::Take(self.pos), MixSource { pos: (self.pos + 1) as usize, ..self })
        } else if self.frame >= self.end {
            (NextSample::End, self)
        } else {
            (
                NextSample::Render { from: self.frame, to: self.block_end() },
                MixSource {
                    frame: self.block_end(),
                    end: self.end,
                    filled: (2 * (self.block_end() - self.frame)) as usize,
                    pos: 1,
                },
            )
        }
    }

    /// Where playback stands after `k` samples were asked for.
    pub open spec fn after(self, k: nat) -> MixSource
        decreases k,
    {
        if k == 0 {
            self
        } else {
            self.after((k - 1) as nat).advanced().1
        }
    }

    /// The first frame of the block rendered last.
    pub open spec fn block_start(self) -> int {
        self.frame - self.filled as int / 2
    }

    /// What to do for the next sample.
    pub fn advance(&mut self) -> (r: NextSample)
        requires
            old(self).well_formed(),
        ensures
            final(self).well_formed(),
            (r, *final(self)) == old(self).advanced(),
            r == NextSample::End <==> old(self).remaining() == 0,
            r != NextSample::End ==> final(self).remaining() == old(self).remaining() - 1,
    {
        if self.pos < self.filled {
            let i: usize = self.pos;
            self.pos = i + 1;
            return NextSample::Take(i);
        }
        if self.frame >= self.end {
            return NextSample::End;
        }
        let from: usize = self.frame;
        let to: usize = if self.end - from > BLOCK_FRAMES {
            from + BLOCK_FRAMES
        } else {
            self.end
        };
        self.frame = to;
        self.filled = 2 * (to - from);
        self.pos = 1;
        NextSample::Render { from, to }
    }
}

proof fn lemma_after(s: MixSource, k: nat)
    requires
        s.frame <= s.end,
        s.filled == 0,
        s.pos == 0,
        k <= 2 * (s.end - s.frame),
    ensures
        ({
            let t = s.after(k);
            &&& t.well_formed()
            &&& t.end == s.end
            &&& t.filled as int % 2 == 0
            &&& 2 * t.frame - t.filled + t.pos == 2 * s.frame + k
        }),
    decreases k,
{
    if k > 0 {
        lemma_after(s, (k - 1) as nat);
    }
}

proof fn lemma_after_end(s: MixSource, k: nat)
    requires
        s.frame <= s.end,
        s.filled == 0,
        s.pos == 0,
        k >= 2 * (s.end - s.frame),
    ensures
        s.after(k).advanced().0 == NextSample::End,
    decreases k,
{
    if k == 2 * (s.end - s.frame) {
        lemma_after(s, k);
    } else {
        lemma_after_end(s, (k - 1) as nat);
    }
}

/// The whole range is played, two samples per frame, in order, without a gap
/// and without anything twice: sample `k` of the range is what is handed out
/// when the sample `k` is asked for, as the first of a new block that starts at
/// its frame, or out of the block that was rendered last. Behind the range
/// there is nothing.
pub proof fn law_range_played_once(s: MixSource, k: nat)
    requires
        s.frame <= s.end,
        s.filled == 0,
        s.pos == 0,
    ensures
        ({
            let t = s.after(k);
            let (next, u) = t.advanced();
            if k < 2 * (s.end - s.frame) {
                match next {
                    NextSample::Render { from, to } => {
                        &&& 2 * from == 2 * s.frame + k
                        &&& from < to <= s.end
                        &&& u.block_start() == from
                        &&& u.filled == 2 * (to - from)
                    },
                    NextSample::Take(i) => {
                        &&& 2 * t.block_start() + i == 2 * s.frame + k
                        &&& i < t.filled
                        &&& u.block_start() == t.block_start()
                        &&& u.filled == t.filled
                    },
                    NextSample::End => false,
                }
            } else {
                next == NextSample::End
            }
        }),
{
    if k < 2 * (s.end - s.frame) {
        lemma_after(s, k);
    } else {
        lemma_after_end(s, k);
    }
}

/// What the player is told.
#[derive(Debug)]
pub enum Cmd {
    Play,
    Stop,
    /// Play on this device; none is the one that the system picks.
    SetDevice(Option<String>),
}

/// What the player does, in this order.
#[derive(Debug)]
pub enum PlayerStep {
    /// Stop what is playing.
    StopSink,
    /// Give the output device back.
    CloseStream,
    /// Open the output device with this name.
    OpenStream(Option<String>),
    /// Play, if the output device is open.
    StartSink,
}

pub enum PlayerStepView {
    StopSink,
    CloseStream,
    OpenStream(Option<Seq<char>>),
    StartSink,
}

impl View for PlayerStep {
    type V = PlayerStepView;

    open spec fn view(&self) -> PlayerStepView {
        match *self {
            PlayerStep::StopSink => PlayerStepView::StopSink,
            PlayerStep::CloseStream => PlayerStepView::CloseStream,
            PlayerStep::OpenStream(name) => PlayerStepView::OpenStream(text::opt_text(name)),
            PlayerStep::StartSink => PlayerStepView::StartSink,
        }
    }
}

pub open spec fn steps_view(v: Seq<PlayerStep>) -> Seq<PlayerStepView> {
    v.map_values(|s: PlayerStep| s@)
}

/// What the player has in its hands.
#[derive(Debug)]
pub struct Player {
    /// The device that was asked for.
    pub device: Option<String>,
    /// Whether the output device is open.
    pub stream_open: bool,
    /// Whether something plays.
    pub sink_open: bool,
}

fn copy_name(name: &Option<String>) -> (r: Option<String>)
    ensures
        text::opt_text(r) == text::opt_text(*name),
{
    match name {
        Some(n) => Some(n.clone()),
        None => None,
    }
}

/// What a command comes to.
pub open spec fn steps_for(
    cmd: Cmd,
    device: Option<Seq<char>>,
    stream_open: bool,
    sink_open: bool,
) -> Seq<PlayerStepView> {
    let stop = if sink_open {
        seq![PlayerStepView::StopSink]
    } else {
        Seq::empty()
    };
    match cmd {
        Cmd::Stop => stop,
        Cmd::Play => if stream_open {
            stop.push(PlayerStepView::StartSink)
        } else {
            stop.push(PlayerStepView::OpenStream(device)).push(PlayerStepView::StartSink)
        },
        Cmd::SetDevice(name) => {
            let closed = if stream_open {
                stop.push(PlayerStepView::CloseStream)
            } else {
                stop
            };
            closed.push(PlayerStepView::OpenStream(text::opt_text(name)))
        },
    }
}

impl Player {
    /// A player that opens the device that the system picks.
    pub fn new() -> (r: (Self, Vec<PlayerStep>))
        ensures
            r.0.device is None,
            !r.0.stream_open,
            !r.0.sink_open,
            steps_view(r.1@) == seq![PlayerStepView::OpenStream(None)],
    {
        let mut steps: Vec<PlayerStep> = Vec::new();
        steps.push(PlayerStep::OpenStream(None));
        assert(steps_view(steps@) =~= seq![PlayerStepView::OpenStream(None)]);
        (Player { device: None, stream_open: false, sink_open: false }, steps)
    }

    /// Takes in a command. A device that is changed is given back before the
    /// new one is opened, as it may be needed for that.
    pub fn command(&mut self, cmd: Cmd) -> (r: Vec<PlayerStep>)
        ensures
            steps_view(r@) == steps_for(
                cmd,
                text::opt_text(old(self).device),
                old(self).stream_open,
                old(self).sink_open,
            ),
            !final(self).sink_open,
            final(self).stream_open == (old(self).stream_open && !(cmd is SetDevice)),
            cmd matches Cmd::SetDevice(name) ==> text::opt_text(final(self).device)
                == text::opt_text(name),
            !(cmd is SetDevice) ==> final(self).device == old(self).device,
    {
        let ghost device = text::opt_text(self.device);
        let ghost goal = steps_for(cmd, device, self.stream_open, self.sink_open);
        let mut steps: Vec<PlayerStep> = Vec::new();
        if self.sink_open {
            steps.push(PlayerStep::StopSink);
            self.sink_open = false;
        }
        match cmd {
            Cmd::Stop => {},
            Cmd::Play => {
                if !self.stream_open {
                    steps.push(PlayerStep::OpenStream(copy_name(&self.device)));
                }
                steps.push(PlayerStep::StartSink);
            },
            Cmd::SetDevice(name) => {
                self.device = copy_name(&name);
                if self.stream_open {
                    steps.push(PlayerStep::CloseStream);
                    self.stream_open = false;
                }
                steps.push(PlayerStep::OpenStream(name));
            },
        }
        assert(steps_view(steps@) =~= goal);
        steps
    }

    /// The output device was opened, or not.
    pub fn stream_opened(&mut self, opened: bool)
        ensures
            *final(self) == (Player { stream_open: opened, ..*old(self) }),
    {
        self.stream_open = opened;
    }

    /// What was to be played plays, or not.
    pub fn sink_started(&mut self, started: bool)
        ensures
            *final(self) == (Player { sink_open: started, ..*old(self) }),
    {
        self.sink_open = started;
    }
}

/// Which output device to open.
#[derive(Clone, Copy, Debug, PartialEq, Eq, Structural)]
pub enum DeviceChoice {
    /// The devices could not be listed, so none.
    Unavailable,
    /// The one that the system picks, as asked for.
    Default,
    /// The one that the system picks, as the one asked for is not there.
    Missing,
    /// The one at this place of the list; if it does not open, the one that
    /// the system picks.
    Listed(usize),
}

/// Where the first device of a name stands; devices without a name are passed
/// over.
pub open spec fn device_place(listed: Seq<Option<String>>, name: Seq<char>) -> nat
    decreases listed.len(),
{
    if listed.len() == 0 {
        0
    } else if text::opt_text(listed[0]) == Some(name) {
        0
    } else {
        1 + device_place(listed.drop_first(), name)
    }
}

/// Which output device to open: the one of the name asked for, else the one
/// that the system picks. The list is missing where the devices could not be
/// listed.
pub fn choose_device(wanted: &Option<String>, listed: &Option<Vec<Option<String>>>) -> (r:
    DeviceChoice)
    ensures
        r == match (text::opt_text(*wanted), *listed) {
            (None, _) => DeviceChoice::Default,
            (Some(_), None) => DeviceChoice::Unavailable,
            (Some(name), Some(l)) => if device_place(l@, name) < l@.len() {
                DeviceChoice::Listed(device_place(l@, name) as usize)
            } else {
                DeviceChoice::Missing
            },
        },
{
    let name = match wanted {
        Some(n) => n,
        None => {
            return DeviceChoice::Default;
        },
    };
    let list = match listed {
        Some(l) => l,
        None => {
            return DeviceChoice::Unavailable;
        },
    };
    let mut i: usize = 0;
    assert(list@.skip(0) =~= list@);
    while i < list.len()
        invariant
            i <= list@.len(),
            text::opt_text(*wanted) == Some(name@),
            *listed == Some(*list),
            device_place(list@, name@) == i + device_place(list@.skip(i as int), name@),
        decreases list.len() - i,
    {
        assert(list@.skip(i as int)[0] == list@[i as int]);
        if let Some(n) = &list[i] {
            if same_text(n.as_str(), name.as_str()) {
                return DeviceChoice::Listed(i);
            }
        }
        assert(list@.skip(i as int).drop_first() =~= list@.skip(i + 1));
        i += 1;
    }
    DeviceChoice::Missing
}

/// Whatever plays is stopped before anything else, and by every command. Playing opens
/// the device that was asked for, where it is not open, and then starts. Changing the
/// device gives the old one back before it opens the new one, and starts nothing.
pub proof fn law_commands_are_carried_out(
    cmd: Cmd,
    device: Option<Seq<char>>,
    stream_open: bool,
    sink_open: bool,
)
    ensures
        ({
            let steps = steps_for(cmd, device, stream_open, sink_open);
            let n = steps.len() as int;
            &&& sink_open ==> n > 0 && steps[0] is StopSink
            &&& forall|k: int|
                0 <= k < n && (#[trigger] steps[k]) is StopSink ==> k == 0 && sink_open
            &&& cmd is Stop ==> n == (if sink_open { 1int } else { 0 })
            &&& cmd is Play ==> {
                &&& n > 0 && steps[n - 1] is StartSink
                &&& stream_open ==> n == (if sink_open { 2int } else { 1 })
                &&& !stream_open ==> n == (if sink_open { 3int } else { 2 }) && steps[n - 2]
                    == PlayerStepView::OpenStream(device)
            }
            &&& cmd matches Cmd::SetDevice(name) ==> {
                &&& n > 0 && steps[n - 1] == PlayerStepView::OpenStream(text::opt_text(name))
                &&& stream_open ==> n == (if sink_open { 3int } else { 2 }) && steps[n - 2]
                    is CloseStream
                &&& !stream_open ==> n == (if sink_open { 2int } else { 1 })
            }
        }),
{
}

/// The device that is found is the first of the list that has the name asked for; none
/// is found only where none has it.
pub proof fn law_first_device_of_name(listed: Seq<Option<String>>, name: Seq<char>)
    ensures
        device_place(listed, name) <= listed.len(),
        device_place(listed, name) < listed.len() ==> text::opt_text(
            listed[device_place(listed, name) as int],
        ) == Some(name),
        forall|k: int|
            0 <= k < device_place(listed, name) ==> text::opt_text(#[trigger] listed[k]) != Some(
                name,
            ),
    decreases listed.len(),
{
    if listed.len() > 0 && text::opt_text(listed[0]) != Some(name) {
        let rest = listed.drop_first();
        law_first_device_of_name(rest, name);
        assert forall|k: int| 0 <= k < device_place(listed, name) implies text::opt_text(
            #[trigger] listed[k],
        ) != Some(name) by {
            if k > 0 {
                assert(listed[k] == rest[k - 1]);
            }
        }
    }
}

/// The mix is rendered in blocks of 256 frames at most, the last one shorter: a change
/// to it is heard within that.
pub proof fn law_blocks_are_short(s: MixSource)
    requires
        s.frame < s.end,
    ensures
        s.frame < s.block_end() <= s.end,
        s.block_end() - s.frame <= 256,
        s.block_end() < s.end ==> s.block_end() - s.frame == 256,
{
}

}
