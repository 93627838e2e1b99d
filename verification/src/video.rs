use vstd::prelude::*;
use std::sync::Arc;
use std::sync::atomic::{AtomicBool, AtomicU64};
use crate::viewer::cache::str_eq;

verus! {

/// State shared between the video controller and the decoder thread:
/// position and duration (bit patterns of f64 seconds), pause and end flags.
pub struct SharedVideoState {
    pub position: AtomicU64,
    pub duration: AtomicU64,
    pub paused: AtomicBool,
    pub ended: AtomicBool,
}

impl SharedVideoState {
    /// A fresh state: position and duration 0.0 seconds (whose f64 bit
    /// pattern is 0), neither paused nor ended. The atomics are opaque to
    /// the verifier, so their initial values are not stated.
    pub fn new() -> Arc<SharedVideoState> {
        Arc::new(
            SharedVideoState {
                position: AtomicU64::new(0),
                duration: AtomicU64::new(0),
                paused: AtomicBool::new(false),
                ended: AtomicBool::new(false),
            },
        )
    }
}

/// A playback command without its argument (the seek position or volume
/// travels beside it).
#[derive(PartialEq, Eq, Structural, Clone, Copy, Debug)]
pub enum PlaybackCommand {
    Pause,
    Resume,
    Seek,
    SetVolume,
    Stop,
}

/// What the decoder's control channel yielded.
#[derive(PartialEq, Eq, Structural, Clone, Copy, Debug)]
pub enum ChannelEvent {
    Received(PlaybackCommand),
    /// Nothing pending (or, while paused, the wait timed out).
    Empty,
    Disconnected,
}

/// What the decoder does in response.
#[derive(PartialEq, Eq, Structural, Clone, Copy, Debug)]
pub enum ControlAction {
    /// Stop playback and end the decoder.
    StopPlayback,
    /// Pause (pause the audio sink, record the pause start, set the flag).
    Pause,
    /// Resume (shift the clock by the paused time, play, clear the flag).
    Resume,
    /// Seek to the command's position.
    Seek,
    /// Set the audio volume.
    SetVolume,
    /// Stop reading commands and go on decoding.
    EndDrain,
    /// Keep waiting for commands while paused.
    KeepWaiting,
}

/// The decoder's response to a channel event while it drains pending
/// commands between packets. A Pause while paused, a Resume while playing,
/// or (without audio) a volume change end the draining.
pub open spec fn drain_response(paused: bool, has_audio: bool, ev: ChannelEvent) -> ControlAction {
    match ev {
        ChannelEvent::Received(PlaybackCommand::Stop) => ControlAction::StopPlayback,
        ChannelEvent::Received(PlaybackCommand::Pause) => if !paused {
            ControlAction::Pause
        } else {
            ControlAction::EndDrain
        },
        ChannelEvent::Received(PlaybackCommand::Resume) => if paused {
            ControlAction::Resume
        } else {
            ControlAction::EndDrain
        },
        ChannelEvent::Received(PlaybackCommand::Seek) => ControlAction::Seek,
        ChannelEvent::Received(PlaybackCommand::SetVolume) => if has_audio {
            ControlAction::SetVolume
        } else {
            ControlAction::EndDrain
        },
        ChannelEvent::Empty => ControlAction::EndDrain,
        ChannelEvent::Disconnected => ControlAction::StopPlayback,
    }
}

/// The decoder's response to a channel event while it waits, paused, for
/// commands. Pause and (without audio) volume changes are ignored.
pub open spec fn wait_response(has_audio: bool, ev: ChannelEvent) -> ControlAction {
    match ev {
        ChannelEvent::Received(PlaybackCommand::Stop) => ControlAction::StopPlayback,
        ChannelEvent::Received(PlaybackCommand::Resume) => ControlAction::Resume,
        ChannelEvent::Received(PlaybackCommand::Seek) => ControlAction::Seek,
        ChannelEvent::Received(PlaybackCommand::SetVolume) => if has_audio {
            ControlAction::SetVolume
        } else {
            ControlAction::KeepWaiting
        },
        ChannelEvent::Received(PlaybackCommand::Pause) => ControlAction::KeepWaiting,
        ChannelEvent::Empty => ControlAction::KeepWaiting,
        ChannelEvent::Disconnected => ControlAction::StopPlayback,
    }
}

/// Pause state after an action.
pub open spec fn paused_after(paused: bool, a: ControlAction) -> bool {
    match a {
        ControlAction::Pause => true,
        ControlAction::Resume => false,
        _ => paused,
    }
}

/// Response to an event while draining commands between packets.
pub fn drain_step(paused: bool, has_audio: bool, ev: ChannelEvent) -> (a: ControlAction)
    ensures
        a == drain_response(paused, has_audio, ev),
{
    match ev {
        ChannelEvent::Received(PlaybackCommand::Stop) => ControlAction::StopPlayback,
        ChannelEvent::Received(PlaybackCommand::Pause) => if !paused {
            ControlAction::Pause
        } else {
            ControlAction::EndDrain
        },
        ChannelEvent::Received(PlaybackCommand::Resume) => if paused {
            ControlAction::Resume
        } else {
            ControlAction::EndDrain
        },
        ChannelEvent::Received(PlaybackCommand::Seek) => ControlAction::Seek,
        ChannelEvent::Received(PlaybackCommand::SetVolume) => if has_audio {
            ControlAction::SetVolume
        } else {
            ControlAction::EndDrain
        },
        ChannelEvent::Empty => ControlAction::EndDrain,
        ChannelEvent::Disconnected => ControlAction::StopPlayback,
    }
}

/// Response to an event while waiting, paused, for commands.
pub fn wait_step(has_audio: bool, ev: ChannelEvent) -> (a: ControlAction)
    ensures
        a == wait_response(has_audio, ev),
{
    match ev {
        ChannelEvent::Received(PlaybackCommand::Stop) => ControlAction::StopPlayback,
        ChannelEvent::Received(PlaybackCommand::Resume) => ControlAction::Resume,
        ChannelEvent::Received(PlaybackCommand::Seek) => ControlAction::Seek,
        ChannelEvent::Received(PlaybackCommand::SetVolume) => if has_audio {
            ControlAction::SetVolume
        } else {
            ControlAction::KeepWaiting
        },
        ChannelEvent::Received(PlaybackCommand::Pause) => ControlAction::KeepWaiting,
        ChannelEvent::Empty => ControlAction::KeepWaiting,
        ChannelEvent::Disconnected => ControlAction::StopPlayback,
    }
}

/// What the decoder does when it leaves the packet loop.
#[derive(PartialEq, Eq, Structural, Clone, Copy, Debug)]
pub enum StreamEnd {
    /// Seek to the requested position and go on.
    SeekTo,
    /// Rewind to the start and play again.
    Restart,
    /// Stop: the video has ended.
    Finish,
}

pub open spec fn stream_end(seek_requested: bool, loop_videos: bool) -> StreamEnd {
    if seek_requested {
        StreamEnd::SeekTo
    } else if loop_videos {
        StreamEnd::Restart
    } else {
        StreamEnd::Finish
    }
}

/// After the packets run out (or a seek interrupts them): a pending seek
/// wins, otherwise the video restarts when looping is on, and ends when not.
pub fn end_of_packets(seek_requested: bool, loop_videos: bool) -> (r: StreamEnd)
    ensures
        r == stream_end(seek_requested, loop_videos),
        seek_requested ==> r == StreamEnd::SeekTo,
        !seek_requested && loop_videos ==> r == StreamEnd::Restart,
        !seek_requested && !loop_videos ==> r == StreamEnd::Finish,
{
    if seek_requested {
        StreamEnd::SeekTo
    } else if loop_videos {
        StreamEnd::Restart
    } else {
        StreamEnd::Finish
    }
}

/// How the decoder is chosen.
#[derive(PartialEq, Eq, Structural, Clone, Copy, Debug)]
pub enum DecoderPlan {
    /// Software decoding only.
    SoftwareOnly,
    /// Try the V4L2 M2M hardware decoder; fall back to software.
    HardwareThenSoftware,
    /// The hardware decoder or nothing.
    HardwareOnly,
}

pub open spec fn none_mode() -> Seq<char> {
    seq!['n', 'o', 'n', 'e']
}

pub open spec fn v4l2m2m_mode() -> Seq<char> {
    seq!['v', '4', 'l', '2', 'm', '2', 'm']
}

/// The decoder choice for an acceleration mode: "none" always decodes in
/// software; "v4l2m2m" forces the hardware decoder (failing if unavailable);
/// any other mode ("auto") tries the hardware decoder for H.264 streams,
/// the only codec it reliably handles, and decodes others in software.
pub open spec fn decoder_plan_for(hw_accel: Seq<char>, is_h264: bool) -> DecoderPlan {
    if hw_accel == none_mode() {
        DecoderPlan::SoftwareOnly
    } else if hw_accel == v4l2m2m_mode() {
        DecoderPlan::HardwareOnly
    } else if is_h264 {
        DecoderPlan::HardwareThenSoftware
    } else {
        DecoderPlan::SoftwareOnly
    }
}

/// Chooses how to decode a stream under the configured acceleration mode.
pub fn decoder_plan(hw_accel: &str, is_h264: bool) -> (r: DecoderPlan)
    ensures
        r == decoder_plan_for(hw_accel@, is_h264),
{
    let none: &str = "none";
    let hw: &str = "v4l2m2m";
    proof {
        reveal_strlit("none");
        reveal_strlit("v4l2m2m");
        assert(none@ =~= none_mode());
        assert(hw@ =~= v4l2m2m_mode());
    }
    if str_eq(hw_accel, none) {
        DecoderPlan::SoftwareOnly
    } else if str_eq(hw_accel, hw) {
        DecoderPlan::HardwareOnly
    } else if is_h264 {
        DecoderPlan::HardwareThenSoftware
    } else {
        DecoderPlan::SoftwareOnly
    }
}

pub open spec fn toggle_of(paused: bool) -> PlaybackCommand {
    if paused {
        PlaybackCommand::Resume
    } else {
        PlaybackCommand::Pause
    }
}

/// The command that toggles pause: Resume when paused, Pause otherwise.
pub fn toggle_command(paused: bool) -> (c: PlaybackCommand)
    ensures
        c == toggle_of(paused),
{
    if paused {
        PlaybackCommand::Resume
    } else {
        PlaybackCommand::Pause
    }
}

/// The video is playing when a decoder runs and it is not paused.
pub fn is_playing(paused: bool, running: bool) -> (r: bool)
    ensures
        r == (!paused && running),
{
    !paused && running
}

/// Whether the controller can let go of its decoder: once the decoder has
/// flagged the end and its thread (if any) has finished.
pub fn decoder_exited(ended: bool, worker_finished: Option<bool>) -> (r: bool)
    ensures
        r == (ended && match worker_finished {
            Some(f) => f,
            None => true,
        }),
{
    ended && match worker_finished {
        Some(f) => f,
        None => true,
    }
}

/// The tightly packed rows of an image whose rows start every `stride`
/// bytes: row r holds the `row_bytes` bytes from r * stride.
pub open spec fn packed_rows(data: Seq<u8>, stride: int, row_bytes: int, height: int) -> Seq<u8> {
    Seq::new((height * row_bytes) as nat, |i: int| data[(i / row_bytes) * stride + i % row_bytes])
}

proof fn lemma_row_index(r: int, c: int, row_bytes: int)
    requires
        0 <= r,
        0 <= c < row_bytes,
    ensures
        (r * row_bytes + c) / row_bytes == r,
        (r * row_bytes + c) % row_bytes == c,
{
    vstd::arithmetic::div_mod::lemma_fundamental_div_mod_converse(r * row_bytes + c, row_bytes, r, c);
}

/// Copies the RGBA rows of a decoded frame (width * 4 bytes each, starting
/// every `stride` bytes) into one packed buffer.
pub fn pack_frame_rows(data: &[u8], stride: usize, width: u32, height: u32) -> (r: Vec<u8>)
    requires
        width as int * 4 <= usize::MAX,
        width as int * 4 * height as int <= usize::MAX,
        height > 0 ==> (height - 1) * stride + width * 4 <= data@.len(),
    ensures
        r@ == packed_rows(data@, stride as int, width as int * 4, height as int),
{
    let row_bytes: usize = width as usize * 4;
    let h: usize = height as usize;
    let n: usize = data.len();
    let mut out: Vec<u8> = Vec::new();
    let mut row: usize = 0;
    while row < h
        invariant
            row <= h,
            h == height,
            row_bytes == width as int * 4,
            row_bytes * h <= usize::MAX,
            n == data@.len(),
            h > 0 ==> (h - 1) * stride + row_bytes <= n,
            out@.len() == row * row_bytes,
            forall|i: int| 0 <= i < out@.len() ==> out@[i] == data@[(i / row_bytes as int) * stride + i % row_bytes as int],
        decreases h - row,
    {
        proof {
            assert(row * stride <= (h - 1) * stride) by (nonlinear_arith)
                requires
                    row < h,
            ;
            assert((row + 1) * row_bytes <= h * row_bytes) by (nonlinear_arith)
                requires
                    row < h,
            ;
            assert(row * row_bytes + row_bytes == (row + 1) * row_bytes) by (nonlinear_arith);
            assert(row * stride + row_bytes <= n);
        }
        let start = row * stride;
        let mut c: usize = 0;
        while c < row_bytes
            invariant
                c <= row_bytes,
                row < h,
                start == row * stride,
                n == data@.len(),
                start + row_bytes <= n,
                (row + 1) * row_bytes <= usize::MAX,
                row * row_bytes + row_bytes == (row + 1) * row_bytes,
                out@.len() == row * row_bytes + c,
                forall|i: int| 0 <= i < out@.len() ==> out@[i] == data@[(i / row_bytes as int) * stride + i % row_bytes as int],
            decreases row_bytes - c,
        {
            out.push(data[start + c]);
            proof {
                lemma_row_index(row as int, c as int, row_bytes as int);
            }
            c = c + 1;
        }
        row = row + 1;
    }
    assert(out@ =~= packed_rows(data@, stride as int, width as int * 4, height as int));
    out
}

/// A toggle always flips the pause state: the command it sends, handled by
/// the decoder as it drains its commands, leaves the decoder paused exactly
/// when it was playing before.
pub proof fn law_toggle_flips_pause(paused: bool, has_audio: bool)
    ensures
        paused_after(
            paused,
            drain_response(paused, has_audio, ChannelEvent::Received(toggle_of(paused))),
        ) == !paused,
{
}

/// A Stop command or a closed channel always ends playback, whether the
/// decoder is draining commands or waiting while paused.
pub proof fn law_stop_always_ends(paused: bool, has_audio: bool)
    ensures
        drain_response(paused, has_audio, ChannelEvent::Received(PlaybackCommand::Stop))
            == ControlAction::StopPlayback,
        wait_response(has_audio, ChannelEvent::Received(PlaybackCommand::Stop))
            == ControlAction::StopPlayback,
        drain_response(paused, has_audio, ChannelEvent::Disconnected) == ControlAction::StopPlayback,
        wait_response(has_audio, ChannelEvent::Disconnected) == ControlAction::StopPlayback,
{
}

/// Pause and resume only ever change the pause state in the direction they
/// name: a pause never leaves the decoder playing, a resume never leaves it
/// paused, and a waiting decoder stays paused until it is resumed.
pub proof fn law_pause_state_follows_commands(paused: bool, has_audio: bool, ev: ChannelEvent)
    ensures
        ev == ChannelEvent::Received(PlaybackCommand::Pause) ==> paused_after(
            paused,
            drain_response(paused, has_audio, ev),
        ),
        ev == ChannelEvent::Received(PlaybackCommand::Resume) ==> !paused_after(
            paused,
            drain_response(paused, has_audio, ev),
        ),
        ev != ChannelEvent::Received(PlaybackCommand::Resume) ==> paused_after(
            true,
            wait_response(has_audio, ev),
        ),
{
}

/// Where the decoder's handling of commands between two packets stands.
pub enum ControlState {
    /// Reading the pending commands.
    Draining { paused: bool },
    /// Paused, waiting for a command.
    Waiting,
    /// Done with the commands: the next packet is decoded.
    Decode,
    /// Done with the commands: a seek is carried out, the pause state kept.
    Seeking { paused: bool },
    /// Done: playback ends.
    Stopped,
}

/// The decoder's next state after a channel event: while draining it
/// answers as `drain_response` says and, once the draining ends, decodes
/// when playing or waits when paused; while waiting it answers as
/// `wait_response` says and decodes again once resumed. A finished state
/// stays as it is.
pub open spec fn control_next(s: ControlState, has_audio: bool, ev: ChannelEvent) -> ControlState {
    match s {
        ControlState::Draining { paused } => match drain_response(paused, has_audio, ev) {
            ControlAction::StopPlayback => ControlState::Stopped,
            ControlAction::Seek => ControlState::Seeking { paused },
            ControlAction::EndDrain => if paused {
                ControlState::Waiting
            } else {
                ControlState::Decode
            },
            a => ControlState::Draining { paused: paused_after(paused, a) },
        },
        ControlState::Waiting => match wait_response(has_audio, ev) {
            ControlAction::StopPlayback => ControlState::Stopped,
            ControlAction::Seek => ControlState::Seeking { paused: true },
            ControlAction::Resume => ControlState::Decode,
            _ => ControlState::Waiting,
        },
        _ => s,
    }
}

/// The decoder's state after the channel events `evs`, in order.
pub open spec fn control_run(s: ControlState, has_audio: bool, evs: Seq<ChannelEvent>) -> ControlState
    decreases evs.len(),
{
    if evs.len() == 0 {
        s
    } else {
        control_next(control_run(s, has_audio, evs.drop_last()), has_audio, evs.last())
    }
}

/// The states of a paused decoder: draining or waiting while paused, about
/// to seek while paused, or stopped.
pub open spec fn paused_state(s: ControlState) -> bool {
    ||| s == ControlState::Draining { paused: true }
    ||| s == ControlState::Waiting
    ||| s == ControlState::Seeking { paused: true }
    ||| s == ControlState::Stopped
}

/// Whether a Resume command is among the events.
pub open spec fn has_resume(evs: Seq<ChannelEvent>) -> bool {
    exists|i: int| 0 <= i < evs.len() && evs[i] == ChannelEvent::Received(PlaybackCommand::Resume)
}

proof fn lemma_paused_without_resume(s: ControlState, has_audio: bool, evs: Seq<ChannelEvent>)
    requires
        paused_state(s),
        !has_resume(evs),
    ensures
        paused_state(control_run(s, has_audio, evs)),
    decreases evs.len(),
{
    if evs.len() > 0 {
        assert(!has_resume(evs.drop_last())) by {
            if has_resume(evs.drop_last()) {
                let i = choose|i: int|
                    0 <= i < evs.drop_last().len() && evs.drop_last()[i] == ChannelEvent::Received(
                        PlaybackCommand::Resume,
                    );
                assert(evs[i] == ChannelEvent::Received(PlaybackCommand::Resume));
            }
        }
        lemma_paused_without_resume(s, has_audio, evs.drop_last());
        assert(evs.last() != ChannelEvent::Received(PlaybackCommand::Resume)) by {
            if evs.last() == ChannelEvent::Received(PlaybackCommand::Resume) {
                assert(evs[evs.len() - 1] == ChannelEvent::Received(PlaybackCommand::Resume));
            }
        }
    }
}

/// A paused decoder decodes nothing until it is resumed: whatever commands
/// and channel events come while it is paused (pauses, seeks, volume
/// changes, empty polls and waits), it stays paused, and it reaches the
/// next packet's decoding only through a Resume among them.
pub proof fn law_paused_decoder_decodes_only_after_resume(
    s: ControlState,
    has_audio: bool,
    evs: Seq<ChannelEvent>,
)
    requires
        paused_state(s),
    ensures
        !has_resume(evs) ==> paused_state(control_run(s, has_audio, evs)),
        control_run(s, has_audio, evs) == ControlState::Decode ==> has_resume(evs),
{
    if !has_resume(evs) {
        lemma_paused_without_resume(s, has_audio, evs);
    }
}

/// A Pause command to a playing decoder pauses it, and then no packet is
/// decoded until a later Resume.
pub proof fn law_pause_holds_until_resume(has_audio: bool, evs: Seq<ChannelEvent>)
    ensures
        control_next(
            ControlState::Draining { paused: false },
            has_audio,
            ChannelEvent::Received(PlaybackCommand::Pause),
        ) == (ControlState::Draining { paused: true }),
        control_run(ControlState::Draining { paused: true }, has_audio, evs) == ControlState::Decode
            ==> has_resume(evs),
{
    law_paused_decoder_decodes_only_after_resume(ControlState::Draining { paused: true }, has_audio, evs);
}

/// A pending seek always wins when the packets stop: the video jumps to
/// the requested position whether or not looping is on; looping restarts
/// the video only when no seek is pending, and without either it ends.
pub proof fn law_pending_seek_wins(loop_videos: bool)
    ensures
        stream_end(true, loop_videos) == StreamEnd::SeekTo,
        stream_end(false, true) == StreamEnd::Restart,
        stream_end(false, false) == StreamEnd::Finish,
        stream_end(true, true) != StreamEnd::Restart,
{
}

} // verus!
