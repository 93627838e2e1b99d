use gallerypi::video::{
    decoder_exited, decoder_plan, pack_frame_rows, drain_step, end_of_packets, is_playing, toggle_command, wait_step, ChannelEvent,
    ControlAction, DecoderPlan, PlaybackCommand, SharedVideoState, StreamEnd,
};
use std::sync::atomic::Ordering;

#[test]
fn decoder_choice_by_mode() {
    assert_eq!(decoder_plan("none", true), DecoderPlan::SoftwareOnly);
    assert_eq!(decoder_plan("v4l2m2m", false), DecoderPlan::HardwareOnly);
    assert_eq!(decoder_plan("auto", true), DecoderPlan::HardwareThenSoftware);
    assert_eq!(decoder_plan("auto", false), DecoderPlan::SoftwareOnly);
    assert_eq!(decoder_plan("other", true), DecoderPlan::HardwareThenSoftware);
}

#[test]
fn draining_commands() {
    let stop = ChannelEvent::Received(PlaybackCommand::Stop);
    assert_eq!(drain_step(false, true, stop), ControlAction::StopPlayback);
    assert_eq!(drain_step(false, true, ChannelEvent::Disconnected), ControlAction::StopPlayback);
    assert_eq!(drain_step(false, true, ChannelEvent::Received(PlaybackCommand::Pause)), ControlAction::Pause);
    assert_eq!(drain_step(true, true, ChannelEvent::Received(PlaybackCommand::Pause)), ControlAction::EndDrain);
    assert_eq!(drain_step(true, true, ChannelEvent::Received(PlaybackCommand::Resume)), ControlAction::Resume);
    assert_eq!(drain_step(false, true, ChannelEvent::Received(PlaybackCommand::Resume)), ControlAction::EndDrain);
    assert_eq!(drain_step(false, true, ChannelEvent::Received(PlaybackCommand::Seek)), ControlAction::Seek);
    assert_eq!(drain_step(false, true, ChannelEvent::Received(PlaybackCommand::SetVolume)), ControlAction::SetVolume);
    assert_eq!(drain_step(false, false, ChannelEvent::Received(PlaybackCommand::SetVolume)), ControlAction::EndDrain);
    assert_eq!(drain_step(false, true, ChannelEvent::Empty), ControlAction::EndDrain);
}

#[test]
fn waiting_while_paused() {
    assert_eq!(wait_step(true, ChannelEvent::Received(PlaybackCommand::Resume)), ControlAction::Resume);
    assert_eq!(wait_step(true, ChannelEvent::Received(PlaybackCommand::Pause)), ControlAction::KeepWaiting);
    assert_eq!(wait_step(true, ChannelEvent::Empty), ControlAction::KeepWaiting);
    assert_eq!(wait_step(false, ChannelEvent::Received(PlaybackCommand::SetVolume)), ControlAction::KeepWaiting);
    assert_eq!(wait_step(true, ChannelEvent::Received(PlaybackCommand::SetVolume)), ControlAction::SetVolume);
    assert_eq!(wait_step(true, ChannelEvent::Received(PlaybackCommand::Seek)), ControlAction::Seek);
    assert_eq!(wait_step(true, ChannelEvent::Disconnected), ControlAction::StopPlayback);
}

#[test]
fn end_of_stream() {
    assert_eq!(end_of_packets(true, false), StreamEnd::SeekTo);
    assert_eq!(end_of_packets(false, true), StreamEnd::Restart);
    assert_eq!(end_of_packets(false, false), StreamEnd::Finish);
}

#[test]
fn toggling_pause_flips_state() {
    for paused in [false, true] {
        let cmd = toggle_command(paused);
        let action = drain_step(paused, true, ChannelEvent::Received(cmd));
        let after = match action {
            ControlAction::Pause => true,
            ControlAction::Resume => false,
            _ => paused,
        };
        assert_eq!(after, !paused);
    }
}

#[test]
fn playing_and_exit_flags() {
    assert!(is_playing(false, true));
    assert!(!is_playing(true, true));
    assert!(!is_playing(false, false));
    assert!(decoder_exited(true, None));
    assert!(decoder_exited(true, Some(true)));
    assert!(!decoder_exited(true, Some(false)));
    assert!(!decoder_exited(false, None));
}

#[test]
fn fresh_shared_state() {
    let s = SharedVideoState::new();
    assert_eq!(f64::from_bits(s.position.load(Ordering::Relaxed)), 0.0);
    assert_eq!(f64::from_bits(s.duration.load(Ordering::Relaxed)), 0.0);
    assert!(!s.paused.load(Ordering::Relaxed));
    assert!(!s.ended.load(Ordering::Relaxed));
}

#[test]
fn frame_rows_are_packed() {
    // Two rows of one RGBA pixel, each row padded to 6 bytes.
    let data = [1, 2, 3, 4, 0, 0, 5, 6, 7, 8];
    assert_eq!(pack_frame_rows(&data, 6, 1, 2), vec![1, 2, 3, 4, 5, 6, 7, 8]);
    assert_eq!(pack_frame_rows(&[], 0, 3, 0), Vec::<u8>::new());
    let tight: Vec<u8> = (0..16).collect();
    assert_eq!(pack_frame_rows(&tight, 8, 2, 2), tight);
}

/// Runs the decoder's command handling between two packets over `events`,
/// from a decoder that is paused or not: `Some(true)` when it goes on to
/// decode, `Some(false)` when it seeks or stops, `None` when it is still
/// handling commands.
fn run_commands(mut paused: bool, has_audio: bool, events: &[ChannelEvent]) -> Option<bool> {
    let mut waiting = false;
    for &ev in events {
        if waiting {
            match wait_step(has_audio, ev) {
                ControlAction::Resume => return Some(true),
                ControlAction::Seek | ControlAction::StopPlayback => return Some(false),
                _ => {}
            }
        } else {
            match drain_step(paused, has_audio, ev) {
                ControlAction::StopPlayback | ControlAction::Seek => return Some(false),
                ControlAction::EndDrain => {
                    if paused {
                        waiting = true;
                    } else {
                        return Some(true);
                    }
                }
                ControlAction::Pause => paused = true,
                ControlAction::Resume => paused = false,
                _ => {}
            }
        }
    }
    None
}

#[test]
fn paused_decoder_decodes_only_after_resume() {
    let pause = ChannelEvent::Received(PlaybackCommand::Pause);
    let resume = ChannelEvent::Received(PlaybackCommand::Resume);
    let volume = ChannelEvent::Received(PlaybackCommand::SetVolume);
    let empty = ChannelEvent::Empty;
    assert_eq!(run_commands(false, true, &[pause, empty, empty, volume, pause, empty]), None);
    assert_eq!(run_commands(false, true, &[pause, empty, empty, resume]), Some(true));
    assert_eq!(run_commands(false, true, &[pause, resume, empty]), Some(true));
    assert_eq!(run_commands(true, false, &[volume, empty, empty]), None);
    assert_eq!(run_commands(false, true, &[empty]), Some(true));
}
