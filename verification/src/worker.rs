//! The transport worker's decisions: which engine operation each queued
//! command means, and what one position tick publishes and triggers.
//!
//! The hosting loop is the single mutator of the engine.  Per tick it
//! drains at most one command into [`dispatch`], reads the sink's position
//! and emptiness, hands them to [`tick`], performs the returned effects and
//! sleeps a short fixed interval.  A kill command makes [`dispatch`] report
//! that the loop must exit, after tearing the cue scheduler down.

use vstd::prelude::*;

use crate::player::AudioPlayer;
use crate::player::Effect;
use crate::player::PlayerView;
use crate::player::clamp_volume;
use crate::player::next_effects;
use crate::player::next_spec;
use crate::player::override_effects;
use crate::player::override_spec;
use crate::player::pause_spec;
use crate::player::play_effects;
use crate::player::play_spec;
use crate::player::prepare_effects;
use crate::player::prepare_spec;
use crate::player::seek_effects;
use crate::player::seek_spec;

verus! {

/// Every command the engine's collaborator can queue to the worker.
#[derive(Clone, Copy, PartialEq, Eq, Structural, Debug)]
pub enum AudioThreadActions {
    /// Stops the worker loop.
    KillThread,
    /// Pauses the current audio.
    Pause,
    /// Plays the current audio.
    Play,
    /// Keeps repeating the current audio when it completes.
    Loop,
    /// Applies the collaborator's volume.
    Volume,
    /// Skips to the next audio in the queue.
    Skip,
    /// Goes back to the beginning of the audio.
    Rewind,
    /// Randomizes the queue and plays its new first audio.
    Shuffle,
    /// Plays the audio the collaborator selected.
    SongOverride,
    /// Asks for a copy of the queue.
    RequestSongVec,
    /// Loads every audio of the selected playlist.
    LoadFromPlaylist,
    /// Returns the engine to the freshly-queued state.
    Reset,
}

/// What a position tick reported.
#[derive(Clone, Copy, PartialEq, Eq, Structural, Debug)]
pub enum TickReport {
    /// Nothing is playing: nothing was published.
    Idle,
    /// Position and progress were published.
    Published,
    /// The current track reports no duration: a configuration error, not a
    /// progress value.
    ZeroDuration,
}

/// Progress through the track in hundredths: whole elapsed seconds over the
/// duration, saturated at the largest publishable value.
pub open spec fn progress_of(pos_ms: u64, duration_centis: u32) -> u32
    recommends
        duration_centis > 0,
{
    let q = (pos_ms as int / 1000) * 10000 / (duration_centis as int);
    if q > u32::MAX as int {
        u32::MAX
    } else {
        q as u32
    }
}

pub fn compute_progress(pos_ms: u64, duration_centis: u32) -> (r: u32)
    requires
        duration_centis > 0,
    ensures
        r == progress_of(pos_ms, duration_centis),
{
    let q: u128 = ((pos_ms as u128) / 1000) * 10000 / (duration_centis as u128);
    if q > u32::MAX as u128 {
        u32::MAX
    } else {
        q as u32
    }
}

/// End of track: progress at or past the near-one threshold while the sink
/// has nothing buffered.
pub open spec fn end_of_track(progress_hundredths: u32, sink_empty: bool) -> bool {
    progress_hundredths >= 99 && sink_empty
}

/// Restarting the current track for a loop: prepared again, then played.
pub open spec fn loop_restart_spec(s: PlayerView) -> PlayerView {
    PlayerView { playing: true, ..prepare_spec(s) }
}

pub open spec fn loop_restart_effects() -> Seq<Effect> {
    prepare_effects() + seq![Effect::SinkPlay]
}

/// The state one tick leaves: while playing, the position and progress are
/// published from the sink; a finished track is replayed when looping and
/// advanced past otherwise.
pub open spec fn tick_spec(s: PlayerView, pos_ms: u64, sink_empty: bool) -> PlayerView {
    if !s.playing {
        s
    } else if s.duration_centis == 0 {
        PlayerView { position_ms: pos_ms, ..s }
    } else {
        let s2 = PlayerView {
            position_ms: pos_ms,
            progress_hundredths: progress_of(pos_ms, s.duration_centis),
            ..s
        };
        if end_of_track(s2.progress_hundredths, sink_empty) {
            if s.looping {
                loop_restart_spec(s2)
            } else {
                next_spec(s2)
            }
        } else {
            s2
        }
    }
}

pub open spec fn tick_effects(s: PlayerView, pos_ms: u64, sink_empty: bool) -> Seq<Effect> {
    if !s.playing || s.duration_centis == 0 {
        Seq::empty()
    } else {
        let s2 = PlayerView {
            position_ms: pos_ms,
            progress_hundredths: progress_of(pos_ms, s.duration_centis),
            ..s
        };
        if end_of_track(s2.progress_hundredths, sink_empty) {
            if s.looping {
                loop_restart_effects()
            } else {
                next_effects(s2)
            }
        } else {
            Seq::empty()
        }
    }
}

/// One worker tick: publishes position and progress while playing, and on
/// end of track either replays the current track (looping) or skips to the
/// next one.  A zero published duration is reported as a configuration
/// error instead of a progress value.
pub fn tick(player: &mut AudioPlayer, sink_pos_ms: u64, sink_empty: bool) -> (r: (
    Vec<Effect>,
    TickReport,
))
    requires
        old(player).wf(),
    ensures
        final(player).wf(),
        final(player)@ == tick_spec(old(player)@, sink_pos_ms, sink_empty),
        r.0@ == tick_effects(old(player)@, sink_pos_ms, sink_empty),
        r.1 == TickReport::Idle <==> !old(player)@.playing,
        r.1 == TickReport::ZeroDuration <==> old(player)@.playing && old(
            player,
        )@.duration_centis == 0,
{
    if !player.playing {
        let effs: Vec<Effect> = Vec::new();
        proof {
            assert(effs@ =~= tick_effects(player@, sink_pos_ms, sink_empty));
        }
        return (effs, TickReport::Idle);
    }
    player.millisecond_position = sink_pos_ms;
    if player.song_duration == 0 {
        let effs: Vec<Effect> = Vec::new();
        proof {
            assert(effs@ =~= tick_effects(old(player)@, sink_pos_ms, sink_empty));
        }
        return (effs, TickReport::ZeroDuration);
    }
    let p = compute_progress(sink_pos_ms, player.song_duration);
    player.progress = p;
    if p >= 99 && sink_empty {
        if player.looping {
            let mut effs = player.prepare_song();
            player.playing = true;
            effs.push(Effect::SinkPlay);
            proof {
                assert(effs@ =~= loop_restart_effects());
            }
            (effs, TickReport::Published)
        } else {
            let effs = player.next_song();
            (effs, TickReport::Published)
        }
    } else {
        let effs: Vec<Effect> = Vec::new();
        proof {
            assert(effs@ =~= tick_effects(old(player)@, sink_pos_ms, sink_empty));
        }
        (effs, TickReport::Published)
    }
}

/// What each command asks of the engine before it may be dispatched: the
/// transport commands work only against a non-empty queue, and an override
/// only against a selection inside it.  The collaborator owes this; the
/// worker does not recover from its violation.
pub open spec fn dispatch_pre(
    s: PlayerView,
    action: AudioThreadActions,
    clicked_index: usize,
) -> bool {
    match action {
        AudioThreadActions::Play => s.queue.len() > 0,
        AudioThreadActions::Skip => s.queue.len() > 0,
        AudioThreadActions::Rewind => s.queue.len() > 0,
        AudioThreadActions::Shuffle => s.queue.len() > 0,
        AudioThreadActions::SongOverride => s.queue.len() > 0 && clicked_index < s.queue.len(),
        _ => true,
    }
}

/// Drains one command into the engine: each command is exactly one engine
/// operation.  The boolean says whether the worker loop must now exit; it
/// exits only on the kill command, after asking the scheduler to stop, so
/// the loop never ends with a scheduler left active.
pub fn dispatch(
    player: &mut AudioPlayer,
    action: AudioThreadActions,
    clicked_index: usize,
    volume: i8,
) -> (r: (Vec<Effect>, bool))
    requires
        old(player).wf(),
        dispatch_pre(old(player)@, action, clicked_index),
    ensures
        final(player).wf(),
        r.1 == (action == AudioThreadActions::KillThread),
        action == AudioThreadActions::KillThread ==> final(player)@ == old(player)@ && r.0@
            == seq![Effect::SchedulerStop],
        action == AudioThreadActions::Pause ==> final(player)@ == pause_spec(old(player)@)
            && r.0@ == seq![Effect::SinkPause],
        action == AudioThreadActions::Play ==> final(player)@ == play_spec(old(player)@)
            && r.0@ == play_effects(old(player)@),
        action == AudioThreadActions::Loop ==> final(player)@ == (PlayerView {
            looping: !old(player)@.looping,
            ..old(player)@
        }) && r.0@.len() == 0,
        action == AudioThreadActions::Volume ==> final(player)@ == (PlayerView {
            volume: clamp_volume(volume),
            ..old(player)@
        }) && r.0@ == seq![Effect::SinkSetVolume(clamp_volume(volume))],
        action == AudioThreadActions::Skip ==> final(player)@ == next_spec(old(player)@)
            && r.0@ == next_effects(old(player)@),
        action == AudioThreadActions::Rewind ==> final(player)@ == seek_spec(old(player)@, 0)
            && r.0@ == seek_effects(old(player)@, 0),
        action == AudioThreadActions::Shuffle ==> final(player)@.queue.to_multiset() == old(
            player,
        )@.queue.to_multiset() && final(player)@ == play_spec(
            PlayerView {
                queue: final(player)@.queue,
                playing: old(player)@.playing,
                index: 0,
                loaded: false,
                ..old(player)@
            },
        ) && r.0@ == prepare_effects() + seq![Effect::SinkPlay],
        action == AudioThreadActions::SongOverride ==> final(player)@ == override_spec(
            old(player)@,
            old(player)@.queue[clicked_index as int].path,
        ) && r.0@ == override_effects(
            old(player)@,
            old(player)@.queue[clicked_index as int].path,
        ),
        action == AudioThreadActions::RequestSongVec ==> final(player)@ == old(player)@
            && r.0@ == seq![Effect::SendQueueSnapshot],
        action == AudioThreadActions::LoadFromPlaylist ==> final(player)@ == old(player)@
            && r.0@ == seq![Effect::LoadPlaylist(clicked_index)],
        action == AudioThreadActions::Reset ==> final(player)@ == (PlayerView {
            playing: false,
            loaded: false,
            index: 0,
            position_ms: 0,
            duration_centis: 0,
            progress_hundredths: 0,
            ..old(player)@
        }) && r.0@ == seq![Effect::SinkPause, Effect::SinkClear, Effect::SchedulerStop],
{
    match action {
        AudioThreadActions::KillThread => {
            let mut effs: Vec<Effect> = Vec::new();
            effs.push(Effect::SchedulerStop);
            proof {
                assert(effs@ =~= seq![Effect::SchedulerStop]);
            }
            (effs, true)
        },
        AudioThreadActions::Pause => (player.pause(), false),
        AudioThreadActions::Play => (player.play(), false),
        AudioThreadActions::Loop => {
            player.toggle_looping();
            (Vec::new(), false)
        },
        AudioThreadActions::Volume => (player.set_volume(volume), false),
        AudioThreadActions::Skip => (player.next_song(), false),
        AudioThreadActions::Rewind => (player.set_position(0), false),
        AudioThreadActions::Shuffle => (player.shuffle(), false),
        AudioThreadActions::SongOverride => {
            proof {
                assert(crate::player::song_views(player.song_vec@)[clicked_index as int]
                    == player.song_vec@[clicked_index as int]@);
            }
            let song = player.song_vec[clicked_index].clone();
            let effs = player.song_override(&song);
            (effs, false)
        },
        AudioThreadActions::RequestSongVec => {
            let mut effs: Vec<Effect> = Vec::new();
            effs.push(Effect::SendQueueSnapshot);
            proof {
                assert(effs@ =~= seq![Effect::SendQueueSnapshot]);
            }
            (effs, false)
        },
        AudioThreadActions::LoadFromPlaylist => {
            let mut effs: Vec<Effect> = Vec::new();
            effs.push(Effect::LoadPlaylist(clicked_index));
            proof {
                assert(effs@ =~= seq![Effect::LoadPlaylist(clicked_index)]);
            }
            (effs, false)
        },
        AudioThreadActions::Reset => (player.reset(), false),
    }
}

} // verus!