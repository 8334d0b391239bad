use open_lights_core::player::AudioPlayer;
use open_lights_core::player::Effect;
use open_lights_core::scheduler::LightLifecycle;
use open_lights_core::song::Song;
use open_lights_core::worker::AudioThreadActions;
use open_lights_core::worker::TickReport;
use open_lights_core::worker::compute_progress;
use open_lights_core::worker::dispatch;
use open_lights_core::worker::tick;

fn song(path: &str, centis: u32) -> Song {
    Song::new(String::from(path), String::from("Unknown"), centis)
}

fn loaded_player(songs: Vec<Song>) -> AudioPlayer {
    let mut p = AudioPlayer::new();
    p.load_songs_from_playlist(songs);
    p
}

#[test]
fn new_player_is_idle() {
    let p = AudioPlayer::new();
    assert!(!p.playing && !p.song_loaded && !p.looping);
    assert_eq!(p.song_index, 0);
    assert_eq!(p.millisecond_position, 0);
    assert_eq!(p.volume, 100);
}

#[test]
fn play_prepares_an_unloaded_track() {
    let mut p = loaded_player(vec![song("a.wav", 1000), song("b.wav", 500)]);
    let effs = p.play();
    assert_eq!(
        effs,
        vec![
            Effect::SinkClear,
            Effect::LoadAudio,
            Effect::SchedulerStop,
            Effect::SchedulerArm,
            Effect::SinkPlay,
        ]
    );
    assert!(p.playing && p.song_loaded);
    assert_eq!(p.song_duration, 1000);
    assert_eq!(p.millisecond_position, 0);
}

#[test]
fn play_twice_changes_nothing_but_playing() {
    let mut p = loaded_player(vec![song("a.wav", 1000)]);
    p.play();
    let before = (
        p.song_index,
        p.song_loaded,
        p.looping,
        p.millisecond_position,
        p.song_duration,
        p.progress,
        p.volume,
        p.song_vec.clone(),
    );
    let effs = p.play();
    // The second play only resumes output: no reload, no re-arm.
    assert_eq!(effs, vec![Effect::SinkPlay]);
    assert!(p.playing);
    let after = (
        p.song_index,
        p.song_loaded,
        p.looping,
        p.millisecond_position,
        p.song_duration,
        p.progress,
        p.volume,
        p.song_vec.clone(),
    );
    assert_eq!(before, after);
}

#[test]
fn pause_suspends_without_rewinding() {
    let mut p = loaded_player(vec![song("a.wav", 1000)]);
    p.play();
    tick(&mut p, 1234, false);
    let effs = p.pause();
    assert_eq!(effs, vec![Effect::SinkPause]);
    assert!(!p.playing);
    assert_eq!(p.millisecond_position, 1234);
}

#[test]
fn next_song_wraps_around_at_the_end() {
    let mut p = loaded_player(vec![song("a.wav", 1000), song("b.wav", 500)]);
    p.play();
    p.next_song();
    assert_eq!(p.song_index, 1);
    // At the last queue position, skipping returns to the start.
    let effs = p.next_song();
    assert_eq!(p.song_index, 0);
    assert_eq!(effs[0], Effect::SinkPause);
    assert!(p.playing && p.song_loaded);
}

#[test]
fn song_override_finds_the_first_match() {
    let a = song("a.wav", 1000);
    let b = song("b.wav", 500);
    let mut p = loaded_player(vec![a.clone(), b.clone(), a.clone()]);
    assert_eq!(p.get_song_index(&b), 1);
    // Identity is the path, so the duplicate resolves to its first position.
    p.song_override(&b);
    assert_eq!(p.song_index, 1);
    p.song_override(&a);
    assert_eq!(p.song_index, 0);
    assert!(p.playing);
    assert!(p.get_current_song() == a);
}

#[test]
fn seek_publishes_at_once_and_resets_lights_only_at_zero() {
    let mut p = loaded_player(vec![song("a.wav", 1000)]);
    p.play();
    let effs = p.set_position(5000);
    assert_eq!(
        effs,
        vec![Effect::SinkPause, Effect::SinkSeek(5000), Effect::SinkPlay]
    );
    assert_eq!(p.millisecond_position, 5000);
    let effs = p.set_position(0);
    assert_eq!(
        effs,
        vec![
            Effect::SinkPause,
            Effect::SinkSeek(0),
            Effect::SinkPlay,
            Effect::SchedulerReset,
        ]
    );
    assert_eq!(p.millisecond_position, 0);
}

#[test]
fn volume_is_clamped_to_scale() {
    let mut p = AudioPlayer::new();
    assert_eq!(p.set_volume(127), vec![Effect::SinkSetVolume(100)]);
    assert_eq!(p.volume, 100);
    assert_eq!(p.set_volume(-5), vec![Effect::SinkSetVolume(0)]);
    assert_eq!(p.volume, 0);
    p.set_volume(55);
    assert_eq!(p.volume, 55);
}

#[test]
fn toggle_looping_flips_the_flag() {
    let mut p = AudioPlayer::new();
    p.toggle_looping();
    assert!(p.looping);
    p.toggle_looping();
    assert!(!p.looping);
}

#[test]
fn loading_a_playlist_replaces_the_queue() {
    let mut p = loaded_player(vec![song("a.wav", 1000)]);
    p.play();
    p.load_songs_from_playlist(vec![song("c.wav", 200), song("d.wav", 300)]);
    assert_eq!(p.song_vec.len(), 2);
    assert_eq!(p.song_index, 0);
    assert!(!p.song_loaded && !p.playing);
}

#[test]
fn shuffle_keeps_exactly_the_same_tracks() {
    let names = ["a.wav", "b.wav", "c.wav", "d.wav"];
    let mut p = loaded_player(names.iter().map(|n| song(n, 1000)).collect());
    let effs = p.shuffle();
    // The index returns to the start and the new first track plays.
    assert_eq!(p.song_index, 0);
    assert!(p.playing && p.song_loaded);
    assert_eq!(
        effs,
        vec![
            Effect::SinkClear,
            Effect::LoadAudio,
            Effect::SchedulerStop,
            Effect::SchedulerArm,
            Effect::SinkPlay,
        ]
    );
    // The queue is a permutation of the original four tracks.
    assert_eq!(p.song_vec.len(), 4);
    let mut paths: Vec<String> = p.song_vec.iter().map(|s| s.path.clone()).collect();
    paths.sort();
    assert_eq!(paths, names.iter().map(|n| String::from(*n)).collect::<Vec<String>>());
}

#[test]
fn progress_formula_is_exact() {
    assert_eq!(compute_progress(5000, 1000), 50);
    assert_eq!(compute_progress(10_000, 1000), 100);
    assert_eq!(compute_progress(9_900, 1000), 90);
    assert_eq!(compute_progress(0, 1000), 0);
    assert_eq!(compute_progress(u64::MAX, 1), u32::MAX);
}

#[test]
fn tick_publishes_only_while_playing() {
    let mut p = loaded_player(vec![song("a.wav", 1000)]);
    let (effs, report) = tick(&mut p, 777, false);
    assert_eq!(report, TickReport::Idle);
    assert_eq!(effs, Vec::new());
    assert_eq!(p.millisecond_position, 0);
    p.play();
    let (effs, report) = tick(&mut p, 2500, false);
    assert_eq!(report, TickReport::Published);
    assert_eq!(effs, Vec::new());
    assert_eq!(p.millisecond_position, 2500);
    assert_eq!(p.progress, 20);
}

#[test]
fn tick_reports_a_zero_duration_as_a_configuration_error() {
    let mut p = loaded_player(vec![song("a.wav", 0)]);
    p.play();
    let (effs, report) = tick(&mut p, 100, false);
    assert_eq!(report, TickReport::ZeroDuration);
    assert_eq!(effs, Vec::new());
    // The position is published; the progress is left alone.
    assert_eq!(p.millisecond_position, 100);
    assert_eq!(p.progress, 0);
}

#[test]
fn worker_advances_past_a_finished_track() {
    // Queue [A of 10 s, B of 5 s], looping off.
    let mut p = loaded_player(vec![song("a.wav", 1000), song("b.wav", 500)]);
    let mut lifecycle = LightLifecycle::new();
    let (effs, _) = dispatch(&mut p, AudioThreadActions::Play, 0, 100);
    drive_scheduler_effects(&effs, &mut lifecycle);
    assert!(lifecycle.active);

    // Ticks before the end change nothing but the published values.
    for pos in [0u64, 2500, 5000, 9900] {
        let (effs, report) = tick(&mut p, pos, false);
        assert_eq!(report, TickReport::Published);
        assert_eq!(effs, Vec::new());
        assert_eq!(p.song_index, 0);
    }
    // The threshold alone does not advance while the sink still buffers.
    let (effs, _) = tick(&mut p, 10_000, false);
    assert_eq!(effs, Vec::new());
    assert_eq!(p.song_index, 0);

    // Threshold reached and the buffer empty: the worker skips to B.
    let (effs, _) = tick(&mut p, 10_000, true);
    assert_eq!(
        effs,
        vec![
            Effect::SinkPause,
            Effect::SinkClear,
            Effect::LoadAudio,
            Effect::SchedulerStop,
            Effect::SchedulerArm,
            Effect::SinkPlay,
        ]
    );
    assert_eq!(p.song_index, 1);
    assert_eq!(p.song_duration, 500);
    assert!(p.playing);
    // A's scheduler deactivates before B's arms.
    let stop = effs.iter().position(|e| *e == Effect::SchedulerStop).unwrap();
    let arm = effs.iter().position(|e| *e == Effect::SchedulerArm).unwrap();
    assert!(stop < arm);
    drive_scheduler_effects(&effs, &mut lifecycle);
    assert!(lifecycle.active);
}

/// Plays the scheduler-lifecycle part of an effect list the way the worker
/// loop does: a stop is requested and waited out before a new arm.
fn drive_scheduler_effects(effs: &[Effect], lifecycle: &mut LightLifecycle) {
    for e in effs {
        match e {
            Effect::SchedulerStop => {
                lifecycle.request_stop();
                if lifecycle.stop_requested {
                    // The running scheduler observes the request and winds
                    // down; only then may the next one arm.
                    lifecycle.acknowledge_stop();
                }
            }
            Effect::SchedulerArm => {
                assert!(!lifecycle.active);
                lifecycle.begin_run();
            }
            _ => {}
        }
    }
}

#[test]
fn worker_replays_a_finished_track_when_looping() {
    let mut p = loaded_player(vec![song("a.wav", 1000), song("b.wav", 500)]);
    dispatch(&mut p, AudioThreadActions::Play, 0, 100);
    dispatch(&mut p, AudioThreadActions::Loop, 0, 100);
    assert!(p.looping);
    let (effs, _) = tick(&mut p, 10_000, true);
    assert_eq!(
        effs,
        vec![
            Effect::SinkClear,
            Effect::LoadAudio,
            Effect::SchedulerStop,
            Effect::SchedulerArm,
            Effect::SinkPlay,
        ]
    );
    // The same track restarts from the top.
    assert_eq!(p.song_index, 0);
    assert_eq!(p.millisecond_position, 0);
    assert!(p.playing);
}

#[test]
fn dispatch_covers_the_command_set() {
    let mut p = loaded_player(vec![song("a.wav", 1000), song("b.wav", 500)]);

    let (effs, exit) = dispatch(&mut p, AudioThreadActions::RequestSongVec, 0, 100);
    assert!(!exit);
    assert_eq!(effs, vec![Effect::SendQueueSnapshot]);

    let (effs, exit) = dispatch(&mut p, AudioThreadActions::LoadFromPlaylist, 3, 100);
    assert!(!exit);
    assert_eq!(effs, vec![Effect::LoadPlaylist(3)]);

    let (effs, exit) = dispatch(&mut p, AudioThreadActions::Volume, 0, 40);
    assert!(!exit);
    assert_eq!(effs, vec![Effect::SinkSetVolume(40)]);

    let (effs, exit) = dispatch(&mut p, AudioThreadActions::SongOverride, 1, 100);
    assert!(!exit);
    assert_eq!(p.song_index, 1);
    assert_eq!(effs[0], Effect::SinkPause);

    let (effs, exit) = dispatch(&mut p, AudioThreadActions::Rewind, 0, 100);
    assert!(!exit);
    assert!(effs.contains(&Effect::SchedulerReset));
    assert_eq!(p.millisecond_position, 0);

    let (effs, exit) = dispatch(&mut p, AudioThreadActions::Reset, 0, 100);
    assert!(!exit);
    assert_eq!(
        effs,
        vec![Effect::SinkPause, Effect::SinkClear, Effect::SchedulerStop]
    );
    assert!(!p.playing && !p.song_loaded);
    assert_eq!(p.song_index, 0);
    assert_eq!(p.song_vec.len(), 2);

    // The kill command exits the loop, scheduler torn down first.
    let (effs, exit) = dispatch(&mut p, AudioThreadActions::KillThread, 0, 100);
    assert!(exit);
    assert_eq!(effs, vec![Effect::SchedulerStop]);
}
