//! The playback engine: the track queue, the transport state and the
//! published position, with every operation a verified transition.
//!
//! The engine does not touch the audio device or the scheduler thread
//! itself: each operation says in its returned [`Effect`] list, in order,
//! what the caller must do to the audio sink and the cue scheduler.  The
//! effects that load or arm concern the track that is current when the
//! operation returns.

use vstd::prelude::*;

use crate::song::Song;
use crate::song::SongView;

verus! {

/// One instruction to the engine's surroundings, in the order returned.
#[derive(Clone, Copy, PartialEq, Eq, Structural, Debug)]
pub enum Effect {
    /// Drop whatever audio is queued on the sink.
    SinkClear,
    /// Decode the current track and queue it on the sink.
    LoadAudio,
    /// Ask a running cue scheduler to stop, and wait until it has.
    SchedulerStop,
    /// Load the current track's cue set and arm a scheduler when non-empty.
    SchedulerArm,
    /// Resume sink output.
    SinkPlay,
    /// Suspend sink output.
    SinkPause,
    /// Seek the sink to the given position in milliseconds.
    SinkSeek(u64),
    /// Apply the given volume, in hundredths of full scale.
    SinkSetVolume(i8),
    /// Ask the cue scheduler to rewind and re-synchronize from the start.
    SchedulerReset,
    /// Send a copy of the queue over the snapshot channel.
    SendQueueSnapshot,
    /// Gather the songs of the playlist at the given index and load them.
    LoadPlaylist(usize),
}

/// Abstract value of an [`AudioPlayer`].
pub ghost struct PlayerView {
    pub queue: Seq<SongView>,
    pub playing: bool,
    pub loaded: bool,
    pub looping: bool,
    pub index: int,
    pub position_ms: u64,
    pub duration_centis: u32,
    pub progress_hundredths: u32,
    pub volume: i8,
}

impl PlayerView {
    /// The structural part of the invariant: a current index only against a
    /// non-empty queue, volume within scale.
    pub open spec fn base_wf(self) -> bool {
        &&& if self.queue.len() > 0 {
            0 <= self.index < self.queue.len()
        } else {
            self.index == 0
        }
        &&& 0 <= self.volume <= 100
    }

    /// The transport invariant: additionally, playing only what is loaded
    /// from a non-empty queue.
    pub open spec fn wf(self) -> bool {
        &&& self.base_wf()
        &&& self.playing ==> self.loaded && self.queue.len() > 0
    }
}

/// The playback engine.  It owns the queue and the transport state and
/// publishes position, duration and progress; it is mutated only through
/// its operations, by a single owner.
pub struct AudioPlayer {
    pub song_vec: Vec<Song>,
    pub playing: bool,
    pub song_loaded: bool,
    pub looping: bool,
    pub song_index: usize,
    /// Published elapsed time of the current track, in milliseconds.
    pub millisecond_position: u64,
    /// Published duration of the current track, in hundredths of a second.
    pub song_duration: u32,
    /// Published progress through the current track, in hundredths.
    pub progress: u32,
    /// Volume, in hundredths of full scale.
    pub volume: i8,
}

pub open spec fn song_views(songs: Seq<Song>) -> Seq<SongView> {
    songs.map_values(|s: Song| s@)
}

impl View for AudioPlayer {
    type V = PlayerView;

    open spec fn view(&self) -> PlayerView {
        PlayerView {
            queue: song_views(self.song_vec@),
            playing: self.playing,
            loaded: self.song_loaded,
            looping: self.looping,
            index: self.song_index as int,
            position_ms: self.millisecond_position,
            duration_centis: self.song_duration,
            progress_hundredths: self.progress,
            volume: self.volume,
        }
    }
}

impl AudioPlayer {
    pub open spec fn wf(self) -> bool {
        self@.wf()
    }
}

// ---------------------------------------------------------------------------
// The transitions, as spec functions; the operations promise to follow them.
// ---------------------------------------------------------------------------

/// Preparing the current track: position to zero, duration published from
/// the track, loaded; the sink is cleared and reloaded and the scheduler
/// torn down and re-armed.
pub open spec fn prepare_spec(s: PlayerView) -> PlayerView {
    PlayerView {
        position_ms: 0,
        duration_centis: s.queue[s.index].duration_centis,
        loaded: true,
        ..s
    }
}

pub open spec fn prepare_effects() -> Seq<Effect> {
    seq![Effect::SinkClear, Effect::LoadAudio, Effect::SchedulerStop, Effect::SchedulerArm]
}

/// Playing resumes output; an unloaded track is prepared first.
pub open spec fn play_spec(s: PlayerView) -> PlayerView {
    if s.loaded {
        PlayerView { playing: true, ..s }
    } else {
        PlayerView { playing: true, ..prepare_spec(s) }
    }
}

pub open spec fn play_effects(s: PlayerView) -> Seq<Effect> {
    if s.loaded {
        seq![Effect::SinkPlay]
    } else {
        prepare_effects() + seq![Effect::SinkPlay]
    }
}

pub open spec fn pause_spec(s: PlayerView) -> PlayerView {
    PlayerView { playing: false, ..s }
}

/// Skipping forward: the next index, wrapping to the start past the end,
/// then play of the not-yet-loaded track.
pub open spec fn next_index(s: PlayerView) -> int {
    if s.index + 1 >= s.queue.len() {
        0
    } else {
        s.index + 1
    }
}

pub open spec fn next_spec(s: PlayerView) -> PlayerView {
    play_spec(PlayerView { playing: false, index: next_index(s), loaded: false, ..s })
}

pub open spec fn next_effects(s: PlayerView) -> Seq<Effect> {
    seq![Effect::SinkPause] + play_effects(
        PlayerView { playing: false, index: next_index(s), loaded: false, ..s },
    )
}

/// First queue position whose track has the given path, `-1` when none has.
pub open spec fn first_path_index(q: Seq<SongView>, path: Seq<char>) -> int
    decreases q.len(),
{
    if q.len() == 0 {
        -1
    } else if q[0].path == path {
        0
    } else {
        let r = first_path_index(q.drop_first(), path);
        if r < 0 {
            -1
        } else {
            r + 1
        }
    }
}

/// Overriding: current index moved to the chosen track, then play of the
/// not-yet-loaded track.
pub open spec fn override_spec(s: PlayerView, path: Seq<char>) -> PlayerView {
    play_spec(
        PlayerView {
            playing: false,
            index: first_path_index(s.queue, path),
            loaded: false,
            ..s
        },
    )
}

pub open spec fn override_effects(s: PlayerView, path: Seq<char>) -> Seq<Effect> {
    seq![Effect::SinkPause] + play_effects(
        PlayerView {
            playing: false,
            index: first_path_index(s.queue, path),
            loaded: false,
            ..s
        },
    )
}

/// Seeking: pause, seek, resume, then the published position set to the
/// target at once.
pub open spec fn seek_spec(s: PlayerView, time_ms: u64) -> PlayerView {
    PlayerView { position_ms: time_ms, ..play_spec(pause_spec(s)) }
}

pub open spec fn seek_effects(s: PlayerView, time_ms: u64) -> Seq<Effect> {
    let base = seq![Effect::SinkPause, Effect::SinkSeek(time_ms)] + play_effects(pause_spec(s));
    if time_ms == 0 {
        base + seq![Effect::SchedulerReset]
    } else {
        base
    }
}

pub open spec fn clamp_volume(v: i8) -> i8 {
    if v < 0 {
        0
    } else if v > 100 {
        100
    } else {
        v
    }
}

proof fn lemma_first_path_index_props(q: Seq<SongView>, path: Seq<char>)
    ensures
        first_path_index(q, path) == -1 || 0 <= first_path_index(q, path) < q.len(),
        (exists|i: int| 0 <= i < q.len() && q[i].path == path) <==> 0 <= first_path_index(
            q,
            path,
        ) < q.len(),
        0 <= first_path_index(q, path) ==> q[first_path_index(q, path)].path == path
            && forall|k: int| 0 <= k < first_path_index(q, path) ==> q[k].path != path,
    decreases q.len(),
{
    if q.len() > 0 && q[0].path != path {
        lemma_first_path_index_props(q.drop_first(), path);
        let r = first_path_index(q.drop_first(), path);
        if r >= 0 {
            assert(q[r + 1] == q.drop_first()[r]);
            assert forall|k: int| 0 <= k < r + 1 implies q[k].path != path by {
                if k > 0 {
                    assert(q[k] == q.drop_first()[k - 1]);
                }
            }
        } else {
            assert forall|i: int| 0 <= i < q.len() implies q[i].path != path by {
                if i > 0 {
                    assert(q.drop_first()[i - 1] == q[i]);
                }
            }
        }
    }
}

// ---------------------------------------------------------------------------
// The operations.
// ---------------------------------------------------------------------------

/// Relies on `fastrand::shuffle`: permutes the slice in place, so the songs
/// afterwards are exactly the songs before, in some order.
#[verifier::external_body]
fn shuffle_songs(v: &mut Vec<Song>)
    ensures
        final(v)@.len() == old(v)@.len(),
        final(v)@.to_multiset() == old(v)@.to_multiset(),
        song_views(final(v)@).to_multiset() == song_views(old(v)@).to_multiset(),
{
    fastrand::shuffle(v.as_mut_slice());
}

impl AudioPlayer {
    /// A fresh engine: empty queue, nothing loaded, nothing playing, the
    /// published values at zero and the volume at full scale.
    pub fn new() -> (r: AudioPlayer)
        ensures
            r.wf(),
            r@.queue.len() == 0,
            !r@.playing,
            !r@.loaded,
            !r@.looping,
            r@.index == 0,
            r@.position_ms == 0,
            r@.duration_centis == 0,
            r@.progress_hundredths == 0,
            r@.volume == 100,
    {
        let r = AudioPlayer {
            song_vec: Vec::new(),
            playing: false,
            song_loaded: false,
            looping: false,
            song_index: 0,
            millisecond_position: 0,
            song_duration: 0,
            progress: 0,
            volume: 100,
        };
        proof {
            assert(song_views(r.song_vec@) =~= Seq::<SongView>::empty());
        }
        r
    }

    /// Prepares the current track for output: resets the published
    /// position, publishes the track's duration and marks the engine
    /// loaded.  The caller reloads the sink and re-arms the scheduler, old
    /// scheduler first torn down, in the order of the effects.
    pub fn prepare_song(&mut self) -> (effs: Vec<Effect>)
        requires
            old(self)@.base_wf(),
            old(self)@.queue.len() > 0,
        ensures
            final(self).wf(),
            final(self)@ == prepare_spec(old(self)@),
            effs@ == prepare_effects(),
    {
        self.millisecond_position = 0;
        self.song_duration = self.song_vec[self.song_index].duration_centis;
        self.song_loaded = true;
        let mut effs: Vec<Effect> = Vec::new();
        effs.push(Effect::SinkClear);
        effs.push(Effect::LoadAudio);
        effs.push(Effect::SchedulerStop);
        effs.push(Effect::SchedulerArm);
        proof {
            assert(effs@ =~= prepare_effects());
            assert(song_views(self.song_vec@)[self.song_index as int]
                == self.song_vec@[self.song_index as int]@);
        }
        effs
    }

    /// Resumes playback; a track not yet loaded is prepared first.
    pub fn play(&mut self) -> (effs: Vec<Effect>)
        requires
            old(self)@.base_wf(),
            old(self)@.queue.len() > 0,
        ensures
            final(self).wf(),
            final(self)@ == play_spec(old(self)@),
            effs@ == play_effects(old(self)@),
    {
        if self.song_loaded {
            self.playing = true;
            let mut effs: Vec<Effect> = Vec::new();
            effs.push(Effect::SinkPlay);
            proof {
                assert(effs@ =~= play_effects(old(self)@));
            }
            effs
        } else {
            let mut effs = self.prepare_song();
            self.playing = true;
            effs.push(Effect::SinkPlay);
            proof {
                assert(effs@ =~= play_effects(old(self)@));
            }
            effs
        }
    }

    /// Suspends output; the published position stays where it is.
    pub fn pause(&mut self) -> (effs: Vec<Effect>)
        requires
            old(self).wf(),
        ensures
            final(self).wf(),
            final(self)@ == pause_spec(old(self)@),
            effs@ == seq![Effect::SinkPause],
    {
        self.playing = false;
        let mut effs: Vec<Effect> = Vec::new();
        effs.push(Effect::SinkPause);
        proof {
            assert(effs@ =~= seq![Effect::SinkPause]);
        }
        effs
    }

    /// The current track, by value.
    pub fn get_current_song(&self) -> (s: Song)
        requires
            self.wf(),
            self@.queue.len() > 0,
        ensures
            s@ == self@.queue[self@.index],
    {
        proof {
            assert(song_views(self.song_vec@)[self.song_index as int]
                == self.song_vec@[self.song_index as int]@);
        }
        self.song_vec[self.song_index].clone()
    }

    /// The first queue position of the given track, by path identity.  The
    /// caller must only pass tracks that come from the current queue.
    pub fn get_song_index(&self, song: &Song) -> (r: usize)
        requires
            self.wf(),
            exists|i: int| 0 <= i < self@.queue.len() && self@.queue[i].path == song@.path,
        ensures
            r as int == first_path_index(self@.queue, song@.path),
            0 <= r < self@.queue.len(),
            self@.queue[r as int].path == song@.path,
    {
        proof {
            lemma_first_path_index_props(self@.queue, song@.path);
        }
        let n = self.song_vec.len();
        let mut i: usize = 0;
        while i < n
            invariant
                i <= n,
                n == self.song_vec@.len(),
                self@.queue.len() == n,
                0 <= first_path_index(self@.queue, song@.path) < n,
                self@.queue[first_path_index(self@.queue, song@.path)].path == song@.path,
                forall|k: int|
                    0 <= k < first_path_index(self@.queue, song@.path) ==> self@.queue[k].path
                        != song@.path,
                forall|k: int| 0 <= k < i ==> self@.queue[k].path != song@.path,
            decreases n - i,
        {
            proof {
                assert(song_views(self.song_vec@)[i as int] == self.song_vec@[i as int]@);
            }
            if self.song_vec[i].eq(song) {
                return i;
            }
            i = i + 1;
        }
        proof {
            assert(false);
        }
        0
    }

    /// Randomly permutes the queue in place, moves the current index to the
    /// start and plays the new first track.  Any index held across this
    /// call is invalidated.
    pub fn shuffle(&mut self) -> (effs: Vec<Effect>)
        requires
            old(self).wf(),
            old(self)@.queue.len() > 0,
        ensures
            final(self).wf(),
            final(self)@.queue.to_multiset() == old(self)@.queue.to_multiset(),
            final(self)@.queue.len() == old(self)@.queue.len(),
            final(self)@ == play_spec(
                PlayerView {
                    queue: final(self)@.queue,
                    playing: old(self)@.playing,
                    index: 0,
                    loaded: false,
                    ..old(self)@
                },
            ),
            effs@ == prepare_effects() + seq![Effect::SinkPlay],
    {
        shuffle_songs(&mut self.song_vec);
        self.song_index = 0;
        self.song_loaded = false;
        let ghost mid = self@;
        proof {
            broadcast use vstd::seq_lib::group_to_multiset_ensures;

            assert(self@.queue.to_multiset().len() == old(self)@.queue.to_multiset().len());
            assert(self@.queue.len() > 0);
        }
        let effs = self.play();
        proof {
            assert(play_effects(mid) =~= prepare_effects() + seq![Effect::SinkPlay]);
        }
        effs
    }

    /// Sets the output volume, clamped to scale, applied at once.
    pub fn set_volume(&mut self, new_volume: i8) -> (effs: Vec<Effect>)
        requires
            old(self).wf(),
        ensures
            final(self).wf(),
            final(self)@ == (PlayerView { volume: clamp_volume(new_volume), ..old(self)@ }),
            effs@ == seq![Effect::SinkSetVolume(clamp_volume(new_volume))],
    {
        let v: i8 = if new_volume < 0 {
            0
        } else if new_volume > 100 {
            100
        } else {
            new_volume
        };
        self.volume = v;
        let mut effs: Vec<Effect> = Vec::new();
        effs.push(Effect::SinkSetVolume(v));
        proof {
            assert(effs@ =~= seq![Effect::SinkSetVolume(clamp_volume(new_volume))]);
        }
        effs
    }

    /// Moves the current index to the given track — which the caller must
    /// take from the current queue — and plays it from the start.
    pub fn song_override(&mut self, song: &Song) -> (effs: Vec<Effect>)
        requires
            old(self).wf(),
            exists|i: int|
                0 <= i < old(self)@.queue.len() && old(self)@.queue[i].path == song@.path,
        ensures
            final(self).wf(),
            final(self)@ == override_spec(old(self)@, song@.path),
            effs@ == override_effects(old(self)@, song@.path),
    {
        let mut effs = self.pause();
        let index = self.get_song_index(song);
        self.song_index = index;
        self.song_loaded = false;
        proof {
            lemma_first_path_index_props(old(self)@.queue, song@.path);
        }
        let mut rest = self.play();
        effs.append(&mut rest);
        proof {
            assert(effs@ =~= override_effects(old(self)@, song@.path));
        }
        effs
    }

    /// Skips to the next track, wrapping to the start at the end of the
    /// queue, and plays it.
    pub fn next_song(&mut self) -> (effs: Vec<Effect>)
        requires
            old(self).wf(),
            old(self)@.queue.len() > 0,
        ensures
            final(self).wf(),
            final(self)@ == next_spec(old(self)@),
            final(self)@.index == next_index(old(self)@),
            effs@ == next_effects(old(self)@),
    {
        let mut effs = self.pause();
        let len = self.song_vec.len();
        if self.song_index + 1 >= len {
            self.song_index = 0;
        } else {
            self.song_index = self.song_index + 1;
        }
        self.song_loaded = false;
        let mut rest = self.play();
        effs.append(&mut rest);
        proof {
            assert(effs@ =~= next_effects(old(self)@));
        }
        effs
    }

    /// Seeks to the given position: pauses, seeks the sink, resumes, and
    /// publishes the target position at once.  A seek to the very start
    /// additionally asks the scheduler to re-synchronize, so lights replay
    /// from the beginning instead of skipping already-fired events.
    pub fn set_position(&mut self, time_ms: u64) -> (effs: Vec<Effect>)
        requires
            old(self).wf(),
            old(self)@.queue.len() > 0,
        ensures
            final(self).wf(),
            final(self)@ == seek_spec(old(self)@, time_ms),
            effs@ == seek_effects(old(self)@, time_ms),
    {
        let mut effs = self.pause();
        effs.push(Effect::SinkSeek(time_ms));
        let mut rest = self.play();
        effs.append(&mut rest);
        self.millisecond_position = time_ms;
        if time_ms == 0 {
            effs.push(Effect::SchedulerReset);
        }
        proof {
            assert(effs@ =~= seek_effects(old(self)@, time_ms));
        }
        effs
    }

    /// Flips the looping flag; the worker's end-of-track check consumes it.
    pub fn toggle_looping(&mut self)
        requires
            old(self).wf(),
        ensures
            final(self).wf(),
            final(self)@ == (PlayerView { looping: !old(self)@.looping, ..old(self)@ }),
    {
        self.looping = !self.looping;
    }

    /// Replaces the queue with freshly gathered songs: the current index
    /// returns to the start, nothing is loaded and output stops, so the
    /// collaborator starts playback anew against the new queue.
    pub fn load_songs_from_playlist(&mut self, songs: Vec<Song>) -> (effs: Vec<Effect>)
        requires
            old(self).wf(),
        ensures
            final(self).wf(),
            final(self)@ == (PlayerView {
                queue: song_views(songs@),
                playing: false,
                loaded: false,
                index: 0,
                ..old(self)@
            }),
            effs@ == seq![Effect::SinkPause],
    {
        self.song_vec = songs;
        self.song_index = 0;
        self.song_loaded = false;
        self.playing = false;
        let mut effs: Vec<Effect> = Vec::new();
        effs.push(Effect::SinkPause);
        proof {
            assert(effs@ =~= seq![Effect::SinkPause]);
        }
        effs
    }

    /// Returns the whole engine to the freshly-queued state: output stops,
    /// nothing is loaded, the index and the published values return to
    /// zero; the queue itself is kept.
    pub fn reset(&mut self) -> (effs: Vec<Effect>)
        requires
            old(self).wf(),
        ensures
            final(self).wf(),
            final(self)@ == (PlayerView {
                playing: false,
                loaded: false,
                index: 0,
                position_ms: 0,
                duration_centis: 0,
                progress_hundredths: 0,
                ..old(self)@
            }),
            effs@ == seq![Effect::SinkPause, Effect::SinkClear, Effect::SchedulerStop],
    {
        self.playing = false;
        self.song_loaded = false;
        self.song_index = 0;
        self.millisecond_position = 0;
        self.song_duration = 0;
        self.progress = 0;
        let mut effs: Vec<Effect> = Vec::new();
        effs.push(Effect::SinkPause);
        effs.push(Effect::SinkClear);
        effs.push(Effect::SchedulerStop);
        proof {
            assert(effs@ =~= seq![
                Effect::SinkPause,
                Effect::SinkClear,
                Effect::SchedulerStop,
            ]);
        }
        effs
    }
}

// ---------------------------------------------------------------------------
// Laws of the transitions.
// ---------------------------------------------------------------------------

/// Idempotence law: playing while already playing changes nothing — the
/// transport state after one or two further plays is the state itself, with
/// `playing` still true.
pub proof fn lemma_play_idempotent(s: PlayerView)
    requires
        s.wf(),
        s.playing,
    ensures
        play_spec(s) == s,
        play_spec(play_spec(s)) == s,
{
}

/// Wraparound law: skipping from the last queue position moves the current
/// index to the start.
pub proof fn lemma_next_wraparound(s: PlayerView)
    requires
        s.queue.len() > 0,
        s.index == s.queue.len() - 1,
    ensures
        next_spec(s).index == 0,
{
}

} // verus!
