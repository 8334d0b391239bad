//! Tracks: the immutable items of the playback queue.

use vstd::prelude::*;
use vstd::string::StrSliceExecFns;

verus! {

/// Abstract value of a [`Song`]; the contracts of the engine speak of this.
pub ghost struct SongView {
    pub name: Seq<char>,
    pub artist: Seq<char>,
    pub path: Seq<char>,
    pub duration_centis: u32,
}

/// A track in the queue, immutable once constructed.
///
/// Two songs are the same track exactly when their media paths are equal;
/// the display name and duration play no part in identity.  The duration is
/// held in hundredths of a second, the unit in which the engine publishes it.
#[derive(Debug)]
pub struct Song {
    pub name: String,
    pub artist: String,
    pub path: String,
    pub duration_centis: u32,
}

impl View for Song {
    type V = SongView;

    open spec fn view(&self) -> SongView {
        SongView {
            name: self.name@,
            artist: self.artist@,
            path: self.path@,
            duration_centis: self.duration_centis,
        }
    }
}

impl Clone for Song {
    fn clone(&self) -> (r: Self)
        ensures
            r@ == self@,
    {
        Song {
            name: self.name.clone(),
            artist: self.artist.clone(),
            path: self.path.clone(),
            duration_centis: self.duration_centis,
        }
    }
}

impl PartialEq for Song {
    fn eq(&self, other: &Self) -> (r: bool) {
        self.path == other.path
    }
}

/// Index of the last occurrence of `c` in `s`, or `-1` when `c` is absent.
pub open spec fn last_pos(s: Seq<char>, c: char) -> int
    decreases s.len(),
{
    if s.len() == 0 {
        -1
    } else if s[s.len() - 1] == c {
        s.len() - 1
    } else {
        last_pos(s.drop_last(), c)
    }
}

/// The path's final component: everything after the last `/`.
pub open spec fn base_name_of(path: Seq<char>) -> Seq<char> {
    path.subrange(last_pos(path, '/') + 1, path.len() as int)
}

/// The component without its extension: everything before the last `.`,
/// except that a dot in first position (a hidden file) starts no extension.
pub open spec fn stem_of(base: Seq<char>) -> Seq<char> {
    let d = last_pos(base, '.');
    if d <= 0 {
        base
    } else {
        base.subrange(0, d)
    }
}

pub open spec fn underscores_to_spaces(s: Seq<char>) -> Seq<char> {
    Seq::new(s.len(), |i: int| if s[i] == '_' { ' ' } else { s[i] })
}

/// The display name a track takes from its media path: the file stem with
/// underscores shown as spaces.
pub open spec fn song_name_of(path: Seq<char>) -> Seq<char> {
    underscores_to_spaces(stem_of(base_name_of(path)))
}

impl vstd::std_specs::cmp::PartialEqSpecImpl for Song {
    open spec fn obeys_eq_spec() -> bool {
        true
    }

    open spec fn eq_spec(&self, other: &Self) -> bool {
        self.path@ == other.path@
    }
}

/// Relies on `String::push`: appends exactly the one character.
#[verifier::external_body]
fn push_char(s: &mut String, c: char)
    ensures
        final(s)@ == old(s)@.push(c),
{
    s.push(c);
}

/// Derives a track's display name from its media path.
pub fn song_name_from_path(path: &str) -> (r: String)
    ensures
        r@ == song_name_of(path@),
{
    let n: usize = path.unicode_len();

    // One past the last '/' of the path; the final component starts here.
    let mut start: usize = 0;
    let mut i: usize = 0;
    while i < n
        invariant
            i <= n,
            n == path@.len(),
            start <= i,
            start as int == last_pos(path@.subrange(0, i as int), '/') + 1,
        decreases n - i,
    {
        let c = path.get_char(i);
        proof {
            let p1 = path@.subrange(0, i + 1);
            assert(p1.drop_last() =~= path@.subrange(0, i as int));
            assert(p1[p1.len() - 1] == path@[i as int]);
        }
        if c == '/' {
            start = i + 1;
        }
        i = i + 1;
    }
    proof {
        assert(path@.subrange(0, n as int) =~= path@);
    }

    // Absolute index of the last '.' inside the final component, if any.
    let ghost base = path@.subrange(start as int, n as int);
    let mut dot: usize = 0;
    let mut has_dot = false;
    let mut j: usize = start;
    while j < n
        invariant
            start <= j <= n,
            n == path@.len(),
            base == path@.subrange(start as int, n as int),
            has_dot ==> start <= dot < j,
            last_pos(base.subrange(0, j - start), '.') == if has_dot {
                dot - start
            } else {
                -1
            },
        decreases n - j,
    {
        let c = path.get_char(j);
        proof {
            let p1 = base.subrange(0, j - start + 1);
            assert(p1.drop_last() =~= base.subrange(0, j - start));
            assert(p1[p1.len() - 1] == base[j - start] == path@[j as int]);
        }
        if c == '.' {
            dot = j;
            has_dot = true;
        }
        j = j + 1;
    }
    proof {
        assert(base.subrange(0, n - start) =~= base);
    }

    // The stem, in absolute indices, is [start, end).
    let end: usize = if has_dot && dot > start {
        dot
    } else {
        n
    };
    proof {
        assert(base_name_of(path@) == base);
        assert(stem_of(base) =~= path@.subrange(start as int, end as int));
    }

    let mut out = String::new();
    let mut k: usize = start;
    while k < end
        invariant
            start <= k <= end <= n,
            n == path@.len(),
            out@ =~= underscores_to_spaces(path@.subrange(start as int, k as int)),
        decreases end - k,
    {
        let c = path.get_char(k);
        if c == '_' {
            push_char(&mut out, ' ');
        } else {
            push_char(&mut out, c);
        }
        proof {
            assert(out@ =~= underscores_to_spaces(path@.subrange(start as int, k + 1)));
        }
        k = k + 1;
    }
    proof {
        assert(out@ =~= underscores_to_spaces(stem_of(base_name_of(path@))));
    }
    out
}

impl Song {
    /// Builds a track from its media path, attribution and duration; the
    /// display name is derived from the path.
    pub fn new(path: String, artist: String, duration_centis: u32) -> (s: Song)
        ensures
            s@.path == path@,
            s@.artist == artist@,
            s@.duration_centis == duration_centis,
            s@.name == song_name_of(path@),
    {
        let name = song_name_from_path(path.as_str());
        Song { name, artist, path, duration_centis }
    }
}

/// Converts a sample count and rate into a duration in hundredths of a
/// second, saturating at the largest publishable value.
pub fn frames_to_centis(frames: u32, sample_rate: u32) -> (r: u32)
    requires
        sample_rate > 0,
    ensures
        r as int == ({
            let q = frames as int * 100 / sample_rate as int;
            if q > u32::MAX as int {
                u32::MAX as int
            } else {
                q
            }
        }),
{
    let q: u64 = (frames as u64 * 100) / (sample_rate as u64);
    if q > u32::MAX as u64 {
        u32::MAX
    } else {
        q as u32
    }
}

} // verus!
