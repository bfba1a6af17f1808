//! The cursor: an address into the document — track, beat, string, and
//! the first visible beat (`scroll`) — with navigation and mutation
//! operations. The cursor holds no document data; every operation takes
//! the `Song` afresh and resolves the address against it. Seeking past
//! the end of a track grows the track by repeating the last beat's
//! duration, modelling an unbounded, lazily materialized timeline.

use crate::buffer::Buffer;
use crate::dur::Duration;
use crate::song::{
    beat_wf, beats_view, del_note_spec, durs_of, find_note_spec, lemma_del_note_unique,
    lemma_set_note_unique, notes_unique, set_note_spec, song_wf, track_measures, track_scan_ok,
    track_wf, Beat, BeatV, Note, Song, SongV, Track, TrackV,
};
use vstd::math::{max, min};
use vstd::pervasive::VecAdditionalExecFns;
use vstd::prelude::*;

verus! {

/// An address into a song: the track, the beat within it, the string
/// within the beat, and the first visible beat of the view window.
#[derive(Debug, Clone, Copy, PartialEq, Eq, Structural)]
pub struct Cursor {
    pub scroll: usize,
    pub track: usize,
    pub beat: usize,
    pub string: u16,
}

/// The song with track `ti` replaced.
pub open spec fn upd_track(s: SongV, ti: int, t: TrackV) -> SongV {
    SongV { tracks: s.tracks.update(ti, t) }
}

/// The song after replacing the beats of track `ti` and re-deriving that
/// track's measure index.
pub open spec fn with_beats(s: SongV, ti: int, beats: Seq<BeatV>) -> SongV {
    let t = s.tracks[ti];
    upd_track(s, ti, TrackV { beats, measures: track_measures(beats), ..t })
}

/// The song after replacing the beats of track `ti` without touching the
/// measure index (used when no duration changes).
pub open spec fn with_beats_same_measures(s: SongV, ti: int, beats: Seq<BeatV>) -> SongV {
    let t = s.tracks[ti];
    upd_track(s, ti, TrackV { beats, ..t })
}

/// Every beat of the sequence is well-formed.
pub open spec fn beats_wf(beats: Seq<BeatV>) -> bool {
    forall|i: int| 0 <= i < beats.len() ==> beat_wf(#[trigger] beats[i])
}

/// The beat sequence grown so `target` is a valid index: copies of the
/// last beat's duration, holding no notes, are appended as needed.
pub open spec fn grown_beats(beats: Seq<BeatV>, target: int) -> Seq<BeatV> {
    if target < beats.len() {
        beats
    } else {
        beats + Seq::new(
            (target + 1 - beats.len()) as nat,
            |i: int| BeatV { dur: beats.last().dur, notes: Seq::empty() },
        )
    }
}

/// Auto-growth reaches exactly the sought index: seeking to index
/// `target` on a track of `k` beats appends `target + 1 - k` beats when
/// `target` lies past the end, each carrying the prior last beat's
/// duration and no notes, and leaves the track unchanged otherwise.
pub proof fn lemma_grown_beats(beats: Seq<BeatV>, target: int)
    requires
        beats.len() >= 1,
        target >= 0,
    ensures
        grown_beats(beats, target).len() == max(beats.len() as int, target + 1),
        forall|i: int| 0 <= i < beats.len() ==> #[trigger] grown_beats(beats, target)[i]
            == beats[i],
        forall|i: int|
            beats.len() <= i < grown_beats(beats, target).len() ==> (#[trigger] grown_beats(
                beats,
                target,
            )[i]).dur == beats.last().dur && grown_beats(beats, target)[i].notes === Seq::empty(),
{
}

/// The view window slid so the cursor is inside it: the window start
/// moves up to the cursor or forward until the cursor is the last
/// visible beat.
pub open spec fn scroll_to_cursor_spec(scroll: int, beat: int, width: int) -> int {
    let s1 = if scroll > beat {
        beat
    } else {
        scroll
    };
    if s1 + width - 1 < beat {
        beat - (width - 1)
    } else {
        s1
    }
}

/// The cursor clamped into the view window `[scroll, scroll + width)`.
pub open spec fn cursor_to_scroll_spec(scroll: int, beat: int, width: int) -> int {
    if beat < scroll {
        scroll
    } else if beat > scroll + width - 1 {
        scroll + width - 1
    } else {
        beat
    }
}

/// The first index at or after `j` that starts a measure, stopping at the
/// last index.
pub open spec fn scan_fwd(l: Seq<bool>, j: int) -> int
    recommends
        0 <= j <= l.len() - 1,
    decreases l.len() - j,
{
    if j >= l.len() - 1 || l[j] {
        j
    } else {
        scan_fwd(l, j + 1)
    }
}

/// The first index at or before `j` that starts a measure, stopping at
/// index zero.
pub open spec fn scan_bwd(l: Seq<bool>, j: int) -> int
    recommends
        0 <= j < l.len(),
    decreases j,
{
    if j <= 0 || l[j] {
        j
    } else {
        scan_bwd(l, j - 1)
    }
}

impl Cursor {
    /// The addressed track exists in the song.
    pub open spec fn track_in(&self, s: SongV) -> bool {
        self.track < s.tracks.len()
    }

    /// The addressed beat exists in the addressed track.
    pub open spec fn beat_in(&self, s: SongV) -> bool {
        self.track_in(s) && self.beat < s.tracks[self.track as int].beats.len()
    }

    /// The addressed string exists on the addressed track.
    pub open spec fn string_in(&self, s: SongV) -> bool {
        self.track_in(s) && self.string < s.tracks[self.track as int].string_count
    }

    /// The beats of the addressed track.
    pub open spec fn beats_of(&self, s: SongV) -> Seq<BeatV> {
        s.tracks[self.track as int].beats
    }

    /// The addressed beat.
    pub open spec fn beat_of(&self, s: SongV) -> BeatV {
        self.beats_of(s)[self.beat as int]
    }

    /// The cursor at the origin.
    pub fn new() -> (r: Self)
        ensures
            r == (Cursor { scroll: 0, track: 0, beat: 0, string: 0 }),
    {
        Cursor { scroll: 0, track: 0, beat: 0, string: 0 }
    }

    /// The addressed track.
    pub fn track<'a>(&self, song: &'a Song) -> (r: &'a Track)
        requires
            self.track_in(song@),
        ensures
            r@ == song@.tracks[self.track as int],
    {
        &song.tracks[self.track]
    }

    /// Mutable access to the addressed track.
    pub fn track_mut<'a>(&self, song: &'a mut Song) -> (r: &'a mut Track)
        requires
            self.track_in(old(song)@),
        ensures
            *r == old(song).tracks@[self.track as int],
            final(song)@.tracks == old(song)@.tracks.update(self.track as int, final(r)@),
    {
        &mut song.tracks[self.track]
    }

    /// The addressed track's beats.
    pub fn beats<'a>(&self, song: &'a Song) -> (r: &'a Vec<Beat>)
        requires
            self.track_in(song@),
        ensures
            beats_view(r@) == self.beats_of(song@),
    {
        &song.tracks[self.track].beats
    }

    /// Mutable access to the addressed track's beats.
    pub fn beats_mut<'a>(&self, song: &'a mut Song) -> (r: &'a mut Vec<Beat>)
        requires
            self.track_in(old(song)@),
        ensures
            beats_view((*r)@) == old(song)@.tracks[self.track as int].beats,
            final(song)@.tracks == old(song)@.tracks.update(
                self.track as int,
                TrackV { beats: beats_view(final(r)@), ..old(song)@.tracks[self.track as int] },
            ),
    {
        &mut song.tracks[self.track].beats
    }

    /// A borrowed view of `count` beats starting at the cursor, or `None`
    /// when the range runs past the end of the track.
    pub fn beats_slice<'a>(&self, song: &'a Song, count: usize) -> (r: Option<&'a [Beat]>)
        requires
            self.track_in(song@),
        ensures
            match r {
                Some(sl) => self.beat + count <= self.beats_of(song@).len() && beats_view(sl@)
                    == self.beats_of(song@).subrange(
                    self.beat as int,
                    self.beat as int + count as int,
                ),
                None => self.beat + count > self.beats_of(song@).len(),
            },
    {
        let beats = &song.tracks[self.track].beats;
        if count > beats.len() || self.beat > beats.len() - count {
            return None;
        }
        let sl = vstd::slice::slice_subrange(beats.as_slice(), self.beat, self.beat + count);
        proof {
            assert(beats_view(sl@) =~~= self.beats_of(song@).subrange(
                self.beat as int,
                self.beat as int + count as int,
            ));
        }
        Some(sl)
    }

    /// Mutable access to the addressed beat.
    pub fn beat_mut<'a>(&self, song: &'a mut Song) -> (r: &'a mut Beat)
        requires
            self.beat_in(old(song)@),
        ensures
            (*r)@ == old(song)@.tracks[self.track as int].beats[self.beat as int],
            final(song)@.tracks.len() == old(song)@.tracks.len(),
            forall|j: int|
                0 <= j < old(song)@.tracks.len() && j != self.track ==> final(song)@.tracks[j]
                    == old(song)@.tracks[j],
            final(song)@.tracks[self.track as int].string_count == old(song)@.tracks[
                self.track as int
            ].string_count,
            final(song)@.tracks[self.track as int].measures == old(song)@.tracks[
                self.track as int
            ].measures,
            final(song)@.tracks[self.track as int].beats == old(song)@.tracks[
                self.track as int
            ].beats.update(self.beat as int, final(r)@),
    {
        &mut song.tracks[self.track].beats[self.beat]
    }

    /// The addressed beat.
    pub fn beat<'a>(&self, song: &'a Song) -> (r: &'a Beat)
        requires
            self.beat_in(song@),
        ensures
            r@ == self.beat_of(song@),
    {
        &song.tracks[self.track].beats[self.beat]
    }

    /// A copy of the addressed beat.
    pub fn clone_beat(&self, song: &Song) -> (r: Beat)
        requires
            self.beat_in(song@),
        ensures
            r@ == self.beat_of(song@),
    {
        song.tracks[self.track].beats[self.beat].clone()
    }

    /// A copy of the addressed beat's chord (its note list).
    pub fn clone_chord(&self, song: &Song) -> (r: Vec<(u16, Note)>)
        requires
            self.beat_in(song@),
        ensures
            r@ == self.beat_of(song@).notes,
    {
        clone_notes(&song.tracks[self.track].beats[self.beat].notes)
    }

    /// A copy of the note under the cursor, if one is set.
    pub fn clone_note(&self, song: &Song) -> (r: Option<Note>)
        requires
            self.beat_in(song@),
        ensures
            r == find_note_spec(self.beat_of(song@).notes, self.string),
    {
        song.tracks[self.track].beats[self.beat].copy_note(self.string)
    }

    /// Copies of `count` beats starting at the cursor, or `None` when the
    /// range runs past the end of the track.
    pub fn clone_beats_slice(&self, song: &Song, count: usize) -> (r: Option<Vec<Beat>>)
        requires
            self.track_in(song@),
        ensures
            match r {
                Some(v) => self.beat + count <= self.beats_of(song@).len() && beats_view(v@)
                    == self.beats_of(song@).subrange(
                    self.beat as int,
                    self.beat as int + count as int,
                ),
                None => self.beat + count > self.beats_of(song@).len(),
            },
    {
        let track = &song.tracks[self.track];
        if count > track.beats.len() || self.beat > track.beats.len() - count {
            return None;
        }
        let mut v: Vec<Beat> = Vec::new();
        let mut i: usize = 0;
        while i < count
            invariant
                i <= count,
                self.beat + count <= track.beats@.len(),
                track.beats@.len() <= usize::MAX,
                v@.len() == i,
                beats_view(v@) =~= track@.beats.subrange(
                    self.beat as int,
                    self.beat as int + i as int,
                ),
            decreases count - i,
        {
            let b = track.beats[self.beat + i].clone();
            proof {
                assert(b@ == track.beats@[self.beat + i as int]@);
            }
            v.push(b);
            proof {
                assert(v@[i as int]@ == track@.beats[self.beat + i as int]);
                assert(beats_view(v@) =~= track@.beats.subrange(
                    self.beat as int,
                    self.beat as int + i as int + 1,
                ));
            }
            i = i + 1;
        }
        Some(v)
    }

    /// Move the string coordinate by `dire`, clamped to the track's
    /// strings.
    pub fn seek_string(&mut self, song: &Song, dire: i16)
        requires
            old(self).track_in(song@),
            song@.tracks[old(self).track as int].string_count >= 1,
        ensures
            final(self).string as int == max(
                0,
                min(
                    old(self).string as int + dire as int,
                    song@.tracks[old(self).track as int].string_count as int - 1,
                ),
            ),
            final(self).scroll == old(self).scroll,
            final(self).track == old(self).track,
            final(self).beat == old(self).beat,
    {
        let count = song.tracks[self.track].string_count;
        let new = self.string as i32 + dire as i32;
        let hi = count as i32 - 1;
        let clamped = if new < 0 {
            0
        } else if new > hi {
            hi
        } else {
            new
        };
        self.string = clamped as u16;
    }

    /// Jump to the first beat and reset the view window.
    pub fn seek_start(&mut self)
        ensures
            final(self).beat == 0,
            final(self).scroll == 0,
            final(self).track == old(self).track,
            final(self).string == old(self).string,
    {
        self.beat = 0;
        self.scroll = 0;
    }

    /// Jump to the last beat and slide the view window after it.
    pub fn seek_end(&mut self, song: &Song, s_bwidth: usize)
        requires
            old(self).track_in(song@),
            song@.tracks[old(self).track as int].beats.len() >= 1,
            s_bwidth >= 1,
            song@.tracks[old(self).track as int].beats.len() + s_bwidth <= usize::MAX,
        ensures
            final(self).beat as int == song@.tracks[old(self).track as int].beats.len() - 1,
            final(self).scroll as int == scroll_to_cursor_spec(
                old(self).scroll as int,
                final(self).beat as int,
                s_bwidth as int,
            ),
            final(self).track == old(self).track,
            final(self).string == old(self).string,
    {
        self.beat = song.tracks[self.track].beats.len() - 1;
        self.scroll_to_cursor(s_bwidth);
    }

    /// Slide the view window so the cursor is visible: used after
    /// cursor-driven movement, so scrolling follows the edit point.
    pub fn scroll_to_cursor(&mut self, s_bwidth: usize)
        requires
            s_bwidth >= 1,
            old(self).beat + s_bwidth <= usize::MAX,
        ensures
            final(self).scroll as int == scroll_to_cursor_spec(
                old(self).scroll as int,
                old(self).beat as int,
                s_bwidth as int,
            ),
            final(self).beat == old(self).beat,
            final(self).track == old(self).track,
            final(self).string == old(self).string,
    {
        if self.scroll > self.beat {
            self.scroll = self.beat;
        }
        if self.scroll + (s_bwidth - 1) < self.beat {
            self.scroll = self.beat - (s_bwidth - 1);
        }
    }

    /// Clamp the cursor into the view window: used after scrollbar-driven
    /// movement, so the cursor stays visible.
    pub fn cursor_to_scroll(&mut self, s_bwidth: usize)
        requires
            s_bwidth >= 1,
            old(self).scroll + s_bwidth <= usize::MAX,
        ensures
            final(self).beat as int == cursor_to_scroll_spec(
                old(self).scroll as int,
                old(self).beat as int,
                s_bwidth as int,
            ),
            final(self).scroll == old(self).scroll,
            final(self).track == old(self).track,
            final(self).string == old(self).string,
    {
        if self.beat < self.scroll {
            self.beat = self.scroll;
        } else if self.beat > self.scroll + (s_bwidth - 1) {
            self.beat = self.scroll + (s_bwidth - 1);
        }
    }

    /// Move the view window by `dire`, clamped to the track, then clamp
    /// the cursor into the window.
    pub fn seek_scroll(&mut self, song: &Song, dire: isize, s_bwidth: usize)
        requires
            old(self).track_in(song@),
            song@.tracks[old(self).track as int].beats.len() >= 1,
            s_bwidth >= 1,
            dire > isize::MIN,
            old(self).scroll + dire <= usize::MAX,
            song@.tracks[old(self).track as int].beats.len() + s_bwidth <= usize::MAX,
        ensures
            final(self).scroll as int == min(
                max(old(self).scroll as int + dire as int, 0),
                song@.tracks[old(self).track as int].beats.len() - 1,
            ),
            final(self).beat as int == cursor_to_scroll_spec(
                final(self).scroll as int,
                old(self).beat as int,
                s_bwidth as int,
            ),
            final(self).track == old(self).track,
            final(self).string == old(self).string,
    {
        let new: usize = if dire >= 0 {
            self.scroll + (dire as usize)
        } else {
            let mag = (-dire) as usize;
            if mag >= self.scroll {
                0
            } else {
                self.scroll - mag
            }
        };
        let last = song.tracks[self.track].beats.len() - 1;
        self.scroll = if new < last {
            new
        } else {
            last
        };
        self.cursor_to_scroll(s_bwidth);
    }

    /// Walk forward from the cursor to the next measure start (or the
    /// last beat), then slide the view window after it.
    pub fn seek_next_measure(&mut self, song: &Song, s_bwidth: usize)
        requires
            old(self).track_in(song@),
            song@.tracks[old(self).track as int].measures.len() >= 1,
            old(self).beat < song@.tracks[old(self).track as int].measures.len(),
            s_bwidth >= 1,
            song@.tracks[old(self).track as int].measures.len() + s_bwidth <= usize::MAX,
        ensures
            ({
                let l = song@.tracks[old(self).track as int].measures;
                final(self).beat as int == if (old(self).beat as int) < l.len() - 1 {
                    scan_fwd(l, old(self).beat as int + 1)
                } else {
                    old(self).beat as int
                }
            }),
            final(self).beat < song@.tracks[old(self).track as int].measures.len(),
            final(self).scroll as int == scroll_to_cursor_spec(
                old(self).scroll as int,
                final(self).beat as int,
                s_bwidth as int,
            ),
            final(self).track == old(self).track,
            final(self).string == old(self).string,
    {
        let ghost l = song@.tracks[old(self).track as int].measures;
        let track = &song.tracks[self.track];
        let m = track.measure_i.len() - 1;
        if self.beat < m {
            self.beat = self.beat + 1;
            let ghost start = self.beat as int;
            while self.beat < m && !track.measure_i[self.beat]
                invariant
                    track@ == song@.tracks[old(self).track as int],
                    l == track@.measures,
                    m as int == l.len() - 1,
                    m < track.measure_i@.len(),
                    l.len() + s_bwidth <= usize::MAX,
                    start <= self.beat as int <= m,
                    scan_fwd(l, start) == scan_fwd(l, self.beat as int),
                    self.track == old(self).track,
                    self.string == old(self).string,
                    self.scroll == old(self).scroll,
                decreases m - self.beat,
            {
                self.beat = self.beat + 1;
            }
        }
        self.scroll_to_cursor(s_bwidth);
    }

    /// Walk backward from the cursor to the previous measure start (or
    /// the first beat), then slide the view window onto it.
    pub fn seek_prev_measure(&mut self, song: &Song, s_bwidth: usize)
        requires
            old(self).track_in(song@),
            song@.tracks[old(self).track as int].measures.len() >= 1,
            old(self).beat < song@.tracks[old(self).track as int].measures.len(),
            s_bwidth >= 1,
            old(self).beat + s_bwidth <= usize::MAX,
        ensures
            ({
                let l = song@.tracks[old(self).track as int].measures;
                final(self).beat as int == if old(self).beat > 0 {
                    scan_bwd(l, old(self).beat as int - 1)
                } else {
                    0
                }
            }),
            final(self).beat <= old(self).beat,
            final(self).scroll as int == scroll_to_cursor_spec(
                old(self).scroll as int,
                final(self).beat as int,
                s_bwidth as int,
            ),
            final(self).track == old(self).track,
            final(self).string == old(self).string,
    {
        let ghost l = song@.tracks[old(self).track as int].measures;
        let track = &song.tracks[self.track];
        if self.beat > 0 {
            self.beat = self.beat - 1;
            let ghost start = self.beat as int;
            while self.beat > 0 && !track.measure_i[self.beat]
                invariant
                    track@ == song@.tracks[old(self).track as int],
                    l == track@.measures,
                    0 <= self.beat as int <= start < l.len(),
                    start == old(self).beat - 1,
                    old(self).beat + s_bwidth <= usize::MAX,
                    scan_bwd(l, start) == scan_bwd(l, self.beat as int),
                    self.track == old(self).track,
                    self.string == old(self).string,
                    self.scroll == old(self).scroll,
                decreases self.beat,
            {
                self.beat = self.beat - 1;
            }
        }
        self.scroll_to_cursor(s_bwidth);
    }
}

/// The song after replacing the addressed beat's duration; that track's
/// measure index is re-derived.
pub open spec fn song_set_duration(s: SongV, c: Cursor, d: Duration) -> SongV {
    let beats = s.tracks[c.track as int].beats;
    let b = beats[c.beat as int];
    with_beats(s, c.track as int, beats.update(c.beat as int, BeatV { dur: d, ..b }))
}

/// The song after setting the note under the cursor.
pub open spec fn song_set_note(s: SongV, c: Cursor, note: Note) -> SongV {
    let beats = s.tracks[c.track as int].beats;
    let b = beats[c.beat as int];
    with_beats_same_measures(
        s,
        c.track as int,
        beats.update(c.beat as int, BeatV { notes: set_note_spec(b.notes, c.string, note), ..b }),
    )
}

/// The song after replacing the addressed beat's chord wholesale.
pub open spec fn song_set_notes(s: SongV, c: Cursor, notes: Seq<(u16, Note)>) -> SongV {
    let beats = s.tracks[c.track as int].beats;
    let b = beats[c.beat as int];
    with_beats_same_measures(
        s,
        c.track as int,
        beats.update(c.beat as int, BeatV { notes, ..b }),
    )
}

/// The song after removing the note under the cursor, if any.
pub open spec fn song_clear_note(s: SongV, c: Cursor) -> SongV {
    let beats = s.tracks[c.track as int].beats;
    let b = beats[c.beat as int];
    with_beats_same_measures(
        s,
        c.track as int,
        beats.update(c.beat as int, BeatV { notes: del_note_spec(b.notes, c.string), ..b }),
    )
}

/// The song after clearing every note of the addressed beat.
pub open spec fn song_clear_beat(s: SongV, c: Cursor) -> SongV {
    let beats = s.tracks[c.track as int].beats;
    let b = beats[c.beat as int];
    with_beats_same_measures(
        s,
        c.track as int,
        beats.update(c.beat as int, BeatV { notes: Seq::empty(), ..b }),
    )
}

impl Cursor {
    /// Set the addressed beat's duration and re-derive the track's
    /// measure index.
    pub fn set_duration(&self, song: &mut Song, dur: Duration)
        requires
            self.beat_in(old(song)@),
            song_wf(old(song)@),
            dur.wf(),
            track_scan_ok(song_set_duration(old(song)@, *self, dur).tracks[self.track as int].beats),
        ensures
            final(song)@ == song_set_duration(old(song)@, *self, dur),
            song_wf(final(song)@),
    {
        let ghost s0 = song@;
        let ti = self.track;
        let mut tr = blank_track();
        song.tracks.set_and_swap(ti, &mut tr);
        let mut b = Beat::new(Duration::zero());
        tr.beats.set_and_swap(self.beat, &mut b);
        b.dur = dur;
        tr.beats.set(self.beat, b);
        let ghost nbeats = song_set_duration(s0, *self, dur).tracks[ti as int].beats;
        proof {
            assert(beats_view(tr.beats@) =~= nbeats);
            assert(durs_of(beats_view(tr.beats@)) == durs_of(nbeats));
        }
        tr.update_measures();
        song.tracks.set(ti, tr);
        proof {
            assert(final(song)@ =~~= song_set_duration(s0, *self, dur));
            lemma_wf_after(s0, ti as int, final(song)@);
        }
    }

    /// Set the note under the cursor: overwrite in place when the string
    /// already sounds, append otherwise.
    pub fn set_note(&self, song: &mut Song, note: Note)
        requires
            self.beat_in(old(song)@),
            song_wf(old(song)@),
        ensures
            final(song)@ == song_set_note(old(song)@, *self, note),
            song_wf(final(song)@),
    {
        let ghost s0 = song@;
        let ti = self.track;
        let mut tr = blank_track();
        song.tracks.set_and_swap(ti, &mut tr);
        let mut b = Beat::new(Duration::zero());
        tr.beats.set_and_swap(self.beat, &mut b);
        b.set_note(self.string, note);
        tr.beats.set(self.beat, b);
        song.tracks.set(ti, tr);
        proof {
            assert(final(song)@ =~~= song_set_note(s0, *self, note));
            lemma_set_note_unique(s0.tracks[ti as int].beats[self.beat as int].notes, self.string, note);
            assert(durs_of(final(song)@.tracks[ti as int].beats) =~= durs_of(
                s0.tracks[ti as int].beats,
            ));
            lemma_wf_same_durs(s0, ti as int, final(song)@);
        }
    }

    /// Replace the addressed beat's chord wholesale.
    pub fn set_notes(&self, song: &mut Song, notes: Vec<(u16, Note)>)
        requires
            self.beat_in(old(song)@),
            song_wf(old(song)@),
            notes_unique(notes@),
        ensures
            final(song)@ == song_set_notes(old(song)@, *self, notes@),
            song_wf(final(song)@),
    {
        let ghost s0 = song@;
        let ti = self.track;
        let mut tr = blank_track();
        song.tracks.set_and_swap(ti, &mut tr);
        let mut b = Beat::new(Duration::zero());
        tr.beats.set_and_swap(self.beat, &mut b);
        b.notes = notes;
        tr.beats.set(self.beat, b);
        song.tracks.set(ti, tr);
        proof {
            assert(final(song)@ =~~= song_set_notes(s0, *self, notes@));
            assert(durs_of(final(song)@.tracks[ti as int].beats) =~= durs_of(
                s0.tracks[ti as int].beats,
            ));
            lemma_wf_same_durs(s0, ti as int, final(song)@);
        }
    }

    /// Remove the note under the cursor, if any.
    pub fn clear_note(&self, song: &mut Song)
        requires
            self.beat_in(old(song)@),
            song_wf(old(song)@),
        ensures
            final(song)@ == song_clear_note(old(song)@, *self),
            song_wf(final(song)@),
    {
        let ghost s0 = song@;
        let ti = self.track;
        let mut tr = blank_track();
        song.tracks.set_and_swap(ti, &mut tr);
        let mut b = Beat::new(Duration::zero());
        tr.beats.set_and_swap(self.beat, &mut b);
        b.del_note(self.string);
        tr.beats.set(self.beat, b);
        song.tracks.set(ti, tr);
        proof {
            assert(final(song)@ =~~= song_clear_note(s0, *self));
            lemma_del_note_unique(s0.tracks[ti as int].beats[self.beat as int].notes, self.string);
            assert(durs_of(final(song)@.tracks[ti as int].beats) =~= durs_of(
                s0.tracks[ti as int].beats,
            ));
            lemma_wf_same_durs(s0, ti as int, final(song)@);
        }
    }

    /// Clear every note of the addressed beat.
    pub fn clear_beat(&self, song: &mut Song)
        requires
            self.beat_in(old(song)@),
            song_wf(old(song)@),
        ensures
            final(song)@ == song_clear_beat(old(song)@, *self),
            song_wf(final(song)@),
    {
        let ghost s0 = song@;
        let ti = self.track;
        let mut tr = blank_track();
        song.tracks.set_and_swap(ti, &mut tr);
        let mut b = Beat::new(Duration::zero());
        tr.beats.set_and_swap(self.beat, &mut b);
        b.notes = Vec::new();
        tr.beats.set(self.beat, b);
        song.tracks.set(ti, tr);
        proof {
            assert(final(song)@ =~~= song_clear_beat(s0, *self));
            assert(durs_of(final(song)@.tracks[ti as int].beats) =~= durs_of(
                s0.tracks[ti as int].beats,
            ));
            lemma_wf_same_durs(s0, ti as int, final(song)@);
        }
    }

    /// The note under the cursor as clipboard contents; empty when no
    /// note is set.
    pub fn copy_note(&self, song: &Song) -> (r: Buffer)
        requires
            self.beat_in(song@),
        ensures
            r@ == match find_note_spec(self.beat_of(song@).notes, self.string) {
                Some(n) => crate::buffer::BufferV::Note(n),
                None => crate::buffer::BufferV::Empty,
            },
    {
        match self.clone_note(song) {
            Some(note) => Buffer::Note(note),
            None => Buffer::Empty,
        }
    }

    /// The addressed beat as clipboard contents.
    pub fn copy_beat(&self, song: &Song) -> (r: Buffer)
        requires
            self.beat_in(song@),
        ensures
            r@ == crate::buffer::BufferV::Beat(self.beat_of(song@)),
    {
        Buffer::Beat(self.clone_beat(song))
    }

    /// `count` beats from the cursor as clipboard contents; empty when
    /// the range runs past the end of the track.
    pub fn copy_beats(&self, song: &Song, count: usize) -> (r: Buffer)
        requires
            self.track_in(song@),
        ensures
            self.beat + count <= self.beats_of(song@).len() ==> r@
                == crate::buffer::BufferV::MultiBeat(
                self.beats_of(song@).subrange(self.beat as int, self.beat as int + count as int),
            ),
            self.beat + count > self.beats_of(song@).len() ==> r@ == crate::buffer::BufferV::Empty,
    {
        match self.clone_beats_slice(song, count) {
            Some(beats) => Buffer::MultiBeat(beats),
            None => Buffer::Empty,
        }
    }
}

/// The song after clearing the notes of `count` beats starting at the
/// cursor.
pub open spec fn song_clear_beats(s: SongV, c: Cursor, count: int) -> SongV {
    let beats = s.tracks[c.track as int].beats;
    with_beats_same_measures(
        s,
        c.track as int,
        Seq::new(
            beats.len(),
            |i: int|
                if c.beat <= i < c.beat + count {
                    BeatV { dur: beats[i].dur, notes: Seq::empty() }
                } else {
                    beats[i]
                },
        ),
    )
}

/// The song after removing the addressed beat; the track's measure index
/// is re-derived.
pub open spec fn song_delete_beat(s: SongV, c: Cursor) -> SongV {
    let beats = s.tracks[c.track as int].beats;
    with_beats(s, c.track as int, beats.remove(c.beat as int))
}

/// The song after removing `count` beats starting at the cursor.
pub open spec fn song_delete_beats(s: SongV, c: Cursor, count: int) -> SongV {
    let beats = s.tracks[c.track as int].beats;
    with_beats(
        s,
        c.track as int,
        beats.subrange(0, c.beat as int) + beats.skip(c.beat as int + count),
    )
}

/// The song after pasting one beat at the cursor: overwriting in place,
/// or inserted before the addressed beat.
pub open spec fn song_insert_beat(s: SongV, c: Cursor, in_place: bool, b: BeatV) -> SongV {
    let beats = s.tracks[c.track as int].beats;
    with_beats(
        s,
        c.track as int,
        if in_place {
            beats.update(c.beat as int, b)
        } else {
            beats.insert(c.beat as int, b)
        },
    )
}

/// The song after pasting a run of beats at the cursor: when in place,
/// the addressed beat is removed first; the run is inserted before the
/// cursor position.
pub open spec fn song_insert_beats(s: SongV, c: Cursor, in_place: bool, bs: Seq<BeatV>) -> SongV {
    let beats = s.tracks[c.track as int].beats;
    let base = if in_place {
        beats.remove(c.beat as int)
    } else {
        beats
    };
    with_beats(
        s,
        c.track as int,
        base.subrange(0, c.beat as int) + bs + base.skip(c.beat as int),
    )
}

/// The song after overwriting `bs.len()` beats starting at the cursor
/// with `bs`.
pub open spec fn song_replace_beats(s: SongV, c: Cursor, bs: Seq<BeatV>) -> SongV {
    let beats = s.tracks[c.track as int].beats;
    with_beats(
        s,
        c.track as int,
        beats.subrange(0, c.beat as int) + bs + beats.skip(c.beat as int + bs.len()),
    )
}

/// The song after growing the addressed track so `target` is a valid
/// beat index.
pub open spec fn song_grow_to(s: SongV, c: Cursor, target: int) -> SongV {
    let beats = s.tracks[c.track as int].beats;
    with_beats(s, c.track as int, grown_beats(beats, target))
}

impl Cursor {
    /// Clear the notes of `count` beats starting at the cursor.
    pub fn clear_beats(&self, song: &mut Song, count: usize)
        requires
            self.track_in(old(song)@),
            self.beat + count <= old(song)@.tracks[self.track as int].beats.len(),
            song_wf(old(song)@),
        ensures
            final(song)@ == song_clear_beats(old(song)@, *self, count as int),
            song_wf(final(song)@),
    {
        let ghost s0 = song@;
        let ti = self.track;
        let mut tr = blank_track();
        song.tracks.set_and_swap(ti, &mut tr);
        let ghost base = s0.tracks[ti as int].beats;
        // bring the vector's length bound into scope for the loop
        let _n: usize = tr.beats.len();
        proof {
            assert(beats_view(tr.beats@) =~~= base);
            assert(beats_view(tr.beats@) =~~= Seq::new(
                base.len(),
                |i: int|
                    if self.beat <= i < self.beat + 0 {
                        BeatV { dur: base[i].dur, notes: Seq::empty() }
                    } else {
                        base[i]
                    },
            ));
        }
        let mut k: usize = 0;
        while k < count
            invariant
                k <= count,
                self.beat + count <= tr.beats@.len(),
                tr.beats@.len() == base.len(),
                base.len() <= usize::MAX,
                tr@.measures == s0.tracks[ti as int].measures,
                tr@.string_count == s0.tracks[ti as int].string_count,
                beats_view(tr.beats@) =~~= Seq::new(
                    base.len(),
                    |i: int|
                        if self.beat <= i < self.beat + k {
                            BeatV { dur: base[i].dur, notes: Seq::empty() }
                        } else {
                            base[i]
                        },
                ),
            decreases count - k,
        {
            let ghost tb0 = tr.beats@;
            let mut b = Beat::new(Duration::zero());
            tr.beats.set_and_swap(self.beat + k, &mut b);
            b.notes = Vec::new();
            tr.beats.set(self.beat + k, b);
            let ghost kk = k + 1;
            proof {
                assert forall|i: int| 0 <= i < tr.beats@.len() implies beats_view(tr.beats@)[i]
                    =~~= Seq::new(
                    base.len(),
                    |i: int|
                        if self.beat <= i < self.beat + kk {
                            BeatV { dur: base[i].dur, notes: Seq::empty() }
                        } else {
                            base[i]
                        },
                )[i] by {
                    assert(beats_view(tb0)[i] == tb0[i]@);
                    if i != self.beat + k {
                        assert(tr.beats@[i] == tb0[i]);
                    }
                }
                assert(beats_view(tr.beats@) =~~= Seq::new(
                    base.len(),
                    |i: int|
                        if self.beat <= i < self.beat + kk {
                            BeatV { dur: base[i].dur, notes: Seq::empty() }
                        } else {
                            base[i]
                        },
                ));
            }
            k = k + 1;
        }
        proof {
            assert(beats_view(tr.beats@) =~~= song_clear_beats(s0, *self, count as int).tracks[
                ti as int
            ].beats);
        }
        song.tracks.set(ti, tr);
        proof {
            assert(final(song)@ =~~= song_clear_beats(s0, *self, count as int));
            assert(durs_of(final(song)@.tracks[ti as int].beats) =~= durs_of(
                s0.tracks[ti as int].beats,
            ));
            lemma_wf_same_durs(s0, ti as int, final(song)@);
        }
    }

    /// Remove the addressed beat and re-derive the track's measure index.
    /// A track is never left empty.
    pub fn delete_beat(&self, song: &mut Song)
        requires
            self.beat_in(old(song)@),
            old(song)@.tracks[self.track as int].beats.len() >= 2,
            song_wf(old(song)@),
            track_scan_ok(song_delete_beat(old(song)@, *self).tracks[self.track as int].beats),
        ensures
            final(song)@ == song_delete_beat(old(song)@, *self),
            song_wf(final(song)@),
    {
        let ghost s0 = song@;
        let ti = self.track;
        let mut tr = blank_track();
        song.tracks.set_and_swap(ti, &mut tr);
        tr.beats.remove(self.beat);
        proof {
            assert(beats_view(tr.beats@) =~~= song_delete_beat(s0, *self).tracks[ti as int].beats);
        }
        tr.update_measures();
        song.tracks.set(ti, tr);
        proof {
            assert(final(song)@ =~~= song_delete_beat(s0, *self));
            lemma_wf_after(s0, ti as int, final(song)@);
        }
    }

    /// Remove `count` beats starting at the cursor and re-derive the
    /// track's measure index. A track is never left empty.
    pub fn delete_beats(&self, song: &mut Song, count: usize)
        requires
            self.track_in(old(song)@),
            self.beat + count <= old(song)@.tracks[self.track as int].beats.len(),
            old(song)@.tracks[self.track as int].beats.len() - count >= 1,
            song_wf(old(song)@),
            track_scan_ok(
                song_delete_beats(old(song)@, *self, count as int).tracks[self.track as int].beats,
            ),
        ensures
            final(song)@ == song_delete_beats(old(song)@, *self, count as int),
            song_wf(final(song)@),
    {
        let ghost s0 = song@;
        let ti = self.track;
        let mut tr = blank_track();
        song.tracks.set_and_swap(ti, &mut tr);
        let ghost base = s0.tracks[ti as int].beats;
        proof {
            assert(beats_view(tr.beats@) =~~= base.subrange(0, self.beat as int) + base.skip(
                self.beat as int,
            ));
        }
        let mut k: usize = 0;
        while k < count
            invariant
                k <= count,
                self.beat + count <= base.len(),
                tr.beats@.len() == base.len() - k,
                tr@.measures == s0.tracks[ti as int].measures,
                tr@.string_count == s0.tracks[ti as int].string_count,
                beats_view(tr.beats@) =~~= base.subrange(0, self.beat as int) + base.skip(
                    self.beat as int + k as int,
                ),
            decreases count - k,
        {
            let ghost tb0 = tr.beats@;
            tr.beats.remove(self.beat);
            let ghost kk = k + 1;
            proof {
                assert forall|i: int| 0 <= i < tr.beats@.len() implies beats_view(tr.beats@)[i]
                    =~~= (base.subrange(0, self.beat as int) + base.skip(
                    self.beat as int + kk as int,
                ))[i] by {
                    assert(beats_view(tb0)[i] == tb0[i]@);
                    if i < self.beat {
                        assert(tr.beats@[i] == tb0[i]);
                    } else {
                        assert(tr.beats@[i] == tb0[i + 1]);
                        assert(beats_view(tb0)[i + 1] == tb0[i + 1]@);
                    }
                }
                assert(beats_view(tr.beats@) =~~= base.subrange(0, self.beat as int) + base.skip(
                    self.beat as int + kk as int,
                ));
            }
            k = k + 1;
        }
        proof {
            assert(beats_view(tr.beats@) =~~= song_delete_beats(s0, *self, count as int).tracks[
                ti as int
            ].beats);
        }
        tr.update_measures();
        song.tracks.set(ti, tr);
        proof {
            assert(final(song)@ =~~= song_delete_beats(s0, *self, count as int));
            lemma_wf_after(s0, ti as int, final(song)@);
        }
    }

    /// Paste one beat at the cursor: overwrite the addressed beat when in
    /// place, insert before it otherwise. The measure index is re-derived.
    pub fn insert_beat(&self, song: &mut Song, in_place: bool, beat: Beat)
        requires
            self.track_in(old(song)@),
            in_place ==> self.beat < old(song)@.tracks[self.track as int].beats.len(),
            !in_place ==> self.beat <= old(song)@.tracks[self.track as int].beats.len(),
            song_wf(old(song)@),
            beat_wf(beat@),
            track_scan_ok(
                song_insert_beat(old(song)@, *self, in_place, beat@).tracks[self.track as int].beats,
            ),
        ensures
            final(song)@ == song_insert_beat(old(song)@, *self, in_place, beat@),
            song_wf(final(song)@),
    {
        let ghost s0 = song@;
        let ti = self.track;
        let mut tr = blank_track();
        song.tracks.set_and_swap(ti, &mut tr);
        if in_place {
            tr.beats.set(self.beat, beat);
        } else {
            tr.beats.insert(self.beat, beat);
        }
        proof {
            assert(beats_view(tr.beats@) =~~= song_insert_beat(s0, *self, in_place, beat@).tracks[
                ti as int
            ].beats);
        }
        tr.update_measures();
        song.tracks.set(ti, tr);
        proof {
            assert(final(song)@ =~~= song_insert_beat(s0, *self, in_place, beat@));
            lemma_wf_after(s0, ti as int, final(song)@);
        }
    }

    /// Paste a run of beats at the cursor: when in place the addressed
    /// beat is removed first; the run is inserted before the cursor
    /// position. The measure index is re-derived.
    pub fn insert_beats(&self, song: &mut Song, in_place: bool, src: Vec<Beat>)
        requires
            self.track_in(old(song)@),
            in_place ==> self.beat < old(song)@.tracks[self.track as int].beats.len()
                && old(song)@.tracks[self.track as int].beats.len() + src@.len() >= 2,
            !in_place ==> self.beat <= old(song)@.tracks[self.track as int].beats.len(),
            old(song)@.tracks[self.track as int].beats.len() + src@.len() <= usize::MAX,
            song_wf(old(song)@),
            beats_wf(crate::song::beats_view(src@)),
            track_scan_ok(
                song_insert_beats(
                    old(song)@,
                    *self,
                    in_place,
                    crate::song::beats_view(src@),
                ).tracks[self.track as int].beats,
            ),
        ensures
            final(song)@ == song_insert_beats(
                old(song)@,
                *self,
                in_place,
                crate::song::beats_view(src@),
            ),
            song_wf(final(song)@),
    {
        let ghost s0 = song@;
        let ghost srcv = beats_view(src@);
        let ti = self.track;
        let mut tr = blank_track();
        song.tracks.set_and_swap(ti, &mut tr);
        if in_place {
            tr.beats.remove(self.beat);
        }
        let ghost base = if in_place {
            s0.tracks[ti as int].beats.remove(self.beat as int)
        } else {
            s0.tracks[ti as int].beats
        };
        proof {
            assert(beats_view(tr.beats@) =~~= base);
            assert(base.subrange(0, self.beat as int) + srcv.take(0) + base.skip(self.beat as int)
                =~~= base);
        }
        let mut k: usize = 0;
        while k < src.len()
            invariant
                k <= src.len(),
                srcv == beats_view(src@),
                srcv.len() == src@.len(),
                self.beat <= base.len(),
                base.len() + srcv.len() <= usize::MAX,
                tr.beats@.len() == base.len() + k,
                tr@.measures == s0.tracks[ti as int].measures,
                tr@.string_count == s0.tracks[ti as int].string_count,
                beats_view(tr.beats@) =~~= base.subrange(0, self.beat as int) + srcv.take(k as int)
                    + base.skip(self.beat as int),
            decreases src.len() - k,
        {
            let ghost tb0 = tr.beats@;
            let b = src[k].clone();
            tr.beats.insert(self.beat + k, b);
            let ghost kk = k + 1;
            proof {
                assert forall|i: int| 0 <= i < tr.beats@.len() implies beats_view(tr.beats@)[i]
                    =~~= (base.subrange(0, self.beat as int) + srcv.take(kk as int) + base.skip(
                    self.beat as int,
                ))[i] by {
                    if i < self.beat + k {
                        assert(tr.beats@[i] == tb0[i]);
                        assert(beats_view(tb0)[i] == tb0[i]@);
                    } else if i > self.beat + k {
                        assert(tr.beats@[i] == tb0[i - 1]);
                        assert(beats_view(tb0)[i - 1] == tb0[i - 1]@);
                    }
                }
                assert(beats_view(tr.beats@) =~~= base.subrange(0, self.beat as int) + srcv.take(
                    kk as int,
                ) + base.skip(self.beat as int));
            }
            k = k + 1;
        }
        proof {
            assert(srcv.take(src@.len() as int) =~~= srcv);
            assert(beats_view(tr.beats@) =~~= song_insert_beats(s0, *self, in_place, srcv).tracks[
                ti as int
            ].beats);
        }
        tr.update_measures();
        song.tracks.set(ti, tr);
        proof {
            assert(final(song)@ =~~= song_insert_beats(s0, *self, in_place, srcv));
            lemma_wf_after(s0, ti as int, final(song)@);
        }
    }

    /// Overwrite `src.len()` beats starting at the cursor with `src`. The
    /// measure index is re-derived.
    pub fn replace_beats(&self, song: &mut Song, src: Vec<Beat>)
        requires
            self.track_in(old(song)@),
            self.beat + src@.len() <= old(song)@.tracks[self.track as int].beats.len(),
            song_wf(old(song)@),
            beats_wf(crate::song::beats_view(src@)),
            track_scan_ok(
                song_replace_beats(
                    old(song)@,
                    *self,
                    crate::song::beats_view(src@),
                ).tracks[self.track as int].beats,
            ),
        ensures
            final(song)@ == song_replace_beats(old(song)@, *self, crate::song::beats_view(src@)),
            song_wf(final(song)@),
    {
        let ghost s0 = song@;
        let ghost srcv = beats_view(src@);
        let ti = self.track;
        let mut tr = blank_track();
        song.tracks.set_and_swap(ti, &mut tr);
        let ghost base = s0.tracks[ti as int].beats;
        // bring the vector's length bound into scope for the loop
        let _n: usize = tr.beats.len();
        proof {
            assert(beats_view(tr.beats@) =~~= base.subrange(0, self.beat as int) + srcv.take(0)
                + base.skip(self.beat as int));
        }
        let mut k: usize = 0;
        while k < src.len()
            invariant
                k <= src.len(),
                srcv == beats_view(src@),
                srcv.len() == src@.len(),
                self.beat + src@.len() <= base.len(),
                tr.beats@.len() == base.len(),
                base.len() <= usize::MAX,
                tr@.measures == s0.tracks[ti as int].measures,
                tr@.string_count == s0.tracks[ti as int].string_count,
                beats_view(tr.beats@) =~~= base.subrange(0, self.beat as int) + srcv.take(k as int)
                    + base.skip(self.beat as int + k as int),
            decreases src.len() - k,
        {
            let ghost tb0 = tr.beats@;
            let b = src[k].clone();
            tr.beats.set(self.beat + k, b);
            let ghost kk = k + 1;
            proof {
                assert forall|i: int| 0 <= i < tr.beats@.len() implies beats_view(tr.beats@)[i]
                    =~~= (base.subrange(0, self.beat as int) + srcv.take(kk as int) + base.skip(
                    self.beat as int + kk as int,
                ))[i] by {
                    assert(beats_view(tb0)[i] == tb0[i]@);
                    if i != self.beat + k {
                        assert(tr.beats@[i] == tb0[i]);
                    }
                }
                assert(beats_view(tr.beats@) =~~= base.subrange(0, self.beat as int) + srcv.take(
                    kk as int,
                ) + base.skip(self.beat as int + kk as int));
            }
            k = k + 1;
        }
        proof {
            assert(srcv.take(src@.len() as int) =~~= srcv);
            assert(beats_view(tr.beats@) =~~= song_replace_beats(s0, *self, srcv).tracks[
                ti as int
            ].beats);
        }
        tr.update_measures();
        song.tracks.set(ti, tr);
        proof {
            assert(final(song)@ =~~= song_replace_beats(s0, *self, srcv));
            lemma_wf_after(s0, ti as int, final(song)@);
        }
    }

    /// Move the beat coordinate by `dire`, clamped at zero. When the new
    /// index lies past the end of the track, the track is auto-extended
    /// by beats that repeat the last beat's duration and hold no notes,
    /// until the index is valid. The view window then follows the cursor
    /// and the measure index is re-derived.
    pub fn seek_beat(&mut self, song: &mut Song, dire: isize, s_bwidth: usize)
        requires
            old(self).track_in(old(song)@),
            song_wf(old(song)@),
            s_bwidth >= 1,
            dire > isize::MIN,
            old(self).beat + max(dire as int, 0) + s_bwidth <= usize::MAX,
            track_scan_ok(
                song_grow_to(
                    old(song)@,
                    *old(self),
                    max(old(self).beat + dire, 0),
                ).tracks[old(self).track as int].beats,
            ),
        ensures
            final(song)@ == song_grow_to(old(song)@, *old(self), max(old(self).beat + dire, 0)),
            song_wf(final(song)@),
            final(self).beat as int == max(old(self).beat + dire, 0),
            final(self).beat < final(song)@.tracks[old(self).track as int].beats.len(),
            final(self).scroll <= final(self).beat,
            final(self).scroll as int == scroll_to_cursor_spec(
                old(self).scroll as int,
                final(self).beat as int,
                s_bwidth as int,
            ),
            final(self).track == old(self).track,
            final(self).string == old(self).string,
    {
        let ghost s0 = song@;
        let target: usize = if dire >= 0 {
            self.beat + (dire as usize)
        } else {
            let mag = (-dire) as usize;
            if mag >= self.beat {
                0
            } else {
                self.beat - mag
            }
        };
        proof {
            assert(target as int == max(old(self).beat + dire, 0));
        }
        let ti = self.track;
        let mut tr = blank_track();
        song.tracks.set_and_swap(ti, &mut tr);
        let ghost base = s0.tracks[ti as int].beats;
        // bring the vector's length bound into scope for the loop
        let _n: usize = tr.beats.len();
        proof {
            assert(track_wf(s0.tracks[ti as int]));
            assert(beats_view(tr.beats@) =~~= base + Seq::new(
                0,
                |i: int| BeatV { dur: base.last().dur, notes: Seq::empty() },
            ));
        }
        while target >= tr.beats.len()
            invariant
                base.len() >= 1,
                base.len() <= usize::MAX,
                tr.beats@.len() >= base.len(),
                tr.beats@.len() <= target + 1 || tr.beats@.len() == base.len(),
                target + 1 <= usize::MAX,
                tr@.measures == s0.tracks[ti as int].measures,
                tr@.string_count == s0.tracks[ti as int].string_count,
                beats_view(tr.beats@) =~~= base + Seq::new(
                    (tr.beats@.len() - base.len()) as nat,
                    |i: int| BeatV { dur: base.last().dur, notes: Seq::empty() },
                ),
                beats_view(tr.beats@).last().dur == base.last().dur,
            decreases target + 1 - tr.beats@.len(),
        {
            let ghost tb0 = tr.beats@;
            let last = tr.beats.len() - 1;
            let nb = tr.beats[last].copy_duration();
            tr.beats.push(nb);
            proof {
                assert(beats_view(tb0).last().dur == tb0[tb0.len() - 1]@.dur);
                assert forall|i: int| 0 <= i < tr.beats@.len() implies beats_view(tr.beats@)[i]
                    =~~= (base + Seq::new(
                    (tr.beats@.len() - base.len()) as nat,
                    |i: int| BeatV { dur: base.last().dur, notes: Seq::empty() },
                ))[i] by {
                    if i < tb0.len() {
                        assert(tr.beats@[i] == tb0[i]);
                        assert(beats_view(tb0)[i] == tb0[i]@);
                    }
                }
                assert(beats_view(tr.beats@) =~~= base + Seq::new(
                    (tr.beats@.len() - base.len()) as nat,
                    |i: int| BeatV { dur: base.last().dur, notes: Seq::empty() },
                ));
            }
        }
        proof {
            assert(beats_view(tr.beats@) =~~= grown_beats(base, target as int));
        }
        tr.update_measures();
        song.tracks.set(ti, tr);
        self.beat = target;
        self.scroll_to_cursor(s_bwidth);
        proof {
            assert(final(song)@ =~~= song_grow_to(s0, *old(self), target as int));
            lemma_wf_after(s0, ti as int, final(song)@);
        }
    }
}

/// A placeholder track, swapped in while a real track is being edited.
fn blank_track() -> (r: Track)
    ensures
        r@.beats.len() == 0,
{
    Track { string_count: 1, beats: Vec::new(), measure_i: Vec::new() }
}

/// A song whose tracks beyond `ti` match a well-formed song, and whose
/// track `ti` has well-formed beats, at least one of them, and a fresh
/// measure index, is well-formed.
proof fn lemma_wf_after(s0: SongV, ti: int, s1: SongV)
    requires
        song_wf(s0),
        0 <= ti < s0.tracks.len(),
        s1.tracks.len() == s0.tracks.len(),
        forall|k: int| 0 <= k < s0.tracks.len() && k != ti ==> s1.tracks[k] == s0.tracks[k],
        s1.tracks[ti].beats.len() >= 1,
        s1.tracks[ti].string_count >= 1,
        beats_wf(s1.tracks[ti].beats),
        s1.tracks[ti].measures == track_measures(s1.tracks[ti].beats),
    ensures
        song_wf(s1),
{
    assert forall|k: int| 0 <= k < s1.tracks.len() implies track_wf(#[trigger] s1.tracks[k]) by {
        if k != ti {
            assert(track_wf(s0.tracks[k]));
        }
    }
}

/// A song differing from a well-formed song only in one track's beats,
/// with the same durations in the same order, unchanged measures, and
/// still well-formed beats, is well-formed.
proof fn lemma_wf_same_durs(s0: SongV, ti: int, s1: SongV)
    requires
        song_wf(s0),
        0 <= ti < s0.tracks.len(),
        s1.tracks.len() == s0.tracks.len(),
        forall|k: int| 0 <= k < s0.tracks.len() && k != ti ==> s1.tracks[k] == s0.tracks[k],
        s1.tracks[ti].beats.len() == s0.tracks[ti].beats.len(),
        s1.tracks[ti].string_count == s0.tracks[ti].string_count,
        s1.tracks[ti].measures == s0.tracks[ti].measures,
        beats_wf(s1.tracks[ti].beats),
        durs_of(s1.tracks[ti].beats) == durs_of(s0.tracks[ti].beats),
    ensures
        song_wf(s1),
{
    assert(track_wf(s0.tracks[ti]));
    assert(s1.tracks[ti].measures == track_measures(s1.tracks[ti].beats));
    lemma_wf_after(s0, ti, s1);
}

/// An exact copy of a note list.
pub fn clone_notes(v: &Vec<(u16, Note)>) -> (r: Vec<(u16, Note)>)
    ensures
        r@ == v@,
{
    let mut r: Vec<(u16, Note)> = Vec::new();
    let mut i: usize = 0;
    while i < v.len()
        invariant
            i <= v.len(),
            r@ == v@.take(i as int),
        decreases v.len() - i,
    {
        r.push(v[i]);
        proof {
            assert(v@.take(i + 1) =~= v@.take(i as int).push(v@[i as int]));
        }
        i = i + 1;
    }
    proof {
        assert(r@ =~= v@);
    }
    r
}

} // verus!
