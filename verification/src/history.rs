//! The undo/redo machinery. An `Action` is an immutable record of one
//! edit: the cursor address it happened at, enough old state to undo it
//! exactly, and the new or pasted state to redo it. `History` is a
//! bounded command log of shared-ownership action records with a `future`
//! offset counting how many have been undone.

use crate::cursor::{
    beats_wf, song_clear_beat, song_clear_beats, song_clear_note, song_delete_beat,
    song_delete_beats, song_insert_beat, song_insert_beats, song_replace_beats, song_set_duration,
    song_set_note, song_set_notes, Cursor,
};
use crate::dur::Duration;
use crate::song::{
    beat_wf, beats_view, clone_beats, notes_unique, song_wf, track_scan_ok, track_wf, Beat, BeatV,
    Note, Song, SongV,
};
use std::rc::Rc;
use vstd::prelude::*;

verus! {

/// The mathematical value of an `Action`.
#[verifier::ext_equal]
pub enum ActionV {
    SetDuration { cur: Cursor, was: Duration, now: Duration },
    SetNote { cur: Cursor, was: Option<Note>, now: Option<Note> },
    ClearBeat { cur: Cursor, was: Seq<(u16, Note)> },
    ClearBeats { cur: Cursor, was: Seq<BeatV> },
    DeleteBeat { cur: Cursor, was: BeatV },
    DeleteBeats { cur: Cursor, was: Seq<BeatV> },
    PasteNote { cur: Cursor, was: Option<Note>, buf: Note },
    PasteBeat { cur: Cursor, was: Option<BeatV>, buf: BeatV },
    PasteBeats { cur: Cursor, was: Option<BeatV>, buf: Seq<BeatV> },
}

/// One recorded, invertible edit: the cursor address, the old state
/// needed to undo, and the new or pasted state needed to redo.
#[derive(Debug)]
pub enum Action {
    SetDuration { cur: Cursor, was: Duration, now: Duration },
    SetNote { cur: Cursor, was: Option<Note>, now: Option<Note> },
    ClearBeat { cur: Cursor, was: Vec<(u16, Note)> },
    ClearBeats { cur: Cursor, was: Vec<Beat> },
    DeleteBeat { cur: Cursor, was: Beat },
    DeleteBeats { cur: Cursor, was: Vec<Beat> },
    PasteNote { cur: Cursor, was: Option<Note>, buf: Note },
    PasteBeat { cur: Cursor, was: Option<Beat>, buf: Beat },
    PasteBeats { cur: Cursor, was: Option<Beat>, buf: Vec<Beat> },
}

impl View for Action {
    type V = ActionV;

    open spec fn view(&self) -> ActionV {
        match self {
            Action::SetDuration { cur, was, now } => ActionV::SetDuration {
                cur: *cur,
                was: *was,
                now: *now,
            },
            Action::SetNote { cur, was, now } => ActionV::SetNote {
                cur: *cur,
                was: *was,
                now: *now,
            },
            Action::ClearBeat { cur, was } => ActionV::ClearBeat { cur: *cur, was: was@ },
            Action::ClearBeats { cur, was } => ActionV::ClearBeats {
                cur: *cur,
                was: beats_view(was@),
            },
            Action::DeleteBeat { cur, was } => ActionV::DeleteBeat { cur: *cur, was: was@ },
            Action::DeleteBeats { cur, was } => ActionV::DeleteBeats {
                cur: *cur,
                was: beats_view(was@),
            },
            Action::PasteNote { cur, was, buf } => ActionV::PasteNote {
                cur: *cur,
                was: *was,
                buf: *buf,
            },
            Action::PasteBeat { cur, was, buf } => ActionV::PasteBeat {
                cur: *cur,
                was: match was {
                    Some(b) => Some(b@),
                    None => None,
                },
                buf: buf@,
            },
            Action::PasteBeats { cur, was, buf } => ActionV::PasteBeats {
                cur: *cur,
                was: match was {
                    Some(b) => Some(b@),
                    None => None,
                },
                buf: beats_view(buf@),
            },
        }
    }
}

/// The song after replaying an action's forward effect at its recorded
/// cursor address.
pub open spec fn apply_spec(a: ActionV, s: SongV) -> SongV {
    match a {
        ActionV::SetDuration { cur, now, .. } => song_set_duration(s, cur, now),
        ActionV::SetNote { cur, now, .. } => match now {
            Some(n) => song_set_note(s, cur, n),
            None => song_clear_note(s, cur),
        },
        ActionV::ClearBeat { cur, .. } => song_clear_beat(s, cur),
        ActionV::ClearBeats { cur, was } => song_clear_beats(s, cur, was.len() as int),
        ActionV::DeleteBeat { cur, .. } => song_delete_beat(s, cur),
        ActionV::DeleteBeats { cur, was } => song_delete_beats(s, cur, was.len() as int),
        ActionV::PasteNote { cur, buf, .. } => song_set_note(s, cur, buf),
        ActionV::PasteBeat { cur, was, buf } => song_insert_beat(s, cur, was is Some, buf),
        ActionV::PasteBeats { cur, was, buf } => song_insert_beats(s, cur, was is Some, buf),
    }
}

/// The song after reverting an action's effect, from the old state the
/// action carries.
pub open spec fn undo_spec(a: ActionV, s: SongV) -> SongV {
    match a {
        ActionV::SetDuration { cur, was, .. } => song_set_duration(s, cur, was),
        ActionV::SetNote { cur, was, .. } => match was {
            Some(n) => song_set_note(s, cur, n),
            None => song_clear_note(s, cur),
        },
        ActionV::ClearBeat { cur, was } => song_set_notes(s, cur, was),
        ActionV::ClearBeats { cur, was } => song_replace_beats(s, cur, was),
        ActionV::DeleteBeat { cur, was } => song_insert_beat(s, cur, false, was),
        ActionV::DeleteBeats { cur, was } => song_insert_beats(s, cur, false, was),
        ActionV::PasteNote { cur, was, .. } => match was {
            Some(n) => song_set_note(s, cur, n),
            None => song_clear_note(s, cur),
        },
        ActionV::PasteBeat { cur, was, .. } => match was {
            Some(b) => song_insert_beat(s, cur, true, b),
            None => song_delete_beat(s, cur),
        },
        ActionV::PasteBeats { cur, was, buf } => {
            let s1 = song_delete_beats(s, cur, buf.len() as int);
            match was {
                Some(b) => song_insert_beat(s1, cur, false, b),
                None => s1,
            }
        },
    }
}

/// The preconditions under which `apply_to` runs: the addressed places
/// exist, the song is well-formed, pasted material is well-formed, and
/// the measure scans the operation triggers stay within `u16` range.
pub open spec fn apply_req(a: ActionV, s: SongV) -> bool {
    song_wf(s) && match a {
        ActionV::SetDuration { cur, now, .. } => cur.beat_in(s) && now.wf() && track_scan_ok(
            song_set_duration(s, cur, now).tracks[cur.track as int].beats,
        ),
        ActionV::SetNote { cur, .. } => cur.beat_in(s),
        ActionV::ClearBeat { cur, .. } => cur.beat_in(s),
        ActionV::ClearBeats { cur, was } => cur.track_in(s) && cur.beat + was.len() <= s.tracks[
            cur.track as int
        ].beats.len(),
        ActionV::DeleteBeat { cur, .. } => cur.beat_in(s) && s.tracks[cur.track as int].beats.len()
            >= 2 && track_scan_ok(song_delete_beat(s, cur).tracks[cur.track as int].beats),
        ActionV::DeleteBeats { cur, was } => cur.track_in(s) && cur.beat + was.len() <= s.tracks[
            cur.track as int
        ].beats.len() && s.tracks[cur.track as int].beats.len() - was.len() >= 1 && track_scan_ok(
            song_delete_beats(s, cur, was.len() as int).tracks[cur.track as int].beats,
        ),
        ActionV::PasteNote { cur, .. } => cur.beat_in(s),
        ActionV::PasteBeat { cur, was, buf } => cur.track_in(s) && beat_wf(buf) && (was is Some
            ==> cur.beat_in(s)) && (was is None ==> cur.beat <= s.tracks[
            cur.track as int
        ].beats.len()) && track_scan_ok(
            song_insert_beat(s, cur, was is Some, buf).tracks[cur.track as int].beats,
        ),
        ActionV::PasteBeats { cur, was, buf } => cur.track_in(s) && beats_wf(buf) && s.tracks[
            cur.track as int
        ].beats.len() + buf.len() <= usize::MAX && (was is Some ==> cur.beat_in(s) && s.tracks[
            cur.track as int
        ].beats.len() + buf.len() >= 2) && (was is None ==> cur.beat <= s.tracks[
            cur.track as int
        ].beats.len()) && track_scan_ok(
            song_insert_beats(s, cur, was is Some, buf).tracks[cur.track as int].beats,
        ),
    }
}

/// The preconditions under which `undo_on` runs.
pub open spec fn undo_req(a: ActionV, s: SongV) -> bool {
    song_wf(s) && match a {
        ActionV::SetDuration { cur, was, .. } => cur.beat_in(s) && was.wf() && track_scan_ok(
            song_set_duration(s, cur, was).tracks[cur.track as int].beats,
        ),
        ActionV::SetNote { cur, .. } => cur.beat_in(s),
        ActionV::ClearBeat { cur, was } => cur.beat_in(s) && notes_unique(was),
        ActionV::ClearBeats { cur, was } => cur.track_in(s) && cur.beat + was.len() <= s.tracks[
            cur.track as int
        ].beats.len() && beats_wf(was) && track_scan_ok(
            song_replace_beats(s, cur, was).tracks[cur.track as int].beats,
        ),
        ActionV::DeleteBeat { cur, was } => cur.track_in(s) && cur.beat <= s.tracks[
            cur.track as int
        ].beats.len() && beat_wf(was) && track_scan_ok(
            song_insert_beat(s, cur, false, was).tracks[cur.track as int].beats,
        ),
        ActionV::DeleteBeats { cur, was } => cur.track_in(s) && cur.beat <= s.tracks[
            cur.track as int
        ].beats.len() && s.tracks[cur.track as int].beats.len() + was.len() <= usize::MAX
            && beats_wf(was) && track_scan_ok(
            song_insert_beats(s, cur, false, was).tracks[cur.track as int].beats,
        ),
        ActionV::PasteNote { cur, .. } => cur.beat_in(s),
        ActionV::PasteBeat { cur, was, .. } => match was {
            Some(b) => cur.beat_in(s) && beat_wf(b) && track_scan_ok(
                song_insert_beat(s, cur, true, b).tracks[cur.track as int].beats,
            ),
            None => cur.beat_in(s) && s.tracks[cur.track as int].beats.len() >= 2 && track_scan_ok(
                song_delete_beat(s, cur).tracks[cur.track as int].beats,
            ),
        },
        ActionV::PasteBeats { cur, was, buf } => {
            let s1 = song_delete_beats(s, cur, buf.len() as int);
            cur.track_in(s) && cur.beat + buf.len() <= s.tracks[cur.track as int].beats.len()
                && s.tracks[cur.track as int].beats.len() - buf.len() >= 1 && track_scan_ok(
                s1.tracks[cur.track as int].beats,
            ) && match was {
                Some(b) => cur.beat <= s1.tracks[cur.track as int].beats.len() && beat_wf(b)
                    && track_scan_ok(
                    song_insert_beat(s1, cur, false, b).tracks[cur.track as int].beats,
                ),
                None => true,
            }
        },
    }
}

/// The action's recorded old state matches the song it is applied to:
/// the addressed places exist and the carried "old" values are what the
/// song actually holds there, in a well-formed song.
pub open spec fn fits(a: ActionV, s: SongV) -> bool {
    song_wf(s) && match a {
        ActionV::SetDuration { cur, .. } => cur.beat_in(s),
        ActionV::SetNote { cur, was, .. } => cur.beat_in(s) && was == crate::song::find_note_spec(
            s.tracks[cur.track as int].beats[cur.beat as int].notes,
            cur.string,
        ),
        ActionV::ClearBeat { cur, .. } => cur.beat_in(s),
        ActionV::ClearBeats { cur, was } => cur.track_in(s) && cur.beat + was.len() <= s.tracks[
            cur.track as int
        ].beats.len() && was == s.tracks[cur.track as int].beats.subrange(
            cur.beat as int,
            cur.beat as int + was.len() as int,
        ),
        ActionV::DeleteBeat { cur, was } => cur.beat_in(s) && was == s.tracks[
            cur.track as int
        ].beats[cur.beat as int],
        ActionV::DeleteBeats { cur, was } => cur.track_in(s) && cur.beat + was.len() <= s.tracks[
            cur.track as int
        ].beats.len() && was == s.tracks[cur.track as int].beats.subrange(
            cur.beat as int,
            cur.beat as int + was.len() as int,
        ),
        ActionV::PasteNote { cur, was, .. } => cur.beat_in(s) && was
            == crate::song::find_note_spec(
            s.tracks[cur.track as int].beats[cur.beat as int].notes,
            cur.string,
        ),
        ActionV::PasteBeat { cur, was, .. } => match was {
            Some(b0) => cur.beat_in(s) && b0 == s.tracks[cur.track as int].beats[cur.beat as int],
            None => cur.track_in(s) && cur.beat <= s.tracks[cur.track as int].beats.len(),
        },
        ActionV::PasteBeats { cur, was, .. } => match was {
            Some(b0) => cur.beat_in(s) && b0 == s.tracks[cur.track as int].beats[cur.beat as int],
            None => cur.track_in(s) && cur.beat <= s.tracks[cur.track as int].beats.len(),
        },
    }
}

/// The undo/redo inverse law: for any action whose recorded old state
/// matches the song, applying it, undoing it, and redoing it leaves the
/// song identical to the state right after the first application.
pub proof fn lemma_redo_after_undo(a: ActionV, s: SongV)
    requires
        fits(a, s),
    ensures
        apply_spec(a, undo_spec(a, apply_spec(a, s))) == apply_spec(a, s),
{
    let s1 = apply_spec(a, s);
    let s2 = undo_spec(a, s1);
    let s3 = apply_spec(a, s2);
    match a {
        ActionV::SetDuration { cur, was, now } => {
            let t = cur.track as int;
            assert(s3.tracks[t].beats =~~= s1.tracks[t].beats);
            assert(s3 =~~= s1);
        },
        ActionV::SetNote { cur, was, now } => {
            let t = cur.track as int;
            let b = cur.beat as int;
            let ns = s.tracks[t].beats[b].notes;
            assert(track_wf(s.tracks[t]));
            assert(beat_wf(s.tracks[t].beats[b]));
            crate::song::lemma_note_law(ns, cur.string, was, now);
            assert(s1.tracks[t].beats[b].notes == crate::song::apply_note_spec(
                ns,
                cur.string,
                now,
            ));
            assert(s2.tracks[t].beats[b].notes == crate::song::apply_note_spec(
                s1.tracks[t].beats[b].notes,
                cur.string,
                was,
            ));
            assert(s3.tracks[t].beats[b].notes == crate::song::apply_note_spec(
                s2.tracks[t].beats[b].notes,
                cur.string,
                now,
            ));
            assert(s3.tracks[t].beats =~~= s1.tracks[t].beats);
            assert(s3 =~~= s1);
        },
        ActionV::ClearBeat { cur, was } => {
            let t = cur.track as int;
            assert(s3.tracks[t].beats =~~= s1.tracks[t].beats);
            assert(s3 =~~= s1);
        },
        ActionV::ClearBeats { cur, was } => {
            let t = cur.track as int;
            assert(track_wf(s.tracks[t]));
            assert(s2.tracks[t].beats =~~= s.tracks[t].beats);
            assert(s2.tracks[t].measures == s.tracks[t].measures);
            assert(s2 =~~= s);
        },
        ActionV::DeleteBeat { cur, was } => {
            let t = cur.track as int;
            assert(track_wf(s.tracks[t]));
            assert(s2.tracks[t].beats =~~= s.tracks[t].beats);
            assert(s2.tracks[t].measures == s.tracks[t].measures);
            assert(s2 =~~= s);
        },
        ActionV::DeleteBeats { cur, was } => {
            let t = cur.track as int;
            assert(track_wf(s.tracks[t]));
            assert(s2.tracks[t].beats =~~= s.tracks[t].beats);
            assert(s2.tracks[t].measures == s.tracks[t].measures);
            assert(s2 =~~= s);
        },
        ActionV::PasteNote { cur, was, buf } => {
            let t = cur.track as int;
            let b = cur.beat as int;
            let ns = s.tracks[t].beats[b].notes;
            assert(track_wf(s.tracks[t]));
            assert(beat_wf(s.tracks[t].beats[b]));
            crate::song::lemma_note_law(ns, cur.string, was, Some(buf));
            assert(s1.tracks[t].beats[b].notes == crate::song::apply_note_spec(
                ns,
                cur.string,
                Some(buf),
            ));
            assert(s2.tracks[t].beats[b].notes == crate::song::apply_note_spec(
                s1.tracks[t].beats[b].notes,
                cur.string,
                was,
            ));
            assert(s3.tracks[t].beats[b].notes == crate::song::apply_note_spec(
                s2.tracks[t].beats[b].notes,
                cur.string,
                Some(buf),
            ));
            assert(s3.tracks[t].beats =~~= s1.tracks[t].beats);
            assert(s3 =~~= s1);
        },
        ActionV::PasteBeat { cur, was, buf } => {
            let t = cur.track as int;
            assert(track_wf(s.tracks[t]));
            match was {
                Some(b0) => {
                    assert(s2.tracks[t].beats =~~= s.tracks[t].beats);
                },
                None => {
                    assert(s2.tracks[t].beats =~~= s.tracks[t].beats);
                },
            }
            assert(s2.tracks[t].measures == s.tracks[t].measures);
            assert(s2 =~~= s);
        },
        ActionV::PasteBeats { cur, was, buf } => {
            let t = cur.track as int;
            let b = cur.beat as int;
            let beats = s.tracks[t].beats;
            assert(track_wf(s.tracks[t]));
            let sa = song_delete_beats(s1, cur, buf.len() as int);
            match was {
                Some(b0) => {
                    let base = beats.remove(b);
                    assert(sa.tracks[t].beats =~~= base);
                    assert(s2.tracks[t].beats == sa.tracks[t].beats.insert(b, b0));
                    assert(s2.tracks[t].beats =~~= beats);
                },
                None => {
                    assert(s2.tracks[t].beats =~~= beats);
                },
            }
            assert(s2.tracks[t].measures == s.tracks[t].measures);
            assert(s2 =~~= s);
        },
    }
}

/// Pushing onto a full history with nothing undone keeps exactly
/// `capacity` entries: the new action enters at the front and the oldest
/// entry is discarded.
pub proof fn lemma_history_bounded(h: HistoryV, a: ActionV)
    requires
        h.future == 0,
        h.size >= 1,
        h.entries.len() == h.size,
    ensures
        push_spec(h, a).entries.len() == h.size,
        push_spec(h, a).entries == seq![a] + h.entries.drop_last(),
        push_spec(h, a).future == 0,
{
    assert(h.entries.skip(0) =~~= h.entries);
}

/// After an undo, pushing a fresh action discards every redo-able entry:
/// the log becomes the new action followed by exactly the entries that
/// were not undone.
pub proof fn lemma_push_discards_redoable(h: HistoryV, a: ActionV)
    requires
        0 < h.future <= h.entries.len(),
        h.entries.len() - h.future < h.size,
    ensures
        push_spec(h, a).entries == seq![a] + h.entries.skip(h.future),
        push_spec(h, a).entries.len() == h.entries.len() - h.future + 1,
        push_spec(h, a).future == 0,
{
}

/// A push never leaves more than `capacity` entries, provided the live
/// (not undone) part of the log was within capacity.
pub proof fn lemma_push_len(h: HistoryV, a: ActionV)
    requires
        0 <= h.future <= h.entries.len(),
        h.entries.len() - h.future <= h.size,
        h.size >= 1,
    ensures
        push_spec(h, a).entries.len() <= h.size,
{
}

impl Action {
    /// Record a duration change.
    pub fn set_duration(cur: Cursor, was: Duration, now: Duration) -> (r: Self)
        ensures
            r@ == (ActionV::SetDuration { cur, was, now }),
    {
        Self::SetDuration { cur, was, now }
    }

    /// Record a note set or clear.
    pub fn set_note(cur: Cursor, was: Option<Note>, now: Option<Note>) -> (r: Self)
        ensures
            r@ == (ActionV::SetNote { cur, was, now }),
    {
        Self::SetNote { cur, was, now }
    }

    /// Record the clearing of one beat's chord.
    pub fn clear_beat(cur: Cursor, was: Vec<(u16, Note)>) -> (r: Self)
        ensures
            r@ == (ActionV::ClearBeat { cur, was: was@ }),
    {
        Self::ClearBeat { cur, was }
    }

    /// Record the clearing of a run of beats.
    pub fn clear_beats(cur: Cursor, was: Vec<Beat>) -> (r: Self)
        ensures
            r@ == (ActionV::ClearBeats { cur, was: beats_view(was@) }),
    {
        Self::ClearBeats { cur, was }
    }

    /// Record the deletion of one beat.
    pub fn delete_beat(cur: Cursor, was: Beat) -> (r: Self)
        ensures
            r@ == (ActionV::DeleteBeat { cur, was: was@ }),
    {
        Self::DeleteBeat { cur, was }
    }

    /// Record the deletion of a run of beats.
    pub fn delete_beats(cur: Cursor, was: Vec<Beat>) -> (r: Self)
        ensures
            r@ == (ActionV::DeleteBeats { cur, was: beats_view(was@) }),
    {
        Self::DeleteBeats { cur, was }
    }

    /// Record a note paste.
    pub fn paste_note(cur: Cursor, was: Option<Note>, buf: Note) -> (r: Self)
        ensures
            r@ == (ActionV::PasteNote { cur, was, buf }),
    {
        Self::PasteNote { cur, was, buf }
    }

    /// Record a beat paste.
    pub fn paste_beat(cur: Cursor, was: Option<Beat>, buf: Beat) -> (r: Self)
        ensures
            r@ == (ActionV::PasteBeat {
                cur,
                was: match was {
                    Some(b) => Some(b@),
                    None => None,
                },
                buf: buf@,
            }),
    {
        Self::PasteBeat { cur, was, buf }
    }

    /// Record a multi-beat paste.
    pub fn paste_beats(cur: Cursor, was: Option<Beat>, buf: Vec<Beat>) -> (r: Self)
        ensures
            r@ == (ActionV::PasteBeats {
                cur,
                was: match was {
                    Some(b) => Some(b@),
                    None => None,
                },
                buf: beats_view(buf@),
            }),
    {
        Self::PasteBeats { cur, was, buf }
    }

    /// Replay this action's forward effect against the song, through the
    /// cursor address recorded in it. Used on the initial edit and on
    /// redo.
    pub fn apply_to(&self, song: &mut Song)
        requires
            apply_req(self@, old(song)@),
        ensures
            final(song)@ == apply_spec(self@, old(song)@),
            song_wf(final(song)@),
    {
        match self {
            Action::SetDuration { cur, now, .. } => {
                cur.set_duration(song, *now);
            },
            Action::SetNote { cur, now, .. } => {
                match now {
                    Some(n) => cur.set_note(song, *n),
                    None => cur.clear_note(song),
                }
            },
            Action::ClearBeat { cur, .. } => {
                cur.clear_beat(song);
            },
            Action::ClearBeats { cur, was } => {
                cur.clear_beats(song, was.len());
            },
            Action::DeleteBeat { cur, .. } => {
                cur.delete_beat(song);
            },
            Action::DeleteBeats { cur, was } => {
                cur.delete_beats(song, was.len());
            },
            Action::PasteNote { cur, buf, .. } => {
                cur.set_note(song, *buf);
            },
            Action::PasteBeat { cur, was, buf } => {
                cur.insert_beat(song, was.is_some(), buf.clone());
            },
            Action::PasteBeats { cur, was, buf } => {
                cur.insert_beats(song, was.is_some(), clone_beats(buf));
            },
        }
    }

    /// Revert this action's effect against the song, from the old state
    /// recorded in it. Used on undo.
    pub fn undo_on(&self, song: &mut Song)
        requires
            undo_req(self@, old(song)@),
        ensures
            final(song)@ == undo_spec(self@, old(song)@),
            song_wf(final(song)@),
    {
        match self {
            Action::SetDuration { cur, was, .. } => {
                cur.set_duration(song, *was);
            },
            Action::SetNote { cur, was, .. } => {
                match was {
                    Some(n) => cur.set_note(song, *n),
                    None => cur.clear_note(song),
                }
            },
            Action::ClearBeat { cur, was } => {
                cur.set_notes(song, crate::cursor::clone_notes(was));
            },
            Action::ClearBeats { cur, was } => {
                cur.replace_beats(song, clone_beats(was));
            },
            Action::DeleteBeat { cur, was } => {
                cur.insert_beat(song, false, was.clone());
            },
            Action::DeleteBeats { cur, was } => {
                cur.insert_beats(song, false, clone_beats(was));
            },
            Action::PasteNote { cur, was, .. } => {
                match was {
                    Some(n) => cur.set_note(song, *n),
                    None => cur.clear_note(song),
                }
            },
            Action::PasteBeat { cur, was, .. } => {
                match was {
                    Some(b) => cur.insert_beat(song, true, b.clone()),
                    None => cur.delete_beat(song),
                }
            },
            Action::PasteBeats { cur, was, buf } => {
                cur.delete_beats(song, buf.len());
                match was {
                    Some(b) => cur.insert_beat(song, false, b.clone()),
                    None => {},
                }
            },
        }
    }
}

/// The mathematical value of a `History`.
#[verifier::ext_equal]
pub struct HistoryV {
    pub size: int,
    pub entries: Seq<ActionV>,
    pub future: int,
}

/// The history after a push: the redo-able entries (the `future` most
/// recent) are discarded, the oldest entry is evicted when the log is at
/// capacity, and the new action goes to the front.
pub open spec fn push_spec(h: HistoryV, a: ActionV) -> HistoryV {
    let trimmed = h.entries.skip(h.future);
    let kept = if trimmed.len() == h.size && trimmed.len() > 0 {
        trimmed.drop_last()
    } else {
        trimmed
    };
    HistoryV { size: h.size, entries: seq![a] + kept, future: 0 }
}

/// A bounded, invertible command log: a capacity, the recorded actions
/// (most recent first), and the number of entries that have been undone.
pub struct History {
    size: usize,
    history: std::collections::VecDeque<Rc<Action>>,
    future: usize,
}

impl View for History {
    type V = HistoryV;

    closed spec fn view(&self) -> HistoryV {
        HistoryV {
            size: self.size as int,
            entries: Seq::new(self.history@.len(), |i: int| self.history@[i]@),
            future: self.future as int,
        }
    }
}

impl History {
    /// The undone count never exceeds the recorded count.
    pub open spec fn wf(&self) -> bool {
        0 <= self@.future <= self@.entries.len()
    }

    /// An empty history with the given capacity.
    pub fn new(size: usize) -> (r: Self)
        ensures
            r@.size == size,
            r@.entries.len() == 0,
            r@.future == 0,
            r.wf(),
    {
        let r = History { size, history: std::collections::VecDeque::with_capacity(size), future: 0 };
        proof {
            assert(r@.entries =~= Seq::<ActionV>::empty());
        }
        r
    }

    /// Record a fresh action: discard anything redo-able, evict the
    /// oldest entry when at capacity, and put the action at the front.
    pub fn push(&mut self, entry: Rc<Action>)
        requires
            old(self).wf(),
        ensures
            final(self)@ == push_spec(old(self)@, entry@),
            final(self).wf(),
    {
        let ghost h0 = self@;
        let mut k: usize = 0;
        let bound = self.future;
        while k < bound
            invariant
                k <= bound,
                bound == h0.future,
                h0.future <= h0.entries.len(),
                self.size == h0.size,
                self.future == h0.future,
                self.history@.len() == h0.entries.len() - k,
                forall|j: int|
                    0 <= j < self.history@.len() ==> #[trigger] self.history@[j]@ =~~= h0.entries[j
                        + k],
            decreases bound - k,
        {
            let ghost d0 = self.history@;
            let popped = self.history.pop_front();
            k = k + 1;
            proof {
                assert forall|j: int|
                    0 <= j < self.history@.len() implies #[trigger] self.history@[j]@
                    =~~= h0.entries[j + k] by {
                    assert(self.history@[j] == d0[j + 1]);
                    assert(d0[j + 1]@ =~~= h0.entries[(j + 1) + (k - 1)]);
                }
            }
        }
        self.future = 0;
        let ghost trimmed = h0.entries.skip(h0.future);
        proof {
            assert(self.history@.len() == trimmed.len());
            assert forall|j: int| 0 <= j < self.history@.len() implies #[trigger] self.history@[j]@
                =~~= trimmed[j] by {
                assert(trimmed[j] == h0.entries[j + h0.future]);
            }
        }
        let ghost kept = push_spec(h0, entry@).entries.skip(1);
        if self.history.len() == self.size {
            let ghost d1 = self.history@;
            let dropped = self.history.pop_back();
            proof {
                if d1.len() > 0 {
                    assert(kept =~~= trimmed.drop_last());
                    assert forall|j: int|
                        0 <= j < self.history@.len() implies #[trigger] self.history@[j]@
                        =~~= kept[j] by {
                        assert(self.history@[j] == d1[j]);
                    }
                } else {
                    assert(kept =~~= trimmed);
                }
            }
        } else {
            proof {
                assert(kept =~~= trimmed);
            }
        }
        proof {
            assert(self.history@.len() == kept.len());
        }
        let ghost dpre = self.history@;
        self.history.push_front(entry);
        proof {
            assert(self.history@.len() == kept.len() + 1);
            assert forall|j: int| 0 <= j < self@.entries.len() implies #[trigger] self@.entries[j]
                =~~= push_spec(h0, entry@).entries[j] by {
                assert(self@.entries[j] == self.history@[j]@);
                if j == 0 {
                    assert(self.history@[0] == entry);
                } else {
                    assert(self.history@[j] == dpre[j - 1]);
                    assert(dpre[j - 1]@ =~~= kept[j - 1]);
                    assert(push_spec(h0, entry@).entries[j] == kept[j - 1]);
                }
            }
            assert(self@.entries =~~= push_spec(h0, entry@).entries);
            assert(self@ =~~= push_spec(h0, entry@));
        }
    }

    /// Step one entry into the past: hand back the next action to revert
    /// and count it as undone. Nothing happens when everything recorded
    /// is already undone.
    pub fn undo(&mut self) -> (r: Option<Rc<Action>>)
        requires
            old(self).wf(),
        ensures
            final(self).wf(),
            match r {
                Some(a) => old(self)@.future < old(self)@.entries.len() && a@ == old(
                    self,
                )@.entries[old(self)@.future] && final(self)@ == (HistoryV {
                    future: old(self)@.future + 1,
                    ..old(self)@
                }),
                None => old(self)@.future == old(self)@.entries.len() && final(self)@ == old(
                    self,
                )@,
            },
    {
        if self.future < self.history.len() {
            let e = self.history[self.future].clone();
            self.future = self.future + 1;
            proof {
                assert(final(self)@ =~~= (HistoryV { future: old(self)@.future + 1, ..old(self)@ }));
            }
            Some(e)
        } else {
            proof {
                assert(final(self)@ =~~= old(self)@);
            }
            None
        }
    }

    /// Step one entry back toward the present: hand back the most
    /// recently undone action to replay. Nothing happens when nothing is
    /// undone.
    pub fn redo(&mut self) -> (r: Option<Rc<Action>>)
        requires
            old(self).wf(),
        ensures
            final(self).wf(),
            match r {
                Some(a) => old(self)@.future > 0 && a@ == old(self)@.entries[old(self)@.future - 1]
                    && final(self)@ == (HistoryV { future: old(self)@.future - 1, ..old(self)@ }),
                None => old(self)@.future == 0 && final(self)@ == old(self)@,
            },
    {
        if self.future > 0 {
            self.future = self.future - 1;
            let e = self.history[self.future].clone();
            proof {
                assert(final(self)@ =~~= (HistoryV { future: old(self)@.future - 1, ..old(self)@ }));
            }
            Some(e)
        } else {
            proof {
                assert(final(self)@ =~~= old(self)@);
            }
            None
        }
    }
}

} // verus!
