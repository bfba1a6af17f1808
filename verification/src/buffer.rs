//! The clipboard: a single slot holding nothing, one note, one beat, or a
//! run of beats. It is replaced wholesale by each copy and read by paste.

use crate::cursor::{
    beats_wf, song_insert_beat, song_insert_beats, song_set_note, Cursor,
};
use crate::history::{Action, ActionV};
use crate::song::{
    beat_wf, beats_view, clone_beats, find_note_spec, song_wf, track_scan_ok, Beat, BeatV, Note,
    Song, SongV,
};
use vstd::prelude::*;

verus! {

/// The mathematical value of a `Buffer`.
#[verifier::ext_equal]
pub enum BufferV {
    Empty,
    Note(Note),
    Beat(BeatV),
    MultiBeat(Seq<BeatV>),
}

/// Clipboard contents: nothing, a note, a beat, or a run of beats.
#[derive(Debug)]
pub enum Buffer {
    Empty,
    Note(Note),
    Beat(Beat),
    MultiBeat(Vec<Beat>),
}

impl View for Buffer {
    type V = BufferV;

    open spec fn view(&self) -> BufferV {
        match self {
            Buffer::Empty => BufferV::Empty,
            Buffer::Note(n) => BufferV::Note(*n),
            Buffer::Beat(b) => BufferV::Beat(b@),
            Buffer::MultiBeat(v) => BufferV::MultiBeat(beats_view(v@)),
        }
    }
}

impl Buffer {
    /// The short name of the held kind, for a status line.
    pub fn label(&self) -> (r: &'static str)
        ensures
            (self@ is Empty ==> r@ == "Empty"@) && (self@ is Note ==> r@ == "Note"@) && (self@
                is Beat ==> r@ == "Beat"@) && (self@ is MultiBeat ==> r@ == "MultiBeat"@),
    {
        match self {
            Buffer::Empty => "Empty",
            Buffer::Note(_) => "Note",
            Buffer::Beat(_) => "Beat",
            Buffer::MultiBeat(_) => "MultiBeat",
        }
    }
}

/// The buffer's contents are well-formed.
pub open spec fn buffer_wf(bf: BufferV) -> bool {
    match bf {
        BufferV::Empty => true,
        BufferV::Note(_) => true,
        BufferV::Beat(b) => beat_wf(b),
        BufferV::MultiBeat(v) => beats_wf(v),
    }
}

/// The song after pasting the buffer's contents once at the cursor: a
/// note is set on the addressed string, a beat or run of beats overwrites
/// the addressed beat (in place) or is inserted before it, and an empty
/// buffer changes nothing.
pub open spec fn paste_spec(bf: BufferV, cur: Cursor, s: SongV, in_place: bool) -> SongV {
    match bf {
        BufferV::Empty => s,
        BufferV::Note(n) => song_set_note(s, cur, n),
        BufferV::Beat(b) => song_insert_beat(s, cur, in_place, b),
        BufferV::MultiBeat(v) => song_insert_beats(s, cur, in_place, v),
    }
}

/// The preconditions under which `paste_once` runs.
pub open spec fn paste_req(bf: BufferV, cur: Cursor, s: SongV, in_place: bool) -> bool {
    song_wf(s) && buffer_wf(bf) && match bf {
        BufferV::Empty => true,
        BufferV::Note(_) => cur.beat_in(s),
        BufferV::Beat(b) => cur.track_in(s) && (in_place ==> cur.beat_in(s)) && (!in_place
            ==> cur.beat <= s.tracks[cur.track as int].beats.len()) && track_scan_ok(
            song_insert_beat(s, cur, in_place, b).tracks[cur.track as int].beats,
        ),
        BufferV::MultiBeat(v) => cur.track_in(s) && s.tracks[cur.track as int].beats.len()
            + v.len() <= usize::MAX && (in_place ==> cur.beat_in(s) && s.tracks[
            cur.track as int
        ].beats.len() + v.len() >= 2) && (!in_place ==> cur.beat <= s.tracks[
            cur.track as int
        ].beats.len()) && track_scan_ok(
            song_insert_beats(s, cur, in_place, v).tracks[cur.track as int].beats,
        ),
    }
}

impl Buffer {
    /// Paste the buffer's contents once at the cursor. An empty buffer is
    /// a no-op.
    pub fn paste_once(&self, cur: &Cursor, song: &mut Song, in_place: bool)
        requires
            paste_req(self@, *cur, old(song)@, in_place),
        ensures
            final(song)@ == paste_spec(self@, *cur, old(song)@, in_place),
            song_wf(final(song)@),
    {
        match self {
            Buffer::Empty => {},
            Buffer::Note(n) => cur.set_note(song, *n),
            Buffer::Beat(b) => cur.insert_beat(song, in_place, b.clone()),
            Buffer::MultiBeat(v) => cur.insert_beats(song, in_place, clone_beats(v)),
        }
    }

    /// The action recording one paste of this buffer at the cursor, with
    /// the old state the paste would replace; `None` for an empty buffer.
    pub fn to_action(&self, cur: &Cursor, song: &Song, in_place: bool) -> (r: Option<Action>)
        requires
            cur.beat_in(song@),
        ensures
            match r {
                Some(a) => !(self@ is Empty) && a@ == match self@ {
                    BufferV::Note(n) => ActionV::PasteNote {
                        cur: *cur,
                        was: find_note_spec(
                            song@.tracks[cur.track as int].beats[cur.beat as int].notes,
                            cur.string,
                        ),
                        buf: n,
                    },
                    BufferV::Beat(b) => ActionV::PasteBeat {
                        cur: *cur,
                        was: if in_place {
                            Some(song@.tracks[cur.track as int].beats[cur.beat as int])
                        } else {
                            None
                        },
                        buf: b,
                    },
                    BufferV::MultiBeat(v) => ActionV::PasteBeats {
                        cur: *cur,
                        was: if in_place {
                            Some(song@.tracks[cur.track as int].beats[cur.beat as int])
                        } else {
                            None
                        },
                        buf: v,
                    },
                    BufferV::Empty => a@,
                },
                None => self@ is Empty,
            },
    {
        match self {
            Buffer::Empty => None,
            Buffer::Note(n) => Some(
                Action::paste_note(*cur, cur.clone_note(song), *n),
            ),
            Buffer::Beat(b) => Some(
                Action::paste_beat(
                    *cur,
                    if in_place {
                        Some(cur.clone_beat(song))
                    } else {
                        None
                    },
                    b.clone(),
                ),
            ),
            Buffer::MultiBeat(v) => Some(
                Action::paste_beats(
                    *cur,
                    if in_place {
                        Some(cur.clone_beat(song))
                    } else {
                        None
                    },
                    clone_beats(v),
                ),
            ),
        }
    }
}

} // verus!
