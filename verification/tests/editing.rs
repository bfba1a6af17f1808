use rust_tab::buffer::Buffer;
use rust_tab::cursor::Cursor;
use rust_tab::dur::Duration;
use rust_tab::history::{Action, History};
use rust_tab::song::{Note, Song};
use std::rc::Rc;

const WIDTH: usize = 4;

fn songs_equal(a: &Song, b: &Song) -> bool {
    if a.tracks.len() != b.tracks.len() {
        return false;
    }
    for (ta, tb) in a.tracks.iter().zip(b.tracks.iter()) {
        if ta.string_count != tb.string_count
            || ta.beats.len() != tb.beats.len()
            || ta.measure_i != tb.measure_i
        {
            return false;
        }
        for (ba, bb) in ta.beats.iter().zip(tb.beats.iter()) {
            if ba.dur != bb.dur || ba.notes != bb.notes {
                return false;
            }
        }
    }
    true
}

fn snapshot(s: &Song) -> Song {
    Song {
        tracks: s
            .tracks
            .iter()
            .map(|t| rust_tab::song::Track {
                string_count: t.string_count,
                beats: t.beats.clone(),
                measure_i: t.measure_i.clone(),
            })
            .collect(),
    }
}

#[test]
fn seek_string_clamps() {
    let song = Song::new();
    let mut cur = Cursor::new();
    cur.seek_string(&song, 3);
    assert_eq!(cur.string, 3);
    cur.seek_string(&song, 100);
    assert_eq!(cur.string, 5);
    cur.seek_string(&song, -100);
    assert_eq!(cur.string, 0);
}

#[test]
fn seek_beat_grows_track() {
    let mut song = Song::new();
    let mut cur = Cursor::new();
    cur.seek_beat(&mut song, 5, WIDTH);
    assert_eq!(cur.beat, 5);
    assert_eq!(song.tracks[0].beats.len(), 6);
    for b in &song.tracks[0].beats[1..] {
        assert_eq!(b.dur, Duration::new(1, 1));
        assert!(b.notes.is_empty());
    }
    // the window slid so the cursor is the last visible beat
    assert_eq!(cur.scroll, 2);
    cur.seek_beat(&mut song, -2, WIDTH);
    assert_eq!(cur.beat, 3);
    assert_eq!(song.tracks[0].beats.len(), 6);
    cur.seek_beat(&mut song, -100, WIDTH);
    assert_eq!(cur.beat, 0);
}

#[test]
fn seek_start_end_and_scroll() {
    let mut song = Song::new();
    let mut cur = Cursor::new();
    cur.seek_beat(&mut song, 9, WIDTH);
    cur.seek_start();
    assert_eq!((cur.beat, cur.scroll), (0, 0));
    cur.seek_end(&song, WIDTH);
    assert_eq!(cur.beat, 9);
    assert_eq!(cur.scroll, 6);
    cur.seek_scroll(&song, -2, WIDTH);
    assert_eq!(cur.scroll, 4);
    // the cursor is clamped into the window
    assert_eq!(cur.beat, 7);
    cur.seek_scroll(&song, 100, WIDTH);
    assert_eq!(cur.scroll, 9);
}

#[test]
fn seek_scroll_on_single_beat_track() {
    // a one-beat track must not underflow when the window is clamped
    let song = Song::new();
    let mut cur = Cursor::new();
    cur.seek_scroll(&song, -1, WIDTH);
    assert_eq!((cur.scroll, cur.beat), (0, 0));
    cur.seek_scroll(&song, 7, WIDTH);
    assert_eq!((cur.scroll, cur.beat), (0, 0));
}

#[test]
fn seek_measures() {
    let mut song = Song::new();
    let mut cur = Cursor::new();
    // eight quarter notes: measures start at beats 0 and 4
    cur.seek_beat(&mut song, 7, 100);
    for i in 0..8 {
        let c = Cursor { beat: i, ..cur };
        c.set_duration(&mut song, Duration::new(1, 4));
    }
    assert_eq!(
        song.tracks[0].measure_i,
        vec![true, false, false, false, true, false, false, false]
    );
    cur.seek_start();
    cur.seek_next_measure(&song, 100);
    assert_eq!(cur.beat, 4);
    cur.seek_next_measure(&song, 100);
    assert_eq!(cur.beat, 7);
    cur.seek_prev_measure(&song, 100);
    assert_eq!(cur.beat, 4);
    cur.seek_prev_measure(&song, 100);
    assert_eq!(cur.beat, 0);
}

#[test]
fn set_and_clear_notes_through_cursor() {
    let mut song = Song::new();
    let mut cur = Cursor::new();
    cur.string = 2;
    cur.set_note(&mut song, Note::Fret(5));
    assert!(matches!(cur.clone_note(&song), Some(Note::Fret(5))));
    cur.clear_note(&mut song);
    assert!(cur.clone_note(&song).is_none());
    cur.set_note(&mut song, Note::Fret(5));
    cur.clear_beat(&mut song);
    assert!(song.tracks[0].beats[0].notes.is_empty());
}

#[test]
fn delete_and_insert_beats() {
    let mut song = Song::new();
    let mut cur = Cursor::new();
    cur.seek_beat(&mut song, 3, WIDTH);
    assert_eq!(song.tracks[0].beats.len(), 4);
    cur.seek_start();
    cur.set_duration(&mut song, Duration::new(1, 2));
    cur.delete_beat(&mut song);
    assert_eq!(song.tracks[0].beats.len(), 3);
    assert_eq!(song.tracks[0].beats[0].dur, Duration::new(1, 1));
    cur.delete_beats(&mut song, 2);
    assert_eq!(song.tracks[0].beats.len(), 1);
    let nb = rust_tab::song::Beat::new(Duration::new(1, 8));
    cur.insert_beat(&mut song, false, nb);
    assert_eq!(song.tracks[0].beats.len(), 2);
    assert_eq!(song.tracks[0].beats[0].dur, Duration::new(1, 8));
}

#[test]
fn copy_paste_roundtrip() {
    // new track, seek to beat 3 (auto-grows to 4), put a note, copy the
    // beat, seek back, paste before beat 0
    let mut song = Song::new();
    let mut cur = Cursor::new();
    cur.seek_beat(&mut song, 3, WIDTH);
    assert_eq!(song.tracks[0].beats.len(), 4);
    assert_eq!(cur.beat, 3);
    cur.string = 2;
    cur.set_note(&mut song, Note::Fret(5));
    let buf = cur.copy_beat(&song);
    assert!(matches!(buf, Buffer::Beat(_)));
    cur.seek_beat(&mut song, -3, WIDTH);
    assert_eq!(cur.beat, 0);
    buf.paste_once(&cur, &mut song, false);
    assert_eq!(song.tracks[0].beats.len(), 5);
    assert!(matches!(
        song.tracks[0].beats[0].get_note(2),
        Some(Note::Fret(5))
    ));
}

#[test]
fn copy_beats_out_of_range_is_empty() {
    let song = Song::new();
    let cur = Cursor::new();
    assert!(matches!(cur.copy_beats(&song, 2), Buffer::Empty));
    let buf = cur.copy_beats(&song, 1);
    match &buf {
        Buffer::MultiBeat(v) => assert_eq!(v.len(), 1),
        _ => panic!("expected a beat range"),
    }
    assert_eq!(buf.label(), "MultiBeat");
    assert_eq!(Buffer::Empty.label(), "Empty");
}

#[test]
fn copy_note_buffer() {
    let mut song = Song::new();
    let cur = Cursor::new();
    assert!(matches!(cur.copy_note(&song), Buffer::Empty));
    cur.set_note(&mut song, Note::Fret(7));
    assert!(matches!(cur.copy_note(&song), Buffer::Note(Note::Fret(7))));
}

#[test]
fn undo_then_redo_restores_edit() {
    let mut song = Song::new();
    let cur = Cursor::new();
    let action = Action::set_duration(
        cur,
        song.tracks[0].beats[0].dur,
        Duration::new(1, 4),
    );
    action.apply_to(&mut song);
    let after = snapshot(&song);
    action.undo_on(&mut song);
    assert_eq!(song.tracks[0].beats[0].dur, Duration::new(1, 1));
    action.apply_to(&mut song);
    assert!(songs_equal(&song, &after));
}

#[test]
fn paste_undo_redo_roundtrip() {
    let mut song = Song::new();
    let mut cur = Cursor::new();
    cur.seek_beat(&mut song, 2, WIDTH);
    cur.string = 1;
    cur.set_note(&mut song, Note::Fret(9));
    cur.seek_start();
    let buf = cur.copy_beats(&song, 2);
    let action = buf.to_action(&cur, &song, false).unwrap();
    let before = snapshot(&song);
    action.apply_to(&mut song);
    assert_eq!(song.tracks[0].beats.len(), 5);
    let after = snapshot(&song);
    action.undo_on(&mut song);
    assert!(songs_equal(&song, &before));
    action.apply_to(&mut song);
    assert!(songs_equal(&song, &after));
}

#[test]
fn history_undo_redo_order() {
    let mut h = History::new(8);
    let cur = Cursor::new();
    h.push(Rc::new(Action::set_duration(
        cur,
        Duration::new(1, 1),
        Duration::new(1, 2),
    )));
    h.push(Rc::new(Action::set_duration(
        cur,
        Duration::new(1, 2),
        Duration::new(1, 4),
    )));
    // undo hands back the most recent first
    let a = h.undo().unwrap();
    match &*a {
        Action::SetDuration { now, .. } => assert_eq!(*now, Duration::new(1, 4)),
        _ => panic!("wrong action"),
    }
    let b = h.undo().unwrap();
    match &*b {
        Action::SetDuration { now, .. } => assert_eq!(*now, Duration::new(1, 2)),
        _ => panic!("wrong action"),
    }
    assert!(h.undo().is_none());
    // redo replays in forward order
    let c = h.redo().unwrap();
    match &*c {
        Action::SetDuration { now, .. } => assert_eq!(*now, Duration::new(1, 2)),
        _ => panic!("wrong action"),
    }
    assert!(h.redo().is_some());
    assert!(h.redo().is_none());
}

#[test]
fn history_capacity_evicts_oldest() {
    let mut h = History::new(2);
    let cur = Cursor::new();
    for den in [1u16, 2, 4] {
        h.push(Rc::new(Action::set_duration(
            cur,
            Duration::new(1, 1),
            Duration::new(1, den),
        )));
    }
    // pushing capacity + 1 actions leaves exactly capacity entries, the
    // oldest (1/1) discarded
    let a = h.undo().unwrap();
    match &*a {
        Action::SetDuration { now, .. } => assert_eq!(*now, Duration::new(1, 4)),
        _ => panic!("wrong action"),
    }
    let b = h.undo().unwrap();
    match &*b {
        Action::SetDuration { now, .. } => assert_eq!(*now, Duration::new(1, 2)),
        _ => panic!("wrong action"),
    }
    assert!(h.undo().is_none());
}

#[test]
fn push_after_undo_discards_redoable() {
    let mut h = History::new(8);
    let cur = Cursor::new();
    h.push(Rc::new(Action::set_duration(
        cur,
        Duration::new(1, 1),
        Duration::new(1, 2),
    )));
    h.push(Rc::new(Action::set_duration(
        cur,
        Duration::new(1, 2),
        Duration::new(1, 4),
    )));
    assert!(h.undo().is_some());
    h.push(Rc::new(Action::set_duration(
        cur,
        Duration::new(1, 2),
        Duration::new(1, 8),
    )));
    // the undone 1/4 entry is gone; redo has nothing
    assert!(h.redo().is_none());
    let a = h.undo().unwrap();
    match &*a {
        Action::SetDuration { now, .. } => assert_eq!(*now, Duration::new(1, 8)),
        _ => panic!("wrong action"),
    }
    let b = h.undo().unwrap();
    match &*b {
        Action::SetDuration { now, .. } => assert_eq!(*now, Duration::new(1, 2)),
        _ => panic!("wrong action"),
    }
    assert!(h.undo().is_none());
}

#[test]
fn clear_beats_and_replace_roundtrip() {
    let mut song = Song::new();
    let mut cur = Cursor::new();
    cur.seek_beat(&mut song, 2, WIDTH);
    cur.string = 0;
    cur.set_note(&mut song, Note::Fret(3));
    cur.seek_start();
    let old = cur.clone_beats_slice(&song, 3).unwrap();
    let action = Action::clear_beats(cur, old);
    let before = snapshot(&song);
    action.apply_to(&mut song);
    assert!(song.tracks[0].beats.iter().all(|b| b.notes.is_empty()));
    action.undo_on(&mut song);
    assert!(songs_equal(&song, &before));
}
