use rust_tab::dur::Duration;
use rust_tab::error::Error;
use rust_tab::song::{Beat, Note, Song, Track};

#[test]
fn note_parse() {
    assert!(matches!(Note::parse("x"), Ok(Note::X)));
    assert!(matches!(Note::parse("12"), Ok(Note::Fret(12))));
    assert!(matches!(Note::parse("0"), Ok(Note::Fret(0))));
    assert!(matches!(Note::parse(""), Err(Error::InvalidOp(_))));
    assert!(matches!(Note::parse("ab"), Err(Error::InvalidOp(_))));
    assert!(matches!(Note::parse("99999"), Err(Error::InvalidOp(_))));
}

#[test]
fn beat_set_note_overwrites_or_appends() {
    let mut b = Beat::new(Duration::new(1, 4));
    assert!(b.copy_note(2).is_none());
    b.set_note(2, Note::Fret(5));
    assert!(matches!(b.copy_note(2), Some(Note::Fret(5))));
    b.set_note(2, Note::X);
    assert!(matches!(b.copy_note(2), Some(Note::X)));
    assert_eq!(b.notes.len(), 1);
    b.set_note(4, Note::Fret(7));
    assert_eq!(b.notes.len(), 2);
    assert!(matches!(b.get_note(4), Some(Note::Fret(7))));
}

#[test]
fn beat_del_note_removes_if_present() {
    let mut b = Beat::new(Duration::new(1, 4));
    b.set_note(1, Note::Fret(1));
    b.set_note(2, Note::Fret(2));
    b.set_note(3, Note::Fret(3));
    b.del_note(1);
    assert!(b.copy_note(1).is_none());
    assert!(matches!(b.copy_note(2), Some(Note::Fret(2))));
    assert!(matches!(b.copy_note(3), Some(Note::Fret(3))));
    b.del_note(9);
    assert_eq!(b.notes.len(), 2);
}

#[test]
fn beat_copy_duration_drops_notes() {
    let mut b = Beat::new(Duration::new(1, 2));
    b.set_note(0, Note::Fret(3));
    let c = b.copy_duration();
    assert_eq!(c.dur, Duration::new(1, 2));
    assert!(c.notes.is_empty());
}

#[test]
fn new_track_shape() {
    let t = Track::new();
    assert_eq!(t.string_count, 6);
    assert_eq!(t.beats.len(), 1);
    assert_eq!(t.beats[0].dur, Duration::new(1, 1));
    assert!(t.beats[0].notes.is_empty());
    assert_eq!(t.measure_i, vec![true]);
}

#[test]
fn measure_index_two_whole_notes() {
    let durs = [
        Duration::new(1, 4),
        Duration::new(1, 4),
        Duration::new(1, 4),
        Duration::new(1, 4),
        Duration::new(1, 2),
        Duration::new(1, 2),
    ];
    let mut t = Track {
        string_count: 6,
        beats: durs.iter().map(|d| Beat::new(*d)).collect(),
        measure_i: Vec::new(),
    };
    t.update_measures();
    assert_eq!(t.measure_i, vec![true, false, false, false, true, false]);
}

#[test]
fn measure_index_with_overflowing_beat() {
    // a dotted whole note spills half a measure into the next one
    let durs = [Duration::new(3, 2), Duration::new(1, 2), Duration::new(1, 1)];
    let mut t = Track {
        string_count: 6,
        beats: durs.iter().map(|d| Beat::new(*d)).collect(),
        measure_i: Vec::new(),
    };
    t.update_measures();
    assert_eq!(t.measure_i, vec![true, false, true]);
}

#[test]
fn new_song_has_one_track() {
    let s = Song::new();
    assert_eq!(s.tracks.len(), 1);
    assert_eq!(s.tracks[0].beats.len(), 1);
}
