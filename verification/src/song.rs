//! The document model: a `Note` on one string, a `Beat` (a duration plus
//! at most one note per string), a `Track` (a never-empty sequence of
//! beats with a derived measure-start index), and a `Song` (a never-empty
//! sequence of tracks). The measure index is recomputed from the beat
//! durations by accumulating against a one-whole-note measure length.

use crate::dur::{
    all_digits, digits_val, fadd, fits16, frac_eq, frac_lt, fred, fsub, lemma_fred_canon,
    lemma_fred_reduced, lemma_gcd_one, reduced, Duration,
};
use crate::error::Error;
use crate::gcd::gcd;
use vstd::pervasive::VecAdditionalExecFns;
use vstd::prelude::*;

verus! {

/// A value on one instrument string: a fret number, or a muted stroke.
#[derive(Debug, Clone, Copy, PartialEq, Eq, Structural)]
pub enum Note {
    Fret(u16),
    X,
}

/// The note denoted by a piece of text: `x` is muted, a run of digits is
/// a fret number, anything else is no note.
pub open spec fn note_parse_spec(s: Seq<char>) -> Option<Note> {
    if s.len() == 1 && s[0] == 'x' {
        Some(Note::X)
    } else if s.len() >= 1 && all_digits(s) && digits_val(s) <= 0xffff {
        Some(Note::Fret(digits_val(s) as u16))
    } else {
        None
    }
}

impl Note {
    /// Parse a note: `x` for muted, a run of digits for a fret number.
    pub fn parse(s: &str) -> (r: Result<Self, Error>)
        ensures
            match r {
                Ok(n) => note_parse_spec(s@) == Some(n),
                Err(e) => note_parse_spec(s@) is None && e is InvalidOp,
            },
    {
        let n = s.unicode_len();
        if n == 1 {
            let c = s.get_char(0);
            if c as u32 == 120 {
                return Ok(Note::X);
            }
        }
        if n == 0 {
            return Err(Error::InvalidOp("cannot parse note".to_owned()));
        }
        match crate::dur::parse_digits(s, 0, n) {
            Some(v) => {
                proof {
                    assert(s@.subrange(0, n as int) =~= s@);
                }
                Ok(Note::Fret(v))
            },
            None => {
                proof {
                    assert(s@.subrange(0, n as int) =~= s@);
                }
                Err(Error::InvalidOp("cannot parse note".to_owned()))
            },
        }
    }
}

/// The mathematical value of a `Beat`.
#[verifier::ext_equal]
pub struct BeatV {
    pub dur: Duration,
    pub notes: Seq<(u16, Note)>,
}

/// Each string index appears at most once in a note list.
pub open spec fn notes_unique(notes: Seq<(u16, Note)>) -> bool {
    forall|i: int, j: int|
        0 <= i < j < notes.len() ==> (#[trigger] notes[i]).0 != (#[trigger] notes[j]).0
}

/// The index of the entry for `string` in a note list, or `-1`.
pub open spec fn note_idx(notes: Seq<(u16, Note)>, string: u16) -> int
    decreases notes.len(),
{
    if notes.len() == 0 {
        -1
    } else if notes[0].0 == string {
        0
    } else {
        let r = note_idx(notes.drop_first(), string);
        if r == -1 {
            -1
        } else {
            r + 1
        }
    }
}

/// The note recorded for `string`, if any.
pub open spec fn find_note_spec(notes: Seq<(u16, Note)>, string: u16) -> Option<Note> {
    let i = note_idx(notes, string);
    if i >= 0 {
        Some(notes[i].1)
    } else {
        None
    }
}

/// A note list after setting `string` to `note`: overwrite in place when
/// the string is present, append otherwise.
pub open spec fn set_note_spec(notes: Seq<(u16, Note)>, string: u16, note: Note) -> Seq<
    (u16, Note),
> {
    let i = note_idx(notes, string);
    if i >= 0 {
        notes.update(i, (string, note))
    } else {
        notes.push((string, note))
    }
}

/// A note list after removing the entry for `string`, if present; the
/// last entry takes the removed entry's place (swap removal).
pub open spec fn del_note_spec(notes: Seq<(u16, Note)>, string: u16) -> Seq<(u16, Note)> {
    let i = note_idx(notes, string);
    if i >= 0 {
        notes.update(i, notes.last()).drop_last()
    } else {
        notes
    }
}

/// `note_idx` finds the first entry for `string`: entries before it name
/// other strings, and it is in range and names `string` when not `-1`.
pub proof fn lemma_note_idx_charac(notes: Seq<(u16, Note)>, string: u16)
    ensures
        note_idx(notes, string) == -1 ==> forall|k: int|
            0 <= k < notes.len() ==> (#[trigger] notes[k]).0 != string,
        note_idx(notes, string) != -1 ==> 0 <= note_idx(notes, string) < notes.len() && notes[
            note_idx(notes, string)
        ].0 == string && forall|k: int|
            0 <= k < note_idx(notes, string) ==> (#[trigger] notes[k]).0 != string,
    decreases notes.len(),
{
    if notes.len() > 0 && notes[0].0 != string {
        let t = notes.drop_first();
        lemma_note_idx_charac(t, string);
        if note_idx(t, string) == -1 {
            assert forall|k: int| 0 <= k < notes.len() implies (#[trigger] notes[k]).0
                != string by {
                if k >= 1 {
                    assert(notes[k] == t[k - 1]);
                }
            }
        } else {
            assert(notes[note_idx(notes, string)] == t[note_idx(t, string)]);
            assert forall|k: int| 0 <= k < note_idx(notes, string) implies (#[trigger] notes[k]).0
                != string by {
                if k >= 1 {
                    assert(notes[k] == t[k - 1]);
                }
            }
        }
    }
}

/// Setting a note keeps string indices unique.
pub proof fn lemma_set_note_unique(notes: Seq<(u16, Note)>, string: u16, note: Note)
    requires
        notes_unique(notes),
    ensures
        notes_unique(set_note_spec(notes, string, note)),
{
    lemma_note_idx_charac(notes, string);
    let i = note_idx(notes, string);
    if i >= 0 {
        let r = notes.update(i, (string, note));
        assert forall|a: int, b: int| 0 <= a < b < r.len() implies (#[trigger] r[a]).0 != (
        #[trigger] r[b]).0 by {
            assert(notes[i].0 == string);
        }
    } else {
        let r = notes.push((string, note));
        assert forall|a: int, b: int| 0 <= a < b < r.len() implies (#[trigger] r[a]).0 != (
        #[trigger] r[b]).0 by {
            if b < notes.len() {
                assert(r[a] == notes[a] && r[b] == notes[b]);
            } else {
                assert(r[a] == notes[a] && r[b].0 == string);
            }
        }
    }
}

/// Removing a note keeps string indices unique.
pub proof fn lemma_del_note_unique(notes: Seq<(u16, Note)>, string: u16)
    requires
        notes_unique(notes),
    ensures
        notes_unique(del_note_spec(notes, string)),
{
    lemma_note_idx_charac(notes, string);
    let i = note_idx(notes, string);
    if i >= 0 {
        let r = notes.update(i, notes.last()).drop_last();
        assert forall|a: int, b: int| 0 <= a < b < r.len() implies (#[trigger] r[a]).0 != (
        #[trigger] r[b]).0 by {
            assert(r[a] == if a == i {
                notes.last()
            } else {
                notes[a]
            });
            assert(r[b] == if b == i {
                notes.last()
            } else {
                notes[b]
            });
        }
    }
}

/// A note list after setting or clearing the note on `string`.
pub open spec fn apply_note_spec(ns: Seq<(u16, Note)>, string: u16, v: Option<Note>) -> Seq<
    (u16, Note),
> {
    match v {
        Some(n) => set_note_spec(ns, string, n),
        None => del_note_spec(ns, string),
    }
}

/// Setting or clearing a note, then undoing it from the recorded old
/// note, then redoing it, leaves the note list exactly as after the
/// first edit.
pub proof fn lemma_note_law(ns: Seq<(u16, Note)>, string: u16, was: Option<Note>, now: Option<
    Note,
>)
    requires
        notes_unique(ns),
        was == find_note_spec(ns, string),
    ensures
        apply_note_spec(
            apply_note_spec(apply_note_spec(ns, string, now), string, was),
            string,
            now,
        ) == apply_note_spec(ns, string, now),
{
    lemma_note_idx_charac(ns, string);
    let i = note_idx(ns, string);
    let ns1 = apply_note_spec(ns, string, now);
    match now {
        Some(n) => {
            if i >= 0 {
                // overwrite in place; undo overwrites back, giving `ns`
                assert(ns1 == ns.update(i, (string, n)));
                lemma_note_idx_charac(ns1, string);
                let i1 = note_idx(ns1, string);
                assert(ns1[i].0 == string);
                if i1 != i {
                    if i1 == -1 {
                        assert(ns1[i].0 != string);
                    } else if i1 < i {
                        assert(ns1[i1] == ns[i1]);
                        assert(ns[i1].0 != string);
                    } else {
                        assert(ns1[i].0 != string);
                    }
                }
                assert(i1 == i);
                let ns2 = apply_note_spec(ns1, string, was);
                assert(ns2 == ns1.update(i, (string, ns[i].1)));
                assert(ns2 =~= ns);
                assert(apply_note_spec(ns2, string, now) == ns1);
            } else {
                // append; undo removes the appended last entry
                assert(ns1 == ns.push((string, n)));
                lemma_note_idx_charac(ns1, string);
                let i1 = note_idx(ns1, string);
                assert(ns1[ns.len() as int].0 == string);
                if i1 != ns.len() {
                    if i1 == -1 {
                        assert(ns1[ns.len() as int].0 != string);
                    } else if i1 < ns.len() {
                        assert(ns1[i1] == ns[i1]);
                        assert(ns[i1].0 != string);
                    } else {
                        assert(ns1[ns.len() as int].0 != string);
                    }
                }
                assert(i1 == ns.len());
                let ns2 = apply_note_spec(ns1, string, was);
                assert(ns2 == ns1.update(ns.len() as int, ns1.last()).drop_last());
                assert(ns1.update(ns.len() as int, ns1.last()) =~= ns1);
                assert(ns2 =~= ns);
                assert(apply_note_spec(ns2, string, now) == ns1);
            }
        },
        None => {
            if i >= 0 {
                // swap-removed; undo appends the old note, redo
                // swap-removes it again
                let o = ns[i].1;
                assert(was == Some(o));
                assert(ns1 == ns.update(i, ns.last()).drop_last());
                lemma_note_idx_charac(ns1, string);
                let i1 = note_idx(ns1, string);
                if i1 >= 0 {
                    assert(ns1[i1].0 == string);
                    if i1 == i {
                        assert(ns1[i1] == ns.last());
                        assert(ns.last() == ns[ns.len() - 1]);
                        if i < ns.len() - 1 {
                            assert(ns[ns.len() - 1].0 != string);
                        } else {
                            assert(ns1[i1] == ns.update(i, ns.last())[i1]);
                        }
                    } else {
                        assert(ns1[i1] == ns[i1]);
                        assert(ns[i1].0 != string);
                    }
                }
                assert(i1 == -1);
                let ns2 = apply_note_spec(ns1, string, was);
                assert(ns2 == ns1.push((string, o)));
                lemma_note_idx_charac(ns2, string);
                let i2 = note_idx(ns2, string);
                assert(ns2[ns1.len() as int].0 == string);
                if i2 != ns1.len() {
                    if i2 == -1 {
                        assert(ns2[ns1.len() as int].0 != string);
                    } else if i2 < ns1.len() {
                        assert(ns2[i2] == ns1[i2]);
                        assert(ns1[i2].0 != string);
                    } else {
                        assert(ns2[ns1.len() as int].0 != string);
                    }
                }
                assert(i2 == ns1.len());
                let ns3 = apply_note_spec(ns2, string, now);
                assert(ns3 == ns2.update(ns1.len() as int, ns2.last()).drop_last());
                assert(ns2.update(ns1.len() as int, ns2.last()) =~= ns2);
                assert(ns3 =~= ns1);
            } else {
                // nothing to clear; every step is the identity
                assert(ns1 == ns);
                assert(was is None);
                assert(apply_note_spec(ns, string, None) == ns);
            }
        },
    }
}

/// One rhythmic slot: a duration, and at most one note per string.
#[derive(Debug)]
pub struct Beat {
    pub dur: Duration,
    pub notes: Vec<(u16, Note)>,
}

impl View for Beat {
    type V = BeatV;

    open spec fn view(&self) -> BeatV {
        BeatV { dur: self.dur, notes: self.notes@ }
    }
}

/// The beat's duration is reduced and its strings are unique.
pub open spec fn beat_wf(b: BeatV) -> bool {
    b.dur.wf() && notes_unique(b.notes)
}

impl Clone for Beat {
    /// An exact copy of the beat.
    fn clone(&self) -> (res: Self)
        ensures
            res@ == self@,
    {
        let mut notes: Vec<(u16, Note)> = Vec::new();
        let mut i: usize = 0;
        while i < self.notes.len()
            invariant
                i <= self.notes.len(),
                notes@ == self.notes@.take(i as int),
            decreases self.notes.len() - i,
        {
            notes.push(self.notes[i]);
            proof {
                assert(self.notes@.take(i + 1) =~= self.notes@.take(i as int).push(
                    self.notes@[i as int],
                ));
            }
            i = i + 1;
        }
        proof {
            assert(notes@ =~= self.notes@);
        }
        Beat { dur: self.dur, notes }
    }
}

impl Beat {
    /// A beat of the given duration with no notes.
    pub fn new(dur: Duration) -> (r: Self)
        ensures
            r@.dur == dur,
            r@.notes == Seq::<(u16, Note)>::empty(),
    {
        Beat { dur, notes: Vec::new() }
    }

    /// A beat with this beat's duration and no notes.
    pub fn copy_duration(&self) -> (r: Self)
        ensures
            r@.dur == self@.dur,
            r@.notes == Seq::<(u16, Note)>::empty(),
    {
        Self::new(self.dur)
    }

    /// The position of the entry for `string` in the note list.
    fn find_string(&self, string: u16) -> (r: Option<usize>)
        ensures
            match r {
                Some(i) => note_idx(self@.notes, string) == i && i < self@.notes.len(),
                None => note_idx(self@.notes, string) == -1,
            },
    {
        proof {
            lemma_note_idx_charac(self@.notes, string);
        }
        let mut i: usize = 0;
        while i < self.notes.len()
            invariant
                i <= self.notes.len(),
                forall|k: int| 0 <= k < i ==> (#[trigger] self@.notes[k]).0 != string,
            decreases self.notes.len() - i,
        {
            if self.notes[i].0 == string {
                proof {
                    lemma_note_idx_charac(self@.notes, string);
                    let idx = note_idx(self@.notes, string);
                    assert(self@.notes[i as int].0 == string);
                    if idx != i as int {
                        assert(idx != -1);
                        if idx < i as int {
                            assert(self@.notes[idx].0 != string);
                        } else {
                            assert(self@.notes[i as int].0 != string);
                        }
                    }
                }
                return Some(i);
            }
            i = i + 1;
        }
        proof {
            lemma_note_idx_charac(self@.notes, string);
        }
        None
    }

    /// The note on `string`, copied out, if one is set.
    pub fn copy_note(&self, string: u16) -> (r: Option<Note>)
        ensures
            r == find_note_spec(self@.notes, string),
    {
        match self.find_string(string) {
            Some(i) => Some(self.notes[i].1),
            None => None,
        }
    }

    /// The note on `string`, by reference, if one is set.
    pub fn get_note(&self, string: u16) -> (r: Option<&Note>)
        ensures
            match r {
                Some(n) => find_note_spec(self@.notes, string) == Some(*n),
                None => find_note_spec(self@.notes, string) is None,
            },
    {
        match self.find_string(string) {
            Some(i) => Some(&self.notes[i].1),
            None => None,
        }
    }

    /// Set the note on `string`: overwrite in place when present, append
    /// otherwise.
    pub fn set_note(&mut self, string: u16, note: Note)
        ensures
            final(self)@.dur == old(self)@.dur,
            final(self)@.notes == set_note_spec(old(self)@.notes, string, note),
    {
        match self.find_string(string) {
            Some(i) => {
                self.notes.set(i, (string, note));
            },
            None => {
                self.notes.push((string, note));
            },
        }
    }

    /// Remove the note on `string` if present; the last entry takes its
    /// place.
    pub fn del_note(&mut self, string: u16)
        ensures
            final(self)@.dur == old(self)@.dur,
            final(self)@.notes == del_note_spec(old(self)@.notes, string),
    {
        match self.find_string(string) {
            Some(i) => {
                self.notes.swap_remove(i);
            },
            None => {},
        }
    }
}

/// An exact copy of a run of beats.
pub fn clone_beats(v: &Vec<Beat>) -> (r: Vec<Beat>)
    ensures
        beats_view(r@) == beats_view(v@),
        r@.len() == v@.len(),
{
    let mut r: Vec<Beat> = Vec::new();
    let n: usize = v.len();
    let mut i: usize = 0;
    while i < n
        invariant
            n == v@.len(),
            i <= v@.len(),
            r@.len() == i,
            forall|k: int| 0 <= k < i ==> #[trigger] r@[k]@ == v@[k]@,
        decreases v.len() - i,
    {
        let b = v[i].clone();
        r.push(b);
        i = i + 1;
    }
    proof {
        assert(beats_view(r@) =~~= beats_view(v@));
    }
    r
}

/// The mathematical value of a `Track`.
#[verifier::ext_equal]
pub struct TrackV {
    pub string_count: u16,
    pub beats: Seq<BeatV>,
    pub measures: Seq<bool>,
}

/// The mathematical values of a sequence of beats.
pub open spec fn beats_view(v: Seq<Beat>) -> Seq<BeatV> {
    Seq::new(v.len(), |i: int| v[i]@)
}

/// The mathematical values of a sequence of tracks.
pub open spec fn tracks_view(v: Seq<Track>) -> Seq<TrackV> {
    Seq::new(v.len(), |i: int| v[i]@)
}

/// The duration values of a beat sequence.
pub open spec fn durs_of(beats: Seq<BeatV>) -> Seq<(int, int)> {
    Seq::new(beats.len(), |i: int| beats[i].dur@)
}

/// One step of the measure scan: when the running total has reached a
/// whole measure it resets to zero (exactly) or sheds one measure
/// (overflow), and the beat's duration is then added.
pub open spec fn mstep_total(total: (int, int), dur: (int, int)) -> (int, int) {
    let t2 = if frac_eq(total, (1, 1)) {
        (0, 1)
    } else if frac_lt((1, 1), total) {
        fsub(total, (1, 1))
    } else {
        total
    };
    fadd(t2, dur)
}

/// The measure-start flags derived from a duration sequence: a beat
/// starts a measure exactly when the running total, seeded with one whole
/// measure, stands at exactly one measure when the beat is reached.
pub open spec fn measure_flags(durs: Seq<(int, int)>, total: (int, int)) -> Seq<bool>
    decreases durs.len(),
{
    if durs.len() == 0 {
        Seq::empty()
    } else {
        seq![frac_eq(total, (1, 1))] + measure_flags(durs.drop_first(), mstep_total(total, durs[0]))
    }
}

/// Every running total of the measure scan stays within `u16` range.
pub open spec fn scan_ok(durs: Seq<(int, int)>, total: (int, int)) -> bool
    decreases durs.len(),
{
    if durs.len() == 0 {
        true
    } else {
        fits16(mstep_total(total, durs[0])) && scan_ok(
            durs.drop_first(),
            mstep_total(total, durs[0]),
        )
    }
}

/// The measure flags of a beat sequence.
pub open spec fn track_measures(beats: Seq<BeatV>) -> Seq<bool> {
    measure_flags(durs_of(beats), (1, 1))
}

/// The measure scan of a beat sequence stays within `u16` range.
pub open spec fn track_scan_ok(beats: Seq<BeatV>) -> bool {
    scan_ok(durs_of(beats), (1, 1))
}

/// The track has at least one beat and one string, every beat is
/// well-formed, and the measure index is freshly derived from the beats.
pub open spec fn track_wf(t: TrackV) -> bool {
    &&& t.beats.len() >= 1
    &&& t.string_count >= 1
    &&& forall|i: int| 0 <= i < t.beats.len() ==> beat_wf(#[trigger] t.beats[i])
    &&& t.measures == track_measures(t.beats)
}

/// One instrument's line: a fixed string count, a never-empty growable
/// beat sequence, and the derived measure-start index.
#[derive(Debug)]
pub struct Track {
    pub string_count: u16,
    pub beats: Vec<Beat>,
    pub measure_i: Vec<bool>,
}

impl View for Track {
    type V = TrackV;

    open spec fn view(&self) -> TrackV {
        TrackV {
            string_count: self.string_count,
            beats: beats_view(self.beats@),
            measures: self.measure_i@,
        }
    }
}

impl Track {
    /// The track is well-formed.
    pub open spec fn wf(&self) -> bool {
        track_wf(self@)
    }

    /// A six-string track holding one whole-note beat, its measure index
    /// derived.
    pub fn new() -> (r: Self)
        ensures
            r@.string_count == 6,
            r@.beats.len() == 1,
            r@.beats[0].dur@ == (1int, 1int),
            r@.beats[0].notes == Seq::<(u16, Note)>::empty(),
            r.wf(),
    {
        let mut beats: Vec<Beat> = Vec::new();
        beats.push(Beat::new(Duration::new(1, 1)));
        let mut t = Track { string_count: 6, beats, measure_i: Vec::new() };
        proof {
            lemma_gcd_one(1);
            lemma_fred_canon((1, 1), 1, 1);
            assert(t@.beats =~= seq![t@.beats[0]]);
            assert(beat_wf(t@.beats[0]));
            lemma_scan_ok_single(t@.beats[0].dur@);
            assert(durs_of(t@.beats) =~= seq![t@.beats[0].dur@]);
        }
        t.update_measures();
        t
    }

    /// Recompute the measure-start index from the beat durations by one
    /// forward scan. Only the derived index changes.
    pub fn update_measures(&mut self)
        requires
            forall|i: int|
                0 <= i < old(self)@.beats.len() ==> (#[trigger] old(self)@.beats[i]).dur.wf(),
            track_scan_ok(old(self)@.beats),
        ensures
            final(self)@.beats == old(self)@.beats,
            final(self)@.string_count == old(self)@.string_count,
            final(self)@.measures == track_measures(old(self)@.beats),
    {
        let ghost durs = durs_of(self@.beats);
        let mut flags: Vec<bool> = Vec::new();
        let mut total = Duration(1, 1);
        proof {
            lemma_gcd_one(1);
            assert(durs.skip(0) =~= durs);
        }
        let n = self.beats.len();
        let mut i: usize = 0;
        while i < n
            invariant
                i <= n,
                n == self.beats.len(),
                *self == *old(self),
                durs == durs_of(self@.beats),
                forall|k: int| 0 <= k < n ==> (#[trigger] self@.beats[k]).dur.wf(),
                total.wf(),
                flags@.len() == i,
                measure_flags(durs, (1, 1)) == flags@ + measure_flags(durs.skip(i as int), total@),
                scan_ok(durs.skip(i as int), total@),
            decreases n - i,
        {
            let ghost total0 = total@;
            let ghost rest = durs.skip(i as int);
            proof {
                assert(rest.len() == n - i);
                assert(rest[0] == durs[i as int]);
                assert(durs[i as int] == self@.beats[i as int].dur@);
                assert(rest.drop_first() =~= durs.skip(i as int + 1));
            }
            let dur = self.beats[i].dur;
            if total.0 == total.1 {
                flags.push(true);
                total = Duration(0, 1);
                proof {
                    assert(gcd(0, 1) == gcd(1, 0 as nat % 1));
                    assert(0 as nat % 1 == 0) by (nonlinear_arith);
                    assert(gcd(1, 0) == 1);
                }
            } else {
                flags.push(false);
                if total.1 < total.0 {
                    let num = total.0 - total.1;
                    proof {
                        lemma_fred_reduced(num as int, total.1 as int);
                    }
                    total = match reduce16(num, total.1) {
                        Some(x) => x,
                        None => vstd::pervasive::unreached(),
                    };
                    proof {
                        assert(total@ == fsub(total0, (1, 1)));
                    }
                }
            }
            let ghost t2 = total@;
            proof {
                assert(mstep_total(total0, rest[0]) == fadd(t2, rest[0]));
                assert(fits16(fadd(t2, rest[0])));
            }
            let nn = crate::dur::mul16(total.0, dur.1) + crate::dur::mul16(dur.0, total.1);
            let dd = crate::dur::mul16(total.1, dur.1);
            proof {
                assert(dd >= 1) by (nonlinear_arith)
                    requires
                        total.1 >= 1 && dur.1 >= 1 && dd == total.1 as int * dur.1 as int,
                ;
            }
            total = match crate::dur::reduce64(nn, dd) {
                Some(x) => x,
                None => vstd::pervasive::unreached(),
            };
            i = i + 1;
            proof {
                assert(measure_flags(rest, total0) == seq![frac_eq(total0, (1, 1))]
                    + measure_flags(durs.skip(i as int), total@));
                assert(flags@ + measure_flags(durs.skip(i as int), total@) =~= measure_flags(
                    durs,
                    (1, 1),
                ));
            }
        }
        proof {
            assert(durs.skip(n as int) =~= Seq::<(int, int)>::empty());
            assert(flags@ =~= measure_flags(durs, (1, 1)));
        }
        self.measure_i = flags;
    }
}

/// A one-beat scan stays in range when the single duration is reduced.
pub proof fn lemma_scan_ok_single(d: (int, int))
    requires
        reduced(d),
        fits16(d),
    ensures
        scan_ok(seq![d], (1, 1)),
{
    let s = seq![d];
    assert(s[0] == d);
    let t = mstep_total((1, 1), d);
    assert(frac_eq((1, 1), (1, 1)));
    assert(t == fadd((0, 1), d));
    assert(fadd((0, 1), d) == fred(0 * d.1 + d.0 * 1, 1 * d.1));
    assert(0 * d.1 + d.0 * 1 == d.0 && 1 * d.1 == d.1) by (nonlinear_arith);
    lemma_fred_canon(d, d.0, d.1);
    assert(fits16(t));
    assert(s.drop_first() =~= Seq::<(int, int)>::empty());
    assert(scan_ok(s.drop_first(), mstep_total((1, 1), s[0])));
    assert(fits16(mstep_total((1, 1), s[0])));
}

/// Reduce a `u16` fraction; always fits.
fn reduce16(n: u16, d: u16) -> (r: Option<Duration>)
    requires
        d >= 1,
    ensures
        match r {
            Some(dur) => dur@ == fred(n as int, d as int) && dur.wf(),
            None => !fits16(fred(n as int, d as int)),
        },
{
    crate::dur::reduce64(n as u64, d as u64)
}

/// The mathematical value of a `Song`.
#[verifier::ext_equal]
pub struct SongV {
    pub tracks: Seq<TrackV>,
}

/// The song has at least one track and every track is well-formed.
pub open spec fn song_wf(s: SongV) -> bool {
    s.tracks.len() >= 1 && forall|i: int| 0 <= i < s.tracks.len() ==> track_wf(
        #[trigger] s.tracks[i],
    )
}

/// The root document: a never-empty sequence of tracks.
#[derive(Debug)]
pub struct Song {
    pub tracks: Vec<Track>,
}

impl View for Song {
    type V = SongV;

    open spec fn view(&self) -> SongV {
        SongV { tracks: tracks_view(self.tracks@) }
    }
}

impl Song {
    /// The song is well-formed.
    pub open spec fn wf(&self) -> bool {
        song_wf(self@)
    }

    /// A song holding one fresh track.
    pub fn new() -> (r: Self)
        ensures
            r@.tracks.len() == 1,
            r@.tracks[0].beats.len() == 1,
            r@.tracks[0].string_count == 6,
            r.wf(),
    {
        let mut tracks: Vec<Track> = Vec::new();
        tracks.push(Track::new());
        let s = Song { tracks };
        proof {
            assert(s@.tracks =~= seq![s@.tracks[0]]);
        }
        s
    }
}

} // verus!
