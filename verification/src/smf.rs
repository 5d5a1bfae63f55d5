//! Reading a Standard MIDI File's events through the `midly` parser.
//!
//! What the parser yields is a pure function of the file's bytes, so
//! its outcome is given names below — whether the bytes parse, the
//! header timing, and each track's events — and every trusted accessor
//! answers directly from the bytes, re-running the parser per call so
//! that its contract speaks only of those names.  The verified
//! conversion assembles the plain [`SmfData`] model and is exact about
//! when it succeeds and what it returns.
use crate::error::Error;
use crate::midi::{SmfData, TrackEventData, TrackMessage};
use vstd::prelude::*;

verus! {

/// Declares midly's parsed-file type so a parse attempt's outcome can
/// be inspected; its value stays opaque.
#[verifier::external_type_specification]
#[verifier::external_body]
pub struct ExSmf<'a>(midly::Smf<'a>);

/// Whether midly's `Smf::parse` accepts these bytes.
pub uninterp spec fn spec_smf_parses(bytes: Seq<u8>) -> bool;

/// The ticks-per-quarter of a file that parses with metrical timing;
/// nothing under SMPTE timing.
pub uninterp spec fn spec_smf_timing(bytes: Seq<u8>) -> Option<u16>;

/// How many tracks a file that parses holds.
pub uninterp spec fn spec_smf_track_count(bytes: Seq<u8>) -> int;

/// How many events track `t` of a file that parses holds; 0 out of
/// range.
pub uninterp spec fn spec_smf_track_len(bytes: Seq<u8>, t: int) -> int;

/// Event `i` of track `t` of a file that parses, reduced to the plain
/// event type; a placeholder out of range.
pub uninterp spec fn spec_smf_event(bytes: Seq<u8>, t: int, i: int) -> TrackEventData;

/// Relies on midly's `Smf::parse`: decodes a Standard MIDI File from
/// raw bytes, succeeding exactly when the named parse does.  The
/// parser checks every read and returns its errors; it does not abort.
#[verifier::external_body]
fn parse_smf_bytes(bytes: &[u8]) -> (r: Result<midly::Smf<'_>, Error>)
    ensures
        r is Ok <==> spec_smf_parses(bytes@),
        r matches Err(e) ==> e is Midly,
{
    midly::Smf::parse(bytes).map_err(|e| Error::Midly(format!("{}", e)))
}

/// Relies on midly's `Smf::parse` and the header timing: the named
/// ticks-per-quarter of a metrically timed file.
#[verifier::external_body]
fn smf_timing_of(bytes: &[u8]) -> (r: Option<u16>)
    ensures
        spec_smf_parses(bytes@) ==> r == spec_smf_timing(bytes@),
        !spec_smf_parses(bytes@) ==> r is None,
{
    match midly::Smf::parse(bytes).ok().map(|smf| smf.header.timing) {
        Some(midly::Timing::Metrical(t)) => Some(t.as_int()),
        _ => None,
    }
}

/// Relies on midly's `Smf::parse` and the track list: the named track
/// count.
#[verifier::external_body]
fn smf_track_count_of(bytes: &[u8]) -> (r: usize)
    ensures
        spec_smf_parses(bytes@) ==> r as int == spec_smf_track_count(bytes@),
{
    midly::Smf::parse(bytes).ok().map(|smf| smf.tracks.len()).unwrap_or(0)
}

/// Relies on midly's `Smf::parse` and the track list: the named event
/// count of one track.
#[verifier::external_body]
fn smf_track_len_of(bytes: &[u8], t: usize) -> (r: usize)
    ensures
        spec_smf_parses(bytes@) ==> r as int == spec_smf_track_len(bytes@, t as int),
{
    midly::Smf::parse(bytes).ok().and_then(|smf| smf.tracks.get(t).map(|tr| tr.len())).unwrap_or(
        0,
    )
}

/// Relies on midly's `Smf::parse` and the event list: the named
/// event's tick delta.
#[verifier::external_body]
fn smf_event_delta_of(bytes: &[u8], t: usize, i: usize) -> (r: u32)
    ensures
        spec_smf_parses(bytes@) ==> r == spec_smf_event(bytes@, t as int, i as int).delta_ticks,
{
    midly::Smf::parse(bytes).ok().and_then(
        |smf| smf.tracks.get(t).and_then(|tr| tr.get(i)).map(|e| e.delta.as_int()),
    ).unwrap_or(0)
}

/// Relies on midly's channel-voice events: the named event's channel,
/// key and velocity when it is a note message, with a flag telling
/// note-on from note-off; nothing for any other event.
#[verifier::external_body]
fn smf_event_note_of(bytes: &[u8], t: usize, i: usize) -> (r: Option<(u8, bool, u8, u8)>)
    ensures
        spec_smf_parses(bytes@) ==> r == (match spec_smf_event(
            bytes@,
            t as int,
            i as int,
        ).message {
            TrackMessage::NoteOn { channel, key, vel } => Some((channel, true, key, vel)),
            TrackMessage::NoteOff { channel, key, vel } => Some((channel, false, key, vel)),
            _ => None::<(u8, bool, u8, u8)>,
        }),
{
    let smf = match midly::Smf::parse(bytes) { Ok(s) => s, Err(_) => return None };
    match smf.tracks.get(t).and_then(|tr| tr.get(i)).map(|e| &e.kind) {
        Some(midly::TrackEventKind::Midi { channel, message: midly::MidiMessage::NoteOn { key, vel } }) =>
            Some((channel.as_int(), true, key.as_int(), vel.as_int())),
        Some(midly::TrackEventKind::Midi { channel, message: midly::MidiMessage::NoteOff { key, vel } }) =>
            Some((channel.as_int(), false, key.as_int(), vel.as_int())),
        _ => None,
    }
}

/// Relies on midly's meta events: the named event's tempo in
/// microseconds per quarter, or the end-of-track mark.
#[verifier::external_body]
fn smf_event_meta_of(bytes: &[u8], t: usize, i: usize) -> (r: Option<Option<u32>>)
    ensures
        spec_smf_parses(bytes@) ==> r == (match spec_smf_event(
            bytes@,
            t as int,
            i as int,
        ).message {
            TrackMessage::Tempo { us_per_quarter } => Some(Some(us_per_quarter)),
            TrackMessage::EndOfTrack => Some(None::<u32>),
            _ => None::<Option<u32>>,
        }),
{
    let smf = match midly::Smf::parse(bytes) { Ok(s) => s, Err(_) => return None };
    match smf.tracks.get(t).and_then(|tr| tr.get(i)).map(|e| &e.kind) {
        Some(midly::TrackEventKind::Meta(midly::MetaMessage::Tempo(v))) => Some(Some(v.as_int())),
        Some(midly::TrackEventKind::Meta(midly::MetaMessage::EndOfTrack)) => Some(None),
        _ => None,
    }
}

/// The plain message of one named event, assembled from the accessors.
fn smf_event_message(bytes: &[u8], t: usize, i: usize) -> (r: TrackMessage)
    requires
        spec_smf_parses(bytes@),
    ensures
        r == spec_smf_event(bytes@, t as int, i as int).message,
{
    match smf_event_note_of(bytes, t, i) {
        Some((channel, is_note_on, key, vel)) => {
            if is_note_on {
                TrackMessage::NoteOn { channel, key, vel }
            } else {
                TrackMessage::NoteOff { channel, key, vel }
            }
        },
        None => {
            match smf_event_meta_of(bytes, t, i) {
                Some(Some(us_per_quarter)) => TrackMessage::Tempo { us_per_quarter },
                Some(None) => TrackMessage::EndOfTrack,
                None => TrackMessage::Other,
            }
        },
    }
}

/// Parses a Standard MIDI File into the scheduler's plain model.
/// Succeeds exactly when the bytes parse with metrical timing at a
/// nonzero tick resolution; the model then holds the file's named
/// tracks event for event.
pub fn smf_from_bytes(bytes: &[u8]) -> (r: Result<SmfData, Error>)
    ensures
        r is Ok <==> (spec_smf_parses(bytes@) && (spec_smf_timing(bytes@) matches Some(t) && t
            >= 1)),
        !spec_smf_parses(bytes@) ==> (r matches Err(e) && e is Midly),
        (spec_smf_parses(bytes@) && !(spec_smf_timing(bytes@) matches Some(t) && t >= 1)) ==> (r
            matches Err(e) && e is UnsupportedTiming),
        r matches Ok(s) ==> {
            &&& Some(s.ticks_per_quarter) == spec_smf_timing(bytes@)
            &&& s.ticks_per_quarter >= 1
            &&& s.tracks@.len() == spec_smf_track_count(bytes@)
            &&& (forall|t: int|
                0 <= t < s.tracks@.len() ==> (#[trigger] s.tracks@[t])@.len()
                    == spec_smf_track_len(bytes@, t))
            &&& (forall|t: int, i: int|
                0 <= t < s.tracks@.len() && 0 <= i < s.tracks@[t]@.len() ==> (
                #[trigger] s.tracks@[t]@[i]) == spec_smf_event(bytes@, t, i))
        },
{
    let parsed = parse_smf_bytes(bytes);
    match parsed {
        Ok(_) => {},
        Err(e) => {
            return Err(e);
        },
    }
    let tpq: u16 = match smf_timing_of(bytes) {
        Some(t) => {
            if t == 0 {
                return Err(Error::UnsupportedTiming);
            } else {
                t
            }
        },
        None => {
            return Err(Error::UnsupportedTiming);
        },
    };
    let n_tracks = smf_track_count_of(bytes);
    let mut tracks: Vec<Vec<TrackEventData>> = Vec::new();
    let mut t: usize = 0;
    while t < n_tracks
        invariant
            spec_smf_parses(bytes@),
            n_tracks as int == spec_smf_track_count(bytes@),
            t <= n_tracks,
            tracks@.len() == t,
            forall|t2: int|
                0 <= t2 < t ==> (#[trigger] tracks@[t2])@.len() == spec_smf_track_len(
                    bytes@,
                    t2,
                ),
            forall|t2: int, i2: int|
                0 <= t2 < t && 0 <= i2 < tracks@[t2]@.len() ==> (#[trigger] tracks@[t2]@[i2])
                    == spec_smf_event(bytes@, t2, i2),
        decreases n_tracks - t,
    {
        let len = smf_track_len_of(bytes, t);
        let mut events: Vec<TrackEventData> = Vec::new();
        let mut i: usize = 0;
        while i < len
            invariant
                spec_smf_parses(bytes@),
                len as int == spec_smf_track_len(bytes@, t as int),
                i <= len,
                events@.len() == i,
                forall|i2: int|
                    0 <= i2 < i ==> (#[trigger] events@[i2]) == spec_smf_event(
                        bytes@,
                        t as int,
                        i2,
                    ),
            decreases len - i,
        {
            events.push(
                TrackEventData {
                    delta_ticks: smf_event_delta_of(bytes, t, i),
                    message: smf_event_message(bytes, t, i),
                },
            );
            i = i + 1;
        }
        tracks.push(events);
        t = t + 1;
    }
    Ok(SmfData { ticks_per_quarter: tpq, tracks })
}

} // verus!
