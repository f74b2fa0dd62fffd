//! What the decoder reads of a standard MIDI file: its tracks, and of each
//! event only whether it presses or releases a key.

use vstd::prelude::*;

verus! {

/// One event of a track, reduced to what the decoder looks at.
#[derive(Clone, Copy, Debug, PartialEq, Eq, Structural)]
pub enum NoteEvent {
    /// A key is pressed.
    NoteOn { key: u8 },
    /// A key is released.
    NoteOff { key: u8 },
    /// Anything else: a controller, a meta message, a system message.
    Other,
}

/// A track: its events in order.
pub type Track = Vec<NoteEvent>;

/// The tracks of a file as a mathematical value.
pub open spec fn tracks_view(tracks: Seq<Track>) -> Seq<Seq<NoteEvent>> {
    Seq::new(tracks.len(), |i: int| tracks[i]@)
}

/// Whether the four bytes from `at` on spell a chunk name.
pub open spec fn tag_at(raw: Seq<u8>, at: int, name: (u8, u8, u8, u8)) -> bool {
    &&& raw[at] == name.0
    &&& raw[at + 1] == name.1
    &&& raw[at + 2] == name.2
    &&& raw[at + 3] == name.3
}

/// `RIFF`, the name of the outer chunk of a wrapped file.
pub open spec fn riff_tag() -> (u8, u8, u8, u8) {
    (0x52, 0x49, 0x46, 0x46)
}

/// `RMID`, the form type of a wrapped file.
pub open spec fn rmid_tag() -> (u8, u8, u8, u8) {
    (0x52, 0x4D, 0x49, 0x44)
}

/// `data`, the name of the chunk that holds the file inside a wrapper.
pub open spec fn data_tag() -> (u8, u8, u8, u8) {
    (0x64, 0x61, 0x74, 0x61)
}

/// `MThd`, the name of the header chunk.
pub open spec fn header_tag() -> (u8, u8, u8, u8) {
    (0x4D, 0x54, 0x68, 0x64)
}

/// `MTrk`, the name of a track chunk.
pub open spec fn track_tag() -> (u8, u8, u8, u8) {
    (0x4D, 0x54, 0x72, 0x6B)
}

/// The four bytes from `at` on as a number, the highest byte first.
pub open spec fn be_u32(raw: Seq<u8>, at: int) -> int {
    raw[at] * 0x100_0000 + raw[at + 1] * 0x1_0000 + raw[at + 2] * 0x100 + raw[at + 3]
}

/// The four bytes from `at` on as a number, the lowest byte first.
pub open spec fn le_u32(raw: Seq<u8>, at: int) -> int {
    raw[at + 3] * 0x100_0000 + raw[at + 2] * 0x1_0000 + raw[at + 1] * 0x100 + raw[at]
}

/// Where the data of a chunk ends that begins at `start` and is said to
/// be `len` bytes long: a chunk that runs past `end` is cut off there.
pub open spec fn chunk_end(start: int, len: int, end: int) -> int {
    if start + len <= end {
        start + len
    } else {
        end
    }
}

/// A range of bytes of a file: from `start` up to, not including, `end`.
pub struct ByteRange {
    pub start: int,
    pub end: int,
}

/// The data of the first `data` chunk among the chunks of a wrapper that
/// lie from `at` up to `end`. A chunk of odd length is followed by one
/// byte of padding.
pub open spec fn wrapped_data(raw: Seq<u8>, at: int, end: int) -> Option<ByteRange>
    decreases end - at,
{
    if at < 0 || end - at < 8 {
        None
    } else {
        let len = le_u32(raw, at + 4);
        let stop = chunk_end(at + 8, len, end);
        if tag_at(raw, at, data_tag()) {
            Some(ByteRange { start: at + 8, end: stop })
        } else if len % 2 == 1 && stop < end {
            wrapped_data(raw, stop + 1, end)
        } else {
            wrapped_data(raw, stop, end)
        }
    }
}

/// The bytes in which the reader looks for the chunks of a file: all of
/// them where they begin with a header chunk, the `data` chunk of the
/// wrapper where they are wrapped, and none otherwise.
pub open spec fn chunk_region(raw: Seq<u8>) -> Option<ByteRange> {
    if raw.len() < 4 {
        None
    } else if tag_at(raw, 0, header_tag()) {
        Some(ByteRange { start: 0, end: raw.len() as int })
    } else if tag_at(raw, 0, riff_tag()) {
        if raw.len() < 8 {
            None
        } else {
            let end = chunk_end(8, le_u32(raw, 4), raw.len() as int);
            if end - 8 < 4 || !tag_at(raw, 8, rmid_tag()) {
                None
            } else {
                wrapped_data(raw, 12, end)
            }
        }
    } else {
        None
    }
}

/// The data of the header chunk, where it is the first chunk from `at` up
/// to `end` that is a header or a track. Chunks of other names are passed
/// over.
pub open spec fn header_data(raw: Seq<u8>, at: int, end: int) -> Option<ByteRange>
    decreases end - at,
{
    if at < 0 || end - at < 8 {
        None
    } else {
        let stop = chunk_end(at + 8, be_u32(raw, at + 4), end);
        if tag_at(raw, at, header_tag()) {
            Some(ByteRange { start: at + 8, end: stop })
        } else if tag_at(raw, at, track_tag()) {
            None
        } else {
            header_data(raw, stop, end)
        }
    }
}

/// What the reader makes of a header chunk.
#[derive(Clone, Copy, Debug, PartialEq, Eq, Structural)]
pub enum HeaderVerdict {
    /// The reader takes the header and reads on behind it.
    Accepted,
    /// The reader rejects the header, and with it all that follows.
    Rejected,
    /// The reader comes to negate the byte `0x80` as a signed byte.
    Overflow,
}

/// What the reader makes of the header whose data lie from `start` up to
/// `end`. It reads six bytes: the format, which is 0, 1 or 2, the number
/// of tracks, and the timing. A timing field whose top bit is clear counts
/// ticks per beat. One whose top bit is set counts frames per second: the
/// reader negates its high byte as a signed byte and takes 24, 25, 29 and
/// 30 frames. For the byte `0x80` the negation overflows: the reader
/// stops the program where overflow is checked.
pub open spec fn header_verdict(raw: Seq<u8>, start: int, end: int) -> HeaderVerdict {
    if end - start < 6 || raw[start] != 0 || raw[start + 1] > 2 {
        HeaderVerdict::Rejected
    } else {
        let high = raw[start + 4];
        if high == 0x80 {
            HeaderVerdict::Overflow
        } else if high < 0x80 || high == 0xE8 || high == 0xE7 || high == 0xE3 || high == 0xE2 {
            HeaderVerdict::Accepted
        } else {
            HeaderVerdict::Rejected
        }
    }
}

/// Whether the reader overflows on a header chunk among the chunks from
/// `at` up to `end`. The reader walks through all of them, tracks and
/// chunks of other names included; it reads every header chunk that it
/// comes by, and it stops at the first that it rejects.
pub open spec fn later_header_overflows(raw: Seq<u8>, at: int, end: int) -> bool
    decreases end - at,
{
    if at < 0 || end - at < 8 {
        false
    } else {
        let stop = chunk_end(at + 8, be_u32(raw, at + 4), end);
        if tag_at(raw, at, header_tag()) {
            match header_verdict(raw, at + 8, stop) {
                HeaderVerdict::Overflow => true,
                HeaderVerdict::Rejected => false,
                HeaderVerdict::Accepted => later_header_overflows(raw, stop, end),
            }
        } else {
            later_header_overflows(raw, stop, end)
        }
    }
}

/// Whether the reader cannot take the bytes: on its way through the
/// chunks of the file it comes to a header chunk on which it overflows,
/// be it the first header or one that follows it.
pub open spec fn timing_overflows(raw: Seq<u8>) -> bool {
    match chunk_region(raw) {
        Some(region) => match header_data(raw, region.start, region.end) {
            Some(header) => match header_verdict(raw, header.start, header.end) {
                HeaderVerdict::Overflow => true,
                HeaderVerdict::Rejected => false,
                HeaderVerdict::Accepted => later_header_overflows(raw, header.end, region.end),
            },
            None => false,
        },
        None => false,
    }
}

/// `midly::Error`, the reason why `midly` rejects the bytes of a file.
/// Nothing of what it holds is read here.
#[verifier::external_type_specification]
#[verifier::external_body]
pub struct ExSmfError(midly::Error);

/// The tracks that `midly` reads out of the bytes of a file, or `None`
/// where it rejects the bytes.
pub uninterp spec fn smf_tracks(raw: Seq<u8>) -> Option<Seq<Seq<NoteEvent>>>;

/// The tracks of a file: those that the reader reads out of its bytes,
/// and none where the reader rejects the bytes or cannot take them.
pub open spec fn file_tracks(raw: Seq<u8>) -> Option<Seq<Seq<NoteEvent>>> {
    if timing_overflows(raw) {
        None
    } else {
        smf_tracks(raw)
    }
}

/// Calls `midly::Smf::parse` and reduces every event of every track to a
/// `NoteEvent`: a note-on or note-off message keeps its key, any other
/// event becomes `Other`. The contract only gives the outcome its name,
/// `smf_tracks`; nothing is claimed of which bytes are accepted. Bytes on
/// which the reader overflows while it reads the timing of a header
/// chunk, the first or a later one, are left out.
#[verifier::external_body]
pub(crate) fn read_tracks(raw: &[u8]) -> (result: Result<Vec<Track>, midly::Error>)
    requires
        !timing_overflows(raw@),
    ensures
        result matches Ok(tracks) ==> smf_tracks(raw@) == Some(tracks_view(tracks@)),
        result is Err ==> smf_tracks(raw@) is None,
{
    let smf = midly::Smf::parse(raw)?;
    Ok(smf.tracks.iter().map(|track| track.iter().map(|event| match event.kind {
        midly::TrackEventKind::Midi { message: midly::MidiMessage::NoteOn { key, .. }, .. } =>
            NoteEvent::NoteOn { key: key.as_int() },
        midly::TrackEventKind::Midi { message: midly::MidiMessage::NoteOff { key, .. }, .. } =>
            NoteEvent::NoteOff { key: key.as_int() },
        _ => NoteEvent::Other,
    }).collect()).collect())
}

/// Formats a `midly::Error` with its `Display` impl. Nothing is claimed of
/// the text.
#[verifier::external_body]
pub(crate) fn reader_message(error: &midly::Error) -> (text: String) {
    format!("{}", error)
}

/// Whether the four bytes from `at` on spell a chunk name.
fn has_tag(raw: &[u8], at: usize, name: (u8, u8, u8, u8)) -> (found: bool)
    requires
        at + 4 <= raw@.len(),
    ensures
        found == tag_at(raw@, at as int, name),
{
    raw[at] == name.0 && raw[at + 1] == name.1 && raw[at + 2] == name.2 && raw[at + 3] == name.3
}

/// Where the data of a chunk ends whose name stands at `at`, with the
/// length read the highest byte first or the lowest byte first.
fn end_of_chunk(raw: &[u8], at: usize, end: usize, highest_first: bool) -> (stop: (usize, bool))
    requires
        at + 8 <= end <= raw@.len(),
    ensures
        stop.0 == chunk_end(
            at + 8,
            if highest_first {
                be_u32(raw@, at + 4)
            } else {
                le_u32(raw@, at + 4)
            },
            end as int,
        ),
        at + 8 <= stop.0 <= end,
        stop.1 == (le_u32(raw@, at + 4) % 2 == 1),
{
    let b0: u64 = raw[at + 4] as u64;
    let b1: u64 = raw[at + 5] as u64;
    let b2: u64 = raw[at + 6] as u64;
    let b3: u64 = raw[at + 7] as u64;
    let len: u64 = if highest_first {
        b0 * 0x100_0000 + b1 * 0x1_0000 + b2 * 0x100 + b3
    } else {
        b3 * 0x100_0000 + b2 * 0x1_0000 + b1 * 0x100 + b0
    };
    let room: usize = end - (at + 8);
    let stop: usize = if len <= room as u64 {
        at + 8 + len as usize
    } else {
        end
    };
    (stop, b0 % 2 == 1)
}

/// The range of bytes in which the reader looks for the chunks of a file.
fn find_region(raw: &[u8]) -> (region: Option<(usize, usize)>)
    ensures
        match region {
            Some((start, end)) => start <= end <= raw@.len() && chunk_region(raw@) == Some(
                ByteRange { start: start as int, end: end as int },
            ),
            None => chunk_region(raw@) is None,
        },
{
    let len = raw.len();
    if len < 4 {
        return None;
    }
    if has_tag(raw, 0, (0x4D, 0x54, 0x68, 0x64)) {
        return Some((0, len));
    }
    if !has_tag(raw, 0, (0x52, 0x49, 0x46, 0x46)) || len < 8 {
        return None;
    }
    let (end, _) = end_of_chunk(raw, 0, len, false);
    if end - 8 < 4 || !has_tag(raw, 8, (0x52, 0x4D, 0x49, 0x44)) {
        return None;
    }
    let mut at: usize = 12;
    while end - at >= 8
        invariant
            12 <= at <= end <= raw@.len(),
            chunk_region(raw@) == wrapped_data(raw@, 12, end as int),
            wrapped_data(raw@, at as int, end as int) == wrapped_data(raw@, 12, end as int),
        decreases end - at,
    {
        let (stop, odd) = end_of_chunk(raw, at, end, false);
        if has_tag(raw, at, (0x64, 0x61, 0x74, 0x61)) {
            return Some((at + 8, stop));
        }
        at = if odd && stop < end {
            stop + 1
        } else {
            stop
        };
    }
    None
}

/// The range of the data of the header chunk, where the reader finds one
/// from `start` up to `end`.
fn find_header(raw: &[u8], start: usize, end: usize) -> (header: Option<(usize, usize)>)
    requires
        start <= end <= raw@.len(),
    ensures
        match header {
            Some((from, to)) => from <= to <= end && header_data(
                raw@,
                start as int,
                end as int,
            ) == Some(ByteRange { start: from as int, end: to as int }),
            None => header_data(raw@, start as int, end as int) is None,
        },
{
    let mut at: usize = start;
    while end - at >= 8
        invariant
            start <= at <= end <= raw@.len(),
            header_data(raw@, at as int, end as int) == header_data(
                raw@,
                start as int,
                end as int,
            ),
        decreases end - at,
    {
        let (stop, _) = end_of_chunk(raw, at, end, true);
        if has_tag(raw, at, (0x4D, 0x54, 0x68, 0x64)) {
            return Some((at + 8, stop));
        }
        if has_tag(raw, at, (0x4D, 0x54, 0x72, 0x6B)) {
            return None;
        }
        at = stop;
    }
    None
}

/// What the reader makes of the header whose data lie from `from` up to
/// `to`.
fn judge_header(raw: &[u8], from: usize, to: usize) -> (verdict: HeaderVerdict)
    requires
        from <= to <= raw@.len(),
    ensures
        verdict == header_verdict(raw@, from as int, to as int),
{
    if to - from < 6 || raw[from] != 0 || raw[from + 1] > 2 {
        return HeaderVerdict::Rejected;
    }
    let high = raw[from + 4];
    if high == 0x80 {
        HeaderVerdict::Overflow
    } else if high < 0x80 || high == 0xE8 || high == 0xE7 || high == 0xE3 || high == 0xE2 {
        HeaderVerdict::Accepted
    } else {
        HeaderVerdict::Rejected
    }
}

/// Whether the reader overflows on a header chunk among the chunks from
/// `start` up to `end`.
fn later_overflows(raw: &[u8], start: usize, end: usize) -> (overflows: bool)
    requires
        start <= end <= raw@.len(),
    ensures
        overflows == later_header_overflows(raw@, start as int, end as int),
{
    let mut at: usize = start;
    while end - at >= 8
        invariant
            start <= at <= end <= raw@.len(),
            later_header_overflows(raw@, at as int, end as int) == later_header_overflows(
                raw@,
                start as int,
                end as int,
            ),
        decreases end - at,
    {
        let (stop, _) = end_of_chunk(raw, at, end, true);
        if has_tag(raw, at, (0x4D, 0x54, 0x68, 0x64)) {
            match judge_header(raw, at + 8, stop) {
                HeaderVerdict::Overflow => {
                    return true;
                },
                HeaderVerdict::Rejected => {
                    return false;
                },
                HeaderVerdict::Accepted => {},
            }
        }
        at = stop;
    }
    false
}

/// Whether the reader cannot take the bytes: it would come to a header
/// chunk whose timing field has the high byte `0x80`, and negate it.
pub fn reader_overflows(raw: &[u8]) -> (overflows: bool)
    ensures
        overflows == timing_overflows(raw@),
{
    match find_region(raw) {
        Some((start, end)) => match find_header(raw, start, end) {
            Some((from, to)) => match judge_header(raw, from, to) {
                HeaderVerdict::Overflow => true,
                HeaderVerdict::Rejected => false,
                HeaderVerdict::Accepted => later_overflows(raw, to, end),
            },
            None => false,
        },
        None => false,
    }
}

} // verus!
