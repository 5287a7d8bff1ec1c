//! Reading a standard MIDI file: `midi_msg` parses the bytes, and the parsed
//! file is taken apart into the library's types.
use vstd::prelude::*;

use midi_msg::{ChannelVoiceMsg, Meta, MidiFile, MidiFileParseError, MidiMsg};

use crate::error::MidiFlipperError;
use crate::sink::{meta_data_len, meta_data_length, sysex_len, sysex_length, VLQ_LIMIT};
use crate::midi::{
    track_events, Division, MetaInfo, Message, MidiFileData, MidiHeader, SmfFormat, TimeCodeType, TimeSignature, TrackData,
    TrackEvent, Voice,
};

verus! {

/// A file as `midi_msg` parses it.
#[verifier::external_type_specification]
#[verifier::external_body]
pub struct ExMidiFile(MidiFile);

/// Why `midi_msg` could not parse a file.
#[verifier::external_type_specification]
#[verifier::external_body]
pub struct ExMidiFileParseError(MidiFileParseError);

/// A chunk of a file as `midi_msg` parses it.
#[verifier::external_type_specification]
#[verifier::external_body]
pub struct ExTrack(midi_msg::Track);

/// A channel-voice message of `midi_msg`.
#[verifier::external_type_specification]
#[verifier::external_body]
pub struct ExChannelVoiceMsg(ChannelVoiceMsg);

/// The variable-length quantity that `midi_msg`'s `read_vlq` reads at
/// `i + k` on, when the `k` bytes before it gave `acc`: its value and the
/// number of bytes it takes from `i`. Each byte adds its low seven bits; a
/// byte below 0x80 ends it. `None` where the bytes run out first, or where
/// the fourth byte does not end it.
pub open spec fn vlq_from(b: Seq<u8>, i: int, k: int, acc: int) -> Option<(int, int)>
    decreases 4 - k,
{
    if k < 0 || k >= 4 || i < 0 || i + k >= b.len() {
        None
    } else {
        let byte = b[i + k];
        let value = acc * 128 + byte % 128;
        if byte < 128 {
            Some((value, k + 1))
        } else {
            vlq_from(b, i, k + 1, value)
        }
    }
}

/// The variable-length quantity at `i`: its value and its length in bytes.
pub open spec fn vlq_at(b: Seq<u8>, i: int) -> Option<(int, int)> {
    vlq_from(b, i, 0, 0)
}

/// A variable-length quantity read from `i` ends inside `b`, takes one to four
/// bytes and is not negative.
pub proof fn lemma_vlq_from_bounds(b: Seq<u8>, i: int, k: int, acc: int)
    requires
        0 <= k,
        acc >= 0,
    ensures
        vlq_from(b, i, k, acc) matches Some((v, n)) ==> k < n <= 4 && i + n <= b.len() && v >= 0,
    decreases 4 - k,
{
    if !(k < 0 || k >= 4 || i < 0 || i + k >= b.len()) {
        let byte = b[i + k];
        if byte >= 128 {
            lemma_vlq_from_bounds(b, i, k + 1, acc * 128 + byte % 128);
        }
    }
}

/// Where byte `j` is 0xF0 or 0xF7 and a variable-length quantity follows
/// it, that many bytes after the quantity are still inside `b`.
pub open spec fn escape_length_fits(b: Seq<u8>, j: int) -> bool {
    (b[j] == 0xF0 || b[j] == 0xF7) ==> match vlq_at(b, j + 1) {
        Some((len, n)) => j + 1 + n + len <= b.len(),
        None => true,
    }
}

/// Where bytes 0xFF 0x58 at `j` are followed by a variable-length quantity
/// of 4 and four more bytes (a time signature), the second of these, the
/// denominator's power of two, is below 16: `midi_msg` raises 2 to it as a
/// 16-bit number.
pub open spec fn time_signature_fits(b: Seq<u8>, j: int) -> bool {
    (b[j] == 0xFF && j + 1 < b.len() && b[j + 1] == 0x58) ==> match vlq_at(b, j + 2) {
        Some((len, n)) => (len == 4 && j + 2 + n + len <= b.len()) ==> b[j + 3 + n] < 16,
        None => true,
    }
}

/// Byte `j` passes `escape_length_fits` and `time_signature_fits`.
pub open spec fn byte_fits(b: Seq<u8>, j: int) -> bool {
    escape_length_fits(b, j) && time_signature_fits(b, j)
}

/// Every byte from `from` up to `to` (and inside `b`) passes `byte_fits`.
pub open spec fn escapes_fit_between(b: Seq<u8>, from: int, to: int) -> bool {
    forall|j: int| from <= j < to && 0 <= j < b.len() ==> #[trigger] byte_fits(b, j)
}

/// The big-endian 32-bit number at `i`.
pub open spec fn be_u32_at(b: Seq<u8>, i: int) -> int {
    b[i] * 0x100_0000 + b[i + 1] * 0x1_0000 + b[i + 2] * 0x100 + b[i + 3]
}

/// The chunk at `off` is a track chunk ("MTrk").
pub open spec fn is_track_chunk(b: Seq<u8>, off: int) -> bool {
    b[off] == 0x4D && b[off + 1] == 0x54 && b[off + 2] == 0x72 && b[off + 3] == 0x6B
}

/// The events of a track chunk, from `pos` to `end`, as `midi_msg` reads
/// them: a delta time, then a status byte. A meta event (0xFF) is skipped by
/// its length (a time signature's power of two must be below 16); a system-exclusive (0xF0) or escape (0xF7) event's length must
/// stay inside `b`, and the event is skipped by it. At any other status the
/// length of the events is not followed further: from there to three bytes
/// past the chunk's end (where the status of an event begun in the chunk can
/// lie), every byte must pass `byte_fits`. Where
/// `midi_msg` stops with an error (a delta time or length that does not
/// read, a status 0xF1 to 0xFE other than 0xF7) nothing more is asked.
pub open spec fn events_fit(b: Seq<u8>, pos: int, end: int) -> bool
    decreases b.len() - pos,
{
    if pos < 0 || pos >= end || pos >= b.len() {
        true
    } else {
        match vlq_at(b, pos) {
            None => true,
            Some((_, dn)) => {
                let s = pos + dn;
                if s >= b.len() {
                    true
                } else if b[s] == 0xFF {
                    match vlq_at(b, s + 2) {
                        None => true,
                        Some((len, n)) => {
                            proof {
                                lemma_vlq_from_bounds(b, pos, 0, 0);
                                lemma_vlq_from_bounds(b, s + 2, 0, 0);
                            }
                            s + 2 + n + len > b.len() || ((b[s + 1] == 0x58 && len == 4 ==> b[s + 3 + n] < 16)
                                && events_fit(b, s + 2 + n + len, end))
                        },
                    }
                } else if b[s] == 0xF0 || b[s] == 0xF7 {
                    match vlq_at(b, s + 1) {
                        None => true,
                        Some((len, n)) => {
                            proof {
                                lemma_vlq_from_bounds(b, pos, 0, 0);
                                lemma_vlq_from_bounds(b, s + 1, 0, 0);
                            }
                            s + 1 + n + len <= b.len() && events_fit(b, s + 1 + n + len, end)
                        },
                    }
                } else if b[s] > 0xF0 {
                    true
                } else {
                    escapes_fit_between(b, s, end + 4)
                }
            },
        }
    }
}

/// The `count` chunks from `off` on, as `midi_msg` reads them: eight bytes
/// of type and length, then the contents; the events of each track chunk
/// pass `events_fit`. A chunk whose declared length runs past the end of
/// `b` fails: `midi_msg` adds 8 to that length as a `usize` before it
/// refuses the chunk, which overflows where `usize` has 32 bits.
pub open spec fn chunks_fit(b: Seq<u8>, off: int, count: int) -> bool
    decreases count,
{
    if count <= 0 || off < 0 || off + 8 > b.len() {
        true
    } else {
        let end = off + 8 + be_u32_at(b, off + 4);
        if end > b.len() {
            false
        } else {
            (is_track_chunk(b, off) ==> events_fit(b, off + 8, end)) && chunks_fit(b, end, count - 1)
        }
    }
}

/// No chunk, and no system-exclusive or escape event that `midi_msg` reads
/// in the tracks of `b`, runs past the end of `b`, and no time signature has a power of
/// two of 16 or more: the chunks after the 14-byte header, as many as the
/// header announces, pass `chunks_fit`. (`midi_msg` slices such an event's
/// bytes out of range when its content does not parse, and computes such a
/// power with overflow.) Past the first event of a track that is not a
/// meta, system-exclusive or escape event, every byte of the track is
/// checked, so a text there holding 0xF0 or 0xF7 may fail the check.
pub open spec fn escape_lengths_fit(b: Seq<u8>) -> bool {
    b.len() < 14 || chunks_fit(b, 14, b[10] * 0x100 + b[11])
}

/// The variable-length quantity at `i`, read as `midi_msg` reads it.
fn read_vlq_at(b: &[u8], i: usize) -> (r: Option<(u32, usize)>)
    ensures
        match r {
            Some((v, n)) => vlq_at(b@, i as int) == Some((v as int, n as int)),
            None => vlq_at(b@, i as int) is None,
        },
{
    let mut k: usize = 0;
    let mut acc: u32 = 0;
    while k < 4
        invariant
            k <= 4,
            k == 0 ==> acc == 0,
            k <= 1 ==> acc < 0x80,
            k <= 2 ==> acc < 0x4000,
            k <= 3 ==> acc < 0x20_0000,
            acc < 0x1000_0000,
            vlq_at(b@, i as int) == vlq_from(b@, i as int, k as int, acc as int),
        decreases 4 - k,
    {
        if i >= b.len() || k >= b.len() - i {
            return None;
        }
        let byte = b[i + k];
        let value = acc * 128 + (byte % 128) as u32;
        if byte < 128 {
            return Some((value, k + 1));
        }
        acc = value;
        k += 1;
    }
    None
}

/// Whether the bytes from `from` up to `to` pass `escape_length_fits`.
fn check_between(bytes: &[u8], from: usize, to: usize) -> (r: bool)
    ensures
        r == escapes_fit_between(bytes@, from as int, to as int),
{
    let stop = if to < bytes.len() {
        to
    } else {
        bytes.len()
    };
    let mut j: usize = from;
    while j < stop
        invariant
            from <= j,
            stop <= bytes.len(),
            stop <= to,
            forall|q: int| from <= q < j && q < bytes.len() ==> #[trigger] byte_fits(bytes@, q),
        decreases stop - j,
    {
        if bytes[j] == 0xF0 || bytes[j] == 0xF7 {
            if let Some((len, n)) = read_vlq_at(bytes, j + 1) {
                proof {
                    lemma_vlq_from_bounds(bytes@, j + 1, 0, 0);
                }
                if len as usize > bytes.len() - (j + 1 + n) {
                    assert(!byte_fits(bytes@, j as int));
                    return false;
                }
            }
        }
        if bytes[j] == 0xFF && bytes.len() - j >= 2 && bytes[j + 1] == 0x58 {
            if let Some((len, n)) = read_vlq_at(bytes, j + 2) {
                proof {
                    lemma_vlq_from_bounds(bytes@, j + 2, 0, 0);
                }
                if len == 4 && bytes.len() - (j + 2 + n) >= 4 && bytes[j + 3 + n] >= 16 {
                    assert(!byte_fits(bytes@, j as int));
                    return false;
                }
            }
        }
        assert(byte_fits(bytes@, j as int));
        j += 1;
    }
    true
}

/// Whether the events of a track chunk from `start` to `end` pass
/// `events_fit`.
fn check_events(bytes: &[u8], start: usize, end: usize) -> (r: bool)
    requires
        end <= bytes.len(),
    ensures
        r == events_fit(bytes@, start as int, end as int),
{
    let mut pos: usize = start;
    while pos < end
        invariant
            end <= bytes.len(),
            events_fit(bytes@, start as int, end as int) == events_fit(bytes@, pos as int, end as int),
        decreases bytes.len() - pos,
    {
        let dn = match read_vlq_at(bytes, pos) {
            None => {
                return true;
            },
            Some((_, dn)) => dn,
        };
        proof {
            lemma_vlq_from_bounds(bytes@, pos as int, 0, 0);
        }
        let s = pos + dn;
        if s >= bytes.len() {
            return true;
        }
        let st = bytes[s];
        if st == 0xFF {
            if bytes.len() - s < 2 {
                assert(vlq_at(bytes@, s + 2) is None);
                return true;
            }
            match read_vlq_at(bytes, s + 2) {
                None => {
                    return true;
                },
                Some((len, n)) => {
                    proof {
                        lemma_vlq_from_bounds(bytes@, s + 2, 0, 0);
                    }
                    if len as usize > bytes.len() - (s + 2 + n) {
                        return true;
                    }
                    if bytes[s + 1] == 0x58 && len == 4 && bytes[s + 3 + n] >= 16 {
                        return false;
                    }
                    pos = s + 2 + n + len as usize;
                },
            }
        } else if st == 0xF0 || st == 0xF7 {
            match read_vlq_at(bytes, s + 1) {
                None => {
                    return true;
                },
                Some((len, n)) => {
                    proof {
                        lemma_vlq_from_bounds(bytes@, s + 1, 0, 0);
                    }
                    if len as usize > bytes.len() - (s + 1 + n) {
                        return false;
                    }
                    pos = s + 1 + n + len as usize;
                },
            }
        } else if st > 0xF0 {
            return true;
        } else {
            let to = if bytes.len() - end >= 4 {
                end + 4
            } else {
                bytes.len()
            };
            let r = check_between(bytes, s, to);
            assert(escapes_fit_between(bytes@, s as int, to as int) == escapes_fit_between(
                bytes@,
                s as int,
                end + 4,
            ));
            return r;
        }
    }
    true
}

/// Whether no system-exclusive or escape event of the tracks runs past the
/// end of the bytes (`escape_lengths_fit`).
pub fn check_escape_lengths(bytes: &[u8]) -> (r: bool)
    ensures
        r == escape_lengths_fit(bytes@),
{
    if bytes.len() < 14 {
        return true;
    }
    let mut left: u32 = bytes[10] as u32 * 0x100 + bytes[11] as u32;
    let mut off: usize = 14;
    while left > 0
        invariant
            off <= bytes.len(),
            bytes.len() >= 14,
            escape_lengths_fit(bytes@) == chunks_fit(bytes@, off as int, left as int),
        decreases left,
    {
        if bytes.len() - off < 8 {
            return true;
        }
        let len = bytes[off + 4] as u32 * 0x100_0000 + bytes[off + 5] as u32 * 0x1_0000 + bytes[off + 6] as u32
            * 0x100 + bytes[off + 7] as u32;
        if len as usize > bytes.len() - (off + 8) {
            return false;
        }
        let end = off + 8 + len as usize;
        assert(end == off + 8 + be_u32_at(bytes@, off + 4));
        if bytes[off] == 0x4D && bytes[off + 1] == 0x54 && bytes[off + 2] == 0x72 && bytes[off + 3] == 0x6B {
            if !check_events(bytes, off + 8, end) {
                return false;
            }
        }
        off = end;
        left -= 1;
    }
    true
}

/// `<MidiFile as Clone>::clone`, which `midi_msg` derives: the copy is
/// equal to the original.
#[verifier::external_body]
fn clone_file(file: &MidiFile) -> (r: MidiFile)
    ensures
        r == *file,
{
    file.clone()
}

/// Whether `midi_msg` parses the bytes as a standard MIDI file.
pub uninterp spec fn midi_parses(bytes: Seq<u8>) -> bool;

/// The file that `midi_msg` parses from the bytes.
pub uninterp spec fn parsed_file(bytes: Seq<u8>) -> MidiFile;

/// `MidiFile::from_midi`: parses the bytes of a standard MIDI file. Claimed:
/// the call succeeds exactly on the bytes named by `midi_parses`, and the
/// file it gives is `parsed_file` of them. The parser slices out of range
/// (a panic) where a system-exclusive or escape event's length runs past
/// the end of the bytes and its content does not parse, and overflows
/// (a panic where overflow is checked) on a time signature's power of two
/// of 16 or more, and on a chunk length within 8 of `usize::MAX` (where
/// `usize` has 32 bits); `requires` leaves those bytes out.
#[verifier::external_body]
fn parse_bytes(bytes: &[u8]) -> (r: Result<MidiFile, MidiFileParseError>)
    requires
        escape_lengths_fit(bytes@),
    ensures
        r is Ok <==> midi_parses(bytes@),
        r matches Ok(f) ==> f == parsed_file(bytes@),
{
    MidiFile::from_midi(bytes)
}

/// The bytes `midi_msg` writes for a file.
pub uninterp spec fn written_bytes(file: MidiFile) -> Seq<u8>;

/// The longest input whose parsed file is written back. `midi_msg` writes
/// a track's length as the difference of two offsets taken as 32-bit
/// numbers (which underflows where the output passes 4 GiB inside the
/// track), and a parsed file's output is at most three times its input (a
/// text's invalid UTF-8 bytes each become a three-byte replacement
/// character; every other event is written at most as long as it was read,
/// give or take one status byte).
pub const REWRITE_LIMIT: usize = 0x5555_5555usize;

/// Every message of the file's tracks that is kept whole (not a note or
/// bend) has a meta-event data and a system-exclusive form shorter than
/// `VLQ_LIMIT`, the largest length `midi_msg` writes.
pub open spec fn lengths_fit(data: MidiFileData) -> bool {
    forall|i: int, j: int|
        0 <= i < data.tracks@.len() && 0 <= j < track_events(data.tracks@[i]).len() ==> message_length_fits(
            #[trigger] track_events(data.tracks@[i])[j].msg,
        )
}

/// A message kept whole has a meta-event data and a system-exclusive form
/// shorter than `VLQ_LIMIT`.
pub open spec fn message_length_fits(msg: Message) -> bool {
    msg matches Message::Other { msg: m, .. } ==> meta_data_len(m) < VLQ_LIMIT && sysex_len(m) < VLQ_LIMIT
}

/// A message that is not a channel-voice message has a meta-event data and
/// a system-exclusive form shorter than `VLQ_LIMIT`.
pub open spec fn outside_length_fits(m: MidiMsg) -> bool {
    channel_voice_part(m) is None ==> meta_data_len(m) < VLQ_LIMIT && sysex_len(m) < VLQ_LIMIT
}

/// Every event of the chunks passes `outside_length_fits`.
pub open spec fn chunk_lengths_fit(chunks: Seq<midi_msg::Track>) -> bool {
    forall|i: int|
        0 <= i < chunks.len() ==> (#[trigger] chunk_parts(chunks[i]) matches Ok(evs) ==> forall|j: int|
            0 <= j < evs.len() ==> outside_length_fits(#[trigger] evs[j].1))
}

proof fn lemma_lengths_fit(file: MidiFile, data: MidiFileData)
    requires
        file_read(file, data),
        lengths_fit(data),
    ensures
        chunk_lengths_fit(chunks_of(file)),
{
    let chunks = chunks_of(file);
    assert forall|i: int|
        0 <= i < chunks.len() implies (#[trigger] chunk_parts(chunks[i]) matches Ok(evs) ==> forall|j: int|
        0 <= j < evs.len() ==> outside_length_fits(#[trigger] evs[j].1)) by {
        assert(chunk_read(chunks[i], data.tracks@[i]));
        if let Ok(evs) = chunk_parts(chunks[i]) {
            assert forall|j: int| 0 <= j < evs.len() implies outside_length_fits(#[trigger] evs[j].1) by {
                assert(track_events(data.tracks@[i]) == events_read(evs));
                assert(track_events(data.tracks@[i])[j].msg == message_read(evs[j].1));
                assert(message_length_fits(track_events(data.tracks@[i])[j].msg));
            }
        }
    }
}

/// Whether the kept-whole messages of the file are short enough to be
/// written (`lengths_fit`).
fn check_lengths(data: &MidiFileData) -> (r: bool)
    ensures
        r == lengths_fit(*data),
{
    let mut i: usize = 0;
    while i < data.tracks.len()
        invariant
            i <= data.tracks@.len(),
            forall|q: int, j: int|
                0 <= q < i && 0 <= j < track_events(data.tracks@[q]).len() ==> message_length_fits(
                    #[trigger] track_events(data.tracks@[q])[j].msg,
                ),
        decreases data.tracks@.len() - i,
    {
        let t = &data.tracks[i];
        let n = t.event_count();
        let mut j: usize = 0;
        while j < n
            invariant
                i < data.tracks@.len(),
                *t == data.tracks@[i as int],
                n == track_events(*t).len(),
                j <= n,
                forall|q: int, k: int|
                    0 <= q < i && 0 <= k < track_events(data.tracks@[q]).len() ==> message_length_fits(
                        #[trigger] track_events(data.tracks@[q])[k].msg,
                    ),
                forall|k: int| 0 <= k < j ==> message_length_fits(#[trigger] track_events(*t)[k].msg),
            decreases n - j,
        {
            let e = t.event(j);
            if let Message::Other { msg, .. } = &e.msg {
                if meta_data_length(msg) >= VLQ_LIMIT || sysex_length(msg) >= VLQ_LIMIT {
                    assert(!message_length_fits(track_events(data.tracks@[i as int])[j as int].msg));
                    return false;
                }
            }
            j += 1;
        }
        i += 1;
    }
    true
}

/// `MidiFile::to_midi`: the bytes of a file. Claimed: they are
/// `written_bytes` of the file. The call panics on a delta time or a
/// meta-event or system-exclusive length of `VLQ_LIMIT` or more, and where a
/// track's 32-bit length arithmetic underflows; `requires` admits only a
/// file parsed from fewer than `REWRITE_LIMIT` bytes (its delta times were
/// read as at most four bytes of seven bits, and its output stays below 4
/// GiB) whose other messages' lengths pass `chunk_lengths_fit`
/// (channel-voice messages are written with no length).
#[verifier::external_body]
fn write_bytes(file: &MidiFile) -> (r: Vec<u8>)
    requires
        exists|b: Seq<u8>|
            #![trigger parsed_file(b)]
            b.len() < REWRITE_LIMIT && midi_parses(b) && escape_lengths_fit(b) && parsed_file(b) == *file,
        chunk_lengths_fit(chunks_of(*file)),
    ensures
        r@ == written_bytes(*file),
{
    file.to_midi()
}

/// A file, written back to bytes, passes the length check and parses again.
pub open spec fn reencodes(file: MidiFile) -> bool {
    escape_lengths_fit(written_bytes(file)) && midi_parses(written_bytes(file))
}

/// The text of a parse error (`Display`). Nothing is stated of it.
#[verifier::external_body]
fn parse_error_text(e: &MidiFileParseError) -> String {
    e.to_string()
}

/// The format in a parsed file's header.
pub uninterp spec fn format_of(file: MidiFile) -> SmfFormat;

/// The number of tracks a parsed file's header announces.
pub uninterp spec fn num_tracks_of(file: MidiFile) -> u16;

/// The division in a parsed file's header.
pub uninterp spec fn division_of(file: MidiFile) -> Division;

/// The chunks of a parsed file, in order.
pub uninterp spec fn chunks_of(file: MidiFile) -> Seq<midi_msg::Track>;

/// A chunk's events (delta time and message of each, in order) if it is a
/// MIDI track, else its bytes.
pub uninterp spec fn chunk_parts(track: midi_msg::Track) -> Result<Seq<(u32, MidiMsg)>, Seq<u8>>;

/// The channel (0 for `Ch1`), the running status and the message of a
/// channel-voice message; `None` for any other message.
pub uninterp spec fn channel_voice_part(msg: MidiMsg) -> Option<(u8, bool, ChannelVoiceMsg)>;

/// A note or bend channel-voice message with the same fields; `None` for
/// the other channel-voice messages.
pub uninterp spec fn voice_part(msg: ChannelVoiceMsg) -> Option<Voice>;

/// What the library reads of a meta event; `NotRead` for other meta events
/// and for messages that are not meta events.
pub uninterp spec fn meta_part(msg: MidiMsg) -> MetaInfo;

/// `file.header.format`, told apart by variant. Claimed: `format_of` the file.
#[verifier::external_body]
fn file_format(file: &MidiFile) -> (r: SmfFormat)
    ensures
        r == format_of(*file),
{
    match file.header.format {
        midi_msg::SMFFormat::SingleTrack => SmfFormat::SingleTrack,
        midi_msg::SMFFormat::MultiTrack => SmfFormat::MultiTrack,
        midi_msg::SMFFormat::MultiSong => SmfFormat::MultiSong,
    }
}

/// `file.header.num_tracks`. Claimed: `num_tracks_of` the file.
#[verifier::external_body]
fn file_num_tracks(file: &MidiFile) -> (r: u16)
    ensures
        r == num_tracks_of(*file),
{
    file.header.num_tracks
}

/// `file.header.division`, told apart by variant. Claimed: `division_of`
/// the file.
#[verifier::external_body]
fn file_division(file: &MidiFile) -> (r: Division)
    ensures
        r == division_of(*file),
{
    match file.header.division {
        midi_msg::Division::TicksPerQuarterNote(t) => Division::TicksPerQuarterNote(t),
        midi_msg::Division::TimeCode { frames_per_second: midi_msg::TimeCodeType::FPS24, ticks_per_frame: f } => Division::TimeCode { frames_per_second: TimeCodeType::FPS24, ticks_per_frame: f },
        midi_msg::Division::TimeCode { frames_per_second: midi_msg::TimeCodeType::FPS25, ticks_per_frame: f } => Division::TimeCode { frames_per_second: TimeCodeType::FPS25, ticks_per_frame: f },
        midi_msg::Division::TimeCode { frames_per_second: midi_msg::TimeCodeType::DF30, ticks_per_frame: f } => Division::TimeCode { frames_per_second: TimeCodeType::DF30, ticks_per_frame: f },
        midi_msg::Division::TimeCode { frames_per_second: midi_msg::TimeCodeType::NDF30, ticks_per_frame: f } => Division::TimeCode { frames_per_second: TimeCodeType::NDF30, ticks_per_frame: f },
    }
}

/// `file.tracks`. Claimed: `chunks_of` the file.
#[verifier::external_body]
fn file_tracks(file: MidiFile) -> (r: Vec<midi_msg::Track>)
    ensures
        r@ == chunks_of(file),
{
    file.tracks
}

/// The variants of `midi_msg::Track` told apart: the events' delta times
/// and messages, or the alien chunk's bytes. Claimed: `chunk_parts` of the
/// chunk.
#[verifier::external_body]
fn track_parts(track: midi_msg::Track) -> (r: Result<Vec<(u32, MidiMsg)>, Vec<u8>>)
    ensures
        match r {
            Ok(events) => chunk_parts(track) == Ok::<Seq<(u32, MidiMsg)>, Seq<u8>>(events@),
            Err(bytes) => chunk_parts(track) == Err::<Seq<(u32, MidiMsg)>, Seq<u8>>(bytes@),
        },
{
    match track {
        midi_msg::Track::Midi(events) => Ok(events.into_iter().map(|e| (e.delta_time, e.event)).collect()),
        midi_msg::Track::AlienChunk(bytes) => Err(bytes),
    }
}

/// The variants of `MidiMsg` told apart: the channel, running status and
/// message of a channel-voice message. Claimed: `channel_voice_part`.
#[verifier::external_body]
fn channel_voice(msg: &MidiMsg) -> (r: Option<(u8, bool, ChannelVoiceMsg)>)
    ensures
        r == channel_voice_part(*msg),
{
    match msg {
        MidiMsg::ChannelVoice { channel, msg } => Some((*channel as u8, false, *msg)),
        MidiMsg::RunningChannelVoice { channel, msg } => Some((*channel as u8, true, *msg)),
        _ => None,
    }
}

/// The variants of `ChannelVoiceMsg` told apart: a note or bend message
/// with its fields moved over. Claimed: `voice_part`.
#[verifier::external_body]
fn voice_of(msg: &ChannelVoiceMsg) -> (r: Option<Voice>)
    ensures
        r == voice_part(*msg),
{
    match *msg {
        ChannelVoiceMsg::NoteOn { note, velocity } => Some(Voice::NoteOn { note, velocity }),
        ChannelVoiceMsg::NoteOff { note, velocity } => Some(Voice::NoteOff { note, velocity }),
        ChannelVoiceMsg::HighResNoteOn { note, velocity } => Some(Voice::HighResNoteOn { note, velocity }),
        ChannelVoiceMsg::HighResNoteOff { note, velocity } => Some(Voice::HighResNoteOff { note, velocity }),
        ChannelVoiceMsg::PolyPressure { note, pressure } => Some(Voice::PolyPressure { note, pressure }),
        ChannelVoiceMsg::PitchBend { bend } => Some(Voice::PitchBend { bend }),
        _ => None,
    }
}

/// The variants of `Meta` told apart: the names, markers, cue points, end
/// of track, tempo and time signature, with their fields moved over.
/// Claimed: `meta_part`.
#[verifier::external_body]
fn meta_of(msg: &MidiMsg) -> (r: MetaInfo)
    ensures
        r == meta_part(*msg),
{
    match msg {
        MidiMsg::Meta { msg: Meta::TrackName(s) } => MetaInfo::TrackName(s.clone()),
        MidiMsg::Meta { msg: Meta::Marker(s) } => MetaInfo::Marker(s.clone()),
        MidiMsg::Meta { msg: Meta::CuePoint(s) } => MetaInfo::CuePoint(s.clone()),
        MidiMsg::Meta { msg: Meta::EndOfTrack } => MetaInfo::EndOfTrack,
        MidiMsg::Meta { msg: Meta::SetTempo(t) } => MetaInfo::SetTempo(*t),
        MidiMsg::Meta { msg: Meta::TimeSignature(t) } => MetaInfo::TimeSignature(TimeSignature { numerator: t.numerator, denominator: t.denominator, clocks_per_metronome_tick: t.clocks_per_metronome_tick, thirty_second_notes_per_24_clocks: t.thirty_second_notes_per_24_clocks }),
        _ => MetaInfo::NotRead,
    }
}

/// The library's message for a `midi_msg` message: a note or bend
/// channel-voice message as plain values; any other channel-voice message
/// kept whole and not read; any other message kept whole beside what the
/// library reads of it as a meta event.
pub open spec fn message_read(msg: MidiMsg) -> Message {
    match channel_voice_part(msg) {
        Some((channel, running, cv)) => match voice_part(cv) {
            Some(voice) => Message::Voice { channel, running, voice },
            None => Message::Other { msg, meta: MetaInfo::NotRead },
        },
        None => Message::Other { msg, meta: meta_part(msg) },
    }
}

/// The library's events for a chunk's events.
pub open spec fn events_read(events: Seq<(u32, MidiMsg)>) -> Seq<TrackEvent> {
    events.map_values(|e: (u32, MidiMsg)| TrackEvent { delta_time: e.0, msg: message_read(e.1) })
}

/// `data` is the library's chunk for `track`: a MIDI track with the events
/// read, or a chunk of another kind with the same bytes.
pub open spec fn chunk_read(track: midi_msg::Track, data: TrackData) -> bool {
    match chunk_parts(track) {
        Ok(events) => data is Midi && track_events(data) == events_read(events),
        Err(bytes) => data matches TrackData::AlienChunk(b) && b@ == bytes,
    }
}

/// `data` is the library's file for `file`: the same header and, chunk by
/// chunk, the chunks read.
pub open spec fn file_read(file: MidiFile, data: MidiFileData) -> bool {
    &&& data.header == MidiHeader {
        format: format_of(file),
        num_tracks: num_tracks_of(file),
        division: division_of(file),
    }
    &&& data.tracks@.len() == chunks_of(file).len()
    &&& forall|i: int| 0 <= i < data.tracks@.len() ==> chunk_read(chunks_of(file)[i], #[trigger] data.tracks@[i])
}

/// The library's message for a `midi_msg` message (`message_read`).
pub fn message_of(msg: MidiMsg) -> (r: Message)
    ensures
        r == message_read(msg),
{
    match channel_voice(&msg) {
        Some((channel, running, cv)) => match voice_of(&cv) {
            Some(voice) => Message::Voice { channel, running, voice },
            None => Message::Other { msg, meta: MetaInfo::NotRead },
        },
        None => {
            let meta = meta_of(&msg);
            Message::Other { msg, meta }
        },
    }
}

/// The library's chunk for a parsed chunk.
fn track_of(track: midi_msg::Track) -> (r: TrackData)
    ensures
        chunk_read(track, r),
{
    match track_parts(track) {
        Ok(events) => {
            let ghost all = events@;
            let mut out: Vec<TrackEvent> = Vec::new();
            for e in it: events.into_iter()
                invariant
                    it.seq() == all,
                    out@ == events_read(all.take(it.index() as int)),
            {
                let (delta_time, msg) = e;
                out.push(TrackEvent { delta_time, msg: message_of(msg) });
                assert(events_read(all.take(it.index() + 1)) =~= events_read(all.take(it.index() as int)).push(
                    TrackEvent { delta_time: all[it.index() as int].0, msg: message_read(all[it.index() as int].1) },
                ));
            }
            assert(all.take(all.len() as int) =~= all);
            TrackData::Midi(out)
        },
        Err(bytes) => TrackData::AlienChunk(bytes),
    }
}

/// Parses the bytes of a standard MIDI file into the library's file, and
/// tells whether the file, written back to bytes, parses again. Bytes that
/// fail `escape_lengths_fit` (a chunk or an event that runs past the end, a
/// time signature out of range), and bytes that do not parse, give `MidiParse`.
/// A file read from `REWRITE_LIMIT` bytes or more, or with a message too
/// long to write (`lengths_fit`), is not written back and counts as not
/// parsing again.
pub fn read_midi_file(bytes: &[u8]) -> (r: Result<(MidiFileData, bool), MidiFlipperError>)
    ensures
        r is Ok <==> escape_lengths_fit(bytes@) && midi_parses(bytes@),
        r matches Err(e) ==> e is MidiParse,
        r matches Ok((data, reparses)) ==> {
            &&& file_read(parsed_file(bytes@), data)
            &&& reparses == (bytes@.len() < REWRITE_LIMIT && lengths_fit(data) && reencodes(parsed_file(bytes@)))
        },
{
    if !check_escape_lengths(bytes) {
        return Err(MidiFlipperError::MidiParse(String::from_str("a chunk or a system-exclusive or escape event runs past the end of the file, or a time signature is out of range")));
    }
    let file = match parse_bytes(bytes) {
        Ok(file) => file,
        Err(e) => {
            return Err(MidiFlipperError::MidiParse(parse_error_text(&e)));
        },
    };
    let copy = clone_file(&file);
    let header = MidiHeader {
        format: file_format(&copy),
        num_tracks: file_num_tracks(&copy),
        division: file_division(&copy),
    };
    let ghost source = copy;
    let chunks = file_tracks(copy);
    let ghost all = chunks@;
    let mut tracks: Vec<TrackData> = Vec::new();
    for t in it: chunks.into_iter()
        invariant
            it.seq() == all,
            all == chunks_of(source),
            tracks@.len() == it.index(),
            forall|i: int| 0 <= i < tracks@.len() ==> chunk_read(all[i], #[trigger] tracks@[i]),
    {
        tracks.push(track_of(t));
    }
    let data = MidiFileData { header, tracks };
    assert(file_read(file, data));
    let reparses = if bytes.len() < REWRITE_LIMIT && check_lengths(&data) {
        assert(parsed_file(bytes@) == file);
        proof {
            lemma_lengths_fit(file, data);
        }
        let written = write_bytes(&file);
        check_escape_lengths(written.as_slice()) && parse_bytes(written.as_slice()).is_ok()
    } else {
        false
    };
    Ok((data, reparses))
}

} // verus!
