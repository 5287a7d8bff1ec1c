//! Opening a soundfont: `rustysynth` parses the bytes, after a check that
//! the parse cannot index out of range or allocate more than the bytes hold.
use vstd::prelude::*;

use rustysynth::{SoundFont, SoundFontError};

use crate::error::MidiFlipperError;

verus! {

/// A soundfont as `rustysynth` parses it.
#[verifier::external_type_specification]
#[verifier::external_body]
pub struct ExSoundFont(SoundFont);

/// Why `rustysynth` could not parse a soundfont.
#[verifier::external_type_specification]
#[verifier::external_body]
pub struct ExSoundFontError(SoundFontError);

/// The four bytes at `i` as one big-endian number (a chunk's name).
pub open spec fn tag_at(b: Seq<u8>, i: int) -> int {
    b[i] * 0x100_0000 + b[i + 1] * 0x1_0000 + b[i + 2] * 0x100 + b[i + 3]
}

/// The little-endian 32-bit number at `i` (a chunk's size).
pub open spec fn le_u32_at(b: Seq<u8>, i: int) -> int {
    b[i] + b[i + 1] * 0x100 + b[i + 2] * 0x1_0000 + b[i + 3] * 0x100_0000
}

/// The little-endian 16-bit number at `i`.
pub open spec fn le_u16_at(b: Seq<u8>, i: int) -> int {
    b[i] + b[i + 1] * 0x100
}

/// "RIFF", "sfbk", "LIST" and the three lists' names.
pub const RIFF: u32 = 0x5249_4646u32;
pub const SFBK: u32 = 0x7366_626Bu32;
pub const LIST: u32 = 0x4C49_5354u32;
pub const INFO: u32 = 0x494E_464Fu32;
pub const SDTA: u32 = 0x7364_7461u32;
pub const PDTA: u32 = 0x7064_7461u32;

/// A sub-chunk that `rustysynth` does not know: it stops with an error.
pub const UNKNOWN_CHUNK: i8 = -2i8;
/// A sub-chunk of which `rustysynth` reads four bytes, whatever its size.
pub const FOUR_BYTE_CHUNK: i8 = -1i8;
/// A sub-chunk read (or skipped) whole that is none of the tables.
pub const OTHER_CHUNK: i8 = 7i8;

/// What `rustysynth` does with a sub-chunk named `tag` in list `kind` (0 the
/// information list, 1 the sample data, 2 the parameters): the index of the
/// parameter table it holds (0 "phdr", 1 "pbag", 2 "pgen", 3 "inst", 4
/// "ibag", 5 "igen", 6 "shdr"), or one of the three kinds above.
pub open spec fn chunk_class(kind: int, tag: int) -> int {
    if kind == 0 {
        if tag == 0x6966_696C || tag == 0x6976_6572 {
            FOUR_BYTE_CHUNK as int
        } else if tag == 0x6973_6E67 || tag == 0x494E_414D || tag == 0x6972_6F6D || tag == 0x4943_5244
            || tag == 0x4945_4E47 || tag == 0x4950_5244 || tag == 0x4943_4F50 || tag == 0x4943_4D54
            || tag == 0x4953_4654 {
            OTHER_CHUNK as int
        } else {
            UNKNOWN_CHUNK as int
        }
    } else if kind == 1 {
        if tag == 0x736D_706C || tag == 0x736D_3234 {
            OTHER_CHUNK as int
        } else {
            UNKNOWN_CHUNK as int
        }
    } else {
        if tag == 0x7068_6472 {
            0
        } else if tag == 0x7062_6167 {
            1
        } else if tag == 0x7067_656E {
            2
        } else if tag == 0x696E_7374 {
            3
        } else if tag == 0x6962_6167 {
            4
        } else if tag == 0x6967_656E {
            5
        } else if tag == 0x7368_6472 {
            6
        } else if tag == 0x706D_6F64 || tag == 0x696D_6F64 {
            OTHER_CHUNK as int
        } else {
            UNKNOWN_CHUNK as int
        }
    }
}

/// How a list ends: `rustysynth` stops with an error (`Stop`), a sub-chunk
/// declares more bytes than are left (`Short`), or the list is read up to
/// `Next`, with the place (start and size) of the last of each parameter
/// table seen.
pub enum ListEnd {
    Stop,
    Short,
    Next(int, Seq<Option<(usize, usize)>>),
}

/// The sub-chunks of a list whose contents start at `q` and count `end`
/// bytes, from `cur` on, as `rustysynth` reads them: while fewer than `end`
/// bytes are read, a name and a size, then four bytes or `size` bytes.
pub open spec fn walk_list(
    b: Seq<u8>,
    q: int,
    end: int,
    cur: int,
    kind: int,
    t: Seq<Option<(usize, usize)>>,
) -> ListEnd
    decreases b.len() - cur,
{
    if cur < q || cur - q >= end || cur > b.len() {
        ListEnd::Next(cur, t)
    } else if cur + 8 > b.len() {
        ListEnd::Stop
    } else {
        let c = chunk_class(kind, tag_at(b, cur));
        let size = le_u32_at(b, cur + 4);
        if c == UNKNOWN_CHUNK {
            ListEnd::Stop
        } else if c == FOUR_BYTE_CHUNK {
            if cur + 12 > b.len() {
                ListEnd::Stop
            } else {
                walk_list(b, q, end, cur + 12, kind, t)
            }
        } else if cur + 8 + size > b.len() {
            ListEnd::Short
        } else {
            walk_list(
                b,
                q,
                end,
                cur + 8 + size,
                kind,
                if 0 <= c < 7 {
                    t.update(c, Some(((cur + 8) as usize, size as usize)))
                } else {
                    t
                },
            )
        }
    }
}

/// The list at `p` named `name`: "LIST", its size and its name, then its
/// sub-chunks (`walk_list`).
pub open spec fn read_list(b: Seq<u8>, p: int, name: int, kind: int, t: Seq<Option<(usize, usize)>>) -> ListEnd {
    if p < 0 || p + 12 > b.len() || tag_at(b, p) != LIST || tag_at(b, p + 8) != name {
        ListEnd::Stop
    } else {
        walk_list(b, p + 8, le_u32_at(b, p + 4), p + 12, kind, t)
    }
}

/// The records of `rec` bytes from `pos` up to `end`: for each record but
/// the last, where the next record's 16-bit index at `field` is above its
/// own, the next one's is at most `limit`. (`rustysynth` takes the
/// generators, or zones, from one record's index up to the next one's.)
pub open spec fn steps_fit(b: Seq<u8>, pos: int, end: int, rec: int, field: int, limit: int) -> bool
    decreases end - pos,
{
    if rec <= 0 || pos < 0 || pos + 2 * rec > end {
        true
    } else {
        (le_u16_at(b, pos + rec + field) > le_u16_at(b, pos + field) ==> le_u16_at(b, pos + rec + field) <= limit)
            && steps_fit(b, pos + rec, end, rec, field, limit)
    }
}

/// The parameter tables index inside one another: the instrument zones'
/// generators ("ibag" into "igen"), the instruments' zones ("inst" into
/// "ibag"), the preset zones' generators ("pbag" into "pgen") and the
/// presets' zones ("phdr" into "pbag"). Where a table is missing
/// `rustysynth` stops with an error, and nothing is asked.
pub open spec fn tables_fit(b: Seq<u8>, t: Seq<Option<(usize, usize)>>) -> bool {
    if t.len() != 7 || t[0] is None || t[1] is None || t[2] is None || t[3] is None || t[4] is None
        || t[5] is None || t[6] is None {
        true
    } else {
        let phdr = t[0]->0;
        let pbag = t[1]->0;
        let pgen = t[2]->0;
        let inst = t[3]->0;
        let ibag = t[4]->0;
        let igen = t[5]->0;
        &&& steps_fit(b, ibag.0 as int, ibag.0 + ibag.1, 4, 0, igen.1 / 4 - 1)
        &&& steps_fit(b, inst.0 as int, inst.0 + inst.1, 22, 20, ibag.1 / 4 - 1)
        &&& steps_fit(b, pbag.0 as int, pbag.0 + pbag.1, 4, 0, pgen.1 / 4 - 1)
        &&& steps_fit(b, phdr.0 as int, phdr.0 + phdr.1, 38, 24, pbag.1 / 4 - 1)
    }
}

/// Every table place lies inside `b`, with a size that a 32-bit number
/// holds.
pub open spec fn spans_inside(b: Seq<u8>, t: Seq<Option<(usize, usize)>>) -> bool {
    forall|i: int|
        #![trigger t[i]]
        0 <= i < t.len() ==> (t[i] matches Some((s, n)) ==> s + n <= b.len() && n <= u32::MAX)
}

/// No table seen yet.
pub open spec fn no_tables() -> Seq<Option<(usize, usize)>> {
    Seq::new(7, |i: int| None::<(usize, usize)>)
}

/// `rustysynth` reads the soundfont without indexing out of range and
/// without allocating for a sub-chunk more bytes than are left: after
/// "RIFF", a size and "sfbk", the information, sample and parameter lists
/// are read in turn (`read_list`), and the parameter tables index inside
/// one another (`tables_fit`). Where `rustysynth` stops with an error first,
/// nothing more is asked.
pub open spec fn soundfont_fits(b: Seq<u8>) -> bool {
    if b.len() < 12 || tag_at(b, 0) != RIFF || tag_at(b, 8) != SFBK {
        true
    } else {
        match read_list(b, 12, INFO as int, 0, no_tables()) {
            ListEnd::Stop => true,
            ListEnd::Short => false,
            ListEnd::Next(p1, _) => match read_list(b, p1, SDTA as int, 1, no_tables()) {
                ListEnd::Stop => true,
                ListEnd::Short => false,
                ListEnd::Next(p2, _) => match read_list(b, p2, PDTA as int, 2, no_tables()) {
                    ListEnd::Stop => true,
                    ListEnd::Short => false,
                    ListEnd::Next(_, t) => tables_fit(b, t),
                },
            },
        }
    }
}

fn tag_of(b: &[u8], i: usize) -> (r: u32)
    requires
        i + 4 <= b.len(),
    ensures
        r == tag_at(b@, i as int),
{
    b[i] as u32 * 0x100_0000 + b[i + 1] as u32 * 0x1_0000 + b[i + 2] as u32 * 0x100 + b[i + 3] as u32
}

fn le_u32_of(b: &[u8], i: usize) -> (r: u32)
    requires
        i + 4 <= b.len(),
    ensures
        r == le_u32_at(b@, i as int),
{
    b[i] as u32 + b[i + 1] as u32 * 0x100 + b[i + 2] as u32 * 0x1_0000 + b[i + 3] as u32 * 0x100_0000
}

fn le_u16_of(b: &[u8], i: usize) -> (r: u32)
    requires
        i + 2 <= b.len(),
    ensures
        r == le_u16_at(b@, i as int),
{
    b[i] as u32 + b[i + 1] as u32 * 0x100
}

fn class_of(kind: u8, tag: u32) -> (r: i8)
    ensures
        r == chunk_class(kind as int, tag as int),
{
    if kind == 0 {
        if tag == 0x6966_696C || tag == 0x6976_6572 {
            FOUR_BYTE_CHUNK
        } else if tag == 0x6973_6E67 || tag == 0x494E_414D || tag == 0x6972_6F6D || tag == 0x4943_5244
            || tag == 0x4945_4E47 || tag == 0x4950_5244 || tag == 0x4943_4F50 || tag == 0x4943_4D54
            || tag == 0x4953_4654 {
            OTHER_CHUNK
        } else {
            UNKNOWN_CHUNK
        }
    } else if kind == 1 {
        if tag == 0x736D_706C || tag == 0x736D_3234 {
            OTHER_CHUNK
        } else {
            UNKNOWN_CHUNK
        }
    } else {
        if tag == 0x7068_6472 {
            0
        } else if tag == 0x7062_6167 {
            1
        } else if tag == 0x7067_656E {
            2
        } else if tag == 0x696E_7374 {
            3
        } else if tag == 0x6962_6167 {
            4
        } else if tag == 0x6967_656E {
            5
        } else if tag == 0x7368_6472 {
            6
        } else if tag == 0x706D_6F64 || tag == 0x696D_6F64 {
            OTHER_CHUNK
        } else {
            UNKNOWN_CHUNK
        }
    }
}

/// How a list read by `walk_list` ended, with the tables kept apart.
enum ListStep {
    Stop,
    Short,
    Next(usize),
}

fn walk_list_of(
    b: &[u8],
    q: usize,
    end: u32,
    start: usize,
    kind: u8,
    tables: &mut Vec<Option<(usize, usize)>>,
) -> (r: ListStep)
    requires
        q <= start <= b.len(),
        old(tables)@.len() == 7,
        spans_inside(b@, old(tables)@),
    ensures
        final(tables)@.len() == 7,
        spans_inside(b@, final(tables)@),
        r matches ListStep::Next(p) ==> p <= b.len(),
        walk_list(b@, q as int, end as int, start as int, kind as int, old(tables)@) == match r {
            ListStep::Stop => ListEnd::Stop,
            ListStep::Short => ListEnd::Short,
            ListStep::Next(p) => ListEnd::Next(p as int, final(tables)@),
        },
{
    let mut cur: usize = start;
    while (cur - q) < end as usize
        invariant
            q <= cur <= b.len(),
            tables@.len() == 7,
            spans_inside(b@, tables@),
            walk_list(b@, q as int, end as int, start as int, kind as int, old(tables)@) == walk_list(
                b@,
                q as int,
                end as int,
                cur as int,
                kind as int,
                tables@,
            ),
        decreases b.len() - cur,
    {
        if b.len() - cur < 8 {
            return ListStep::Stop;
        }
        let c = class_of(kind, tag_of(b, cur));
        let size = le_u32_of(b, cur + 4);
        if c == UNKNOWN_CHUNK {
            return ListStep::Stop;
        } else if c == FOUR_BYTE_CHUNK {
            if b.len() - cur < 12 {
                return ListStep::Stop;
            }
            cur = cur + 12;
        } else {
            if size as usize > b.len() - (cur + 8) {
                return ListStep::Short;
            }
            if 0 <= c && c < 7 {
                tables.set(c as usize, Some((cur + 8, size as usize)));
            }
            cur = cur + 8 + size as usize;
        }
    }
    ListStep::Next(cur)
}

fn read_list_of(b: &[u8], p: usize, name: u32, kind: u8, tables: &mut Vec<Option<(usize, usize)>>) -> (r: ListStep)
    requires
        p <= b.len(),
        old(tables)@.len() == 7,
        spans_inside(b@, old(tables)@),
    ensures
        final(tables)@.len() == 7,
        spans_inside(b@, final(tables)@),
        r matches ListStep::Next(q) ==> q <= b.len(),
        read_list(b@, p as int, name as int, kind as int, old(tables)@) == match r {
            ListStep::Stop => ListEnd::Stop,
            ListStep::Short => ListEnd::Short,
            ListStep::Next(q) => ListEnd::Next(q as int, final(tables)@),
        },
{
    if b.len() - p < 12 || tag_of(b, p) != LIST || tag_of(b, p + 8) != name {
        return ListStep::Stop;
    }
    let end = le_u32_of(b, p + 4);
    walk_list_of(b, p + 8, end, p + 12, kind, tables)
}

fn check_steps(b: &[u8], start: usize, end: usize, rec: usize, field: usize, limit: i64) -> (r: bool)
    requires
        end <= b.len(),
        0 < rec <= 64,
        field + 2 <= rec,
    ensures
        r == steps_fit(b@, start as int, end as int, rec as int, field as int, limit as int),
{
    let mut pos: usize = start;
    while pos <= end && end - pos >= 2 * rec
        invariant
            end <= b.len(),
            0 < rec <= 64,
            field + 2 <= rec,
            steps_fit(b@, start as int, end as int, rec as int, field as int, limit as int) == steps_fit(
                b@,
                pos as int,
                end as int,
                rec as int,
                field as int,
                limit as int,
            ),
        decreases end - pos,
    {
        let here = le_u16_of(b, pos + field);
        let next = le_u16_of(b, pos + rec + field);
        if next > here && next as i64 > limit {
            return false;
        }
        pos = pos + rec;
    }
    true
}

fn no_tables_of() -> (r: Vec<Option<(usize, usize)>>)
    ensures
        r@ == no_tables(),
{
    let mut r: Vec<Option<(usize, usize)>> = Vec::new();
    let mut i: usize = 0;
    while i < 7
        invariant
            i <= 7,
            r@ == Seq::new(i as nat, |k: int| None::<(usize, usize)>),
        decreases 7 - i,
    {
        r.push(None);
        i += 1;
    }
    r
}

fn check_tables(b: &[u8], t: &Vec<Option<(usize, usize)>>) -> (r: bool)
    requires
        t@.len() == 7,
        spans_inside(b@, t@),
    ensures
        r == tables_fit(b@, t@),
{
    match (t[0], t[1], t[2], t[3], t[4], t[5], t[6]) {
        (Some(phdr), Some(pbag), Some(pgen), Some(inst), Some(ibag), Some(igen), Some(_)) => {
            assert(t@[0] == Some(phdr) && t@[1] == Some(pbag) && t@[2] == Some(pgen));
            assert(t@[3] == Some(inst) && t@[4] == Some(ibag) && t@[5] == Some(igen));
            assert(t@[0] matches Some((s, n)) ==> s + n <= b.len() && n <= u32::MAX);
            assert(t@[1] matches Some((s, n)) ==> s + n <= b.len() && n <= u32::MAX);
            assert(t@[2] matches Some((s, n)) ==> s + n <= b.len() && n <= u32::MAX);
            assert(t@[3] matches Some((s, n)) ==> s + n <= b.len() && n <= u32::MAX);
            assert(t@[4] matches Some((s, n)) ==> s + n <= b.len() && n <= u32::MAX);
            assert(t@[5] matches Some((s, n)) ==> s + n <= b.len() && n <= u32::MAX);
            check_steps(b, ibag.0, ibag.0 + ibag.1, 4, 0, igen.1 as i64 / 4 - 1)
                && check_steps(b, inst.0, inst.0 + inst.1, 22, 20, ibag.1 as i64 / 4 - 1)
                && check_steps(b, pbag.0, pbag.0 + pbag.1, 4, 0, pgen.1 as i64 / 4 - 1)
                && check_steps(b, phdr.0, phdr.0 + phdr.1, 38, 24, pbag.1 as i64 / 4 - 1)
        },
        _ => true,
    }
}

/// Whether `rustysynth` can read the bytes without indexing out of range or
/// allocating past them (`soundfont_fits`).
pub fn check_soundfont(b: &[u8]) -> (r: bool)
    ensures
        r == soundfont_fits(b@),
{
    if b.len() < 12 || tag_of(b, 0) != RIFF || tag_of(b, 8) != SFBK {
        return true;
    }
    let mut scratch = no_tables_of();
    let p1 = match read_list_of(b, 12, INFO, 0, &mut scratch) {
        ListStep::Stop => {
            return true;
        },
        ListStep::Short => {
            return false;
        },
        ListStep::Next(p) => p,
    };
    let mut scratch2 = no_tables_of();
    let p2 = match read_list_of(b, p1, SDTA, 1, &mut scratch2) {
        ListStep::Stop => {
            return true;
        },
        ListStep::Short => {
            return false;
        },
        ListStep::Next(p) => p,
    };
    let mut tables = no_tables_of();
    match read_list_of(b, p2, PDTA, 2, &mut tables) {
        ListStep::Stop => true,
        ListStep::Short => false,
        ListStep::Next(_) => check_tables(b, &tables),
    }
}

/// Whether `rustysynth` parses the bytes as a soundfont.
pub uninterp spec fn soundfont_parses(bytes: Seq<u8>) -> bool;

/// The soundfont that `rustysynth` parses from the bytes.
pub uninterp spec fn parsed_soundfont(bytes: Seq<u8>) -> SoundFont;

/// `SoundFont::new`, reading the bytes. Claimed: the call succeeds exactly
/// on the bytes named by `soundfont_parses`, and gives `parsed_soundfont` of
/// them. It indexes out of range where a parameter table points past
/// another (a zone's generators, an instrument's or a preset's zones), and
/// allocates what an information string, the sample data or a skipped
/// chunk declares before reading it; `requires` (`soundfont_fits`) leaves
/// those bytes out.
#[verifier::external_body]
fn parse_soundfont(bytes: &[u8]) -> (r: Result<SoundFont, SoundFontError>)
    requires
        soundfont_fits(bytes@),
    ensures
        r is Ok <==> soundfont_parses(bytes@),
        r matches Ok(f) ==> f == parsed_soundfont(bytes@),
{
    let mut reader: &[u8] = bytes;
    SoundFont::new(&mut reader)
}

/// The text of a soundfont error (`Display`). Nothing is stated of it.
#[verifier::external_body]
fn soundfont_error_text(e: &SoundFontError) -> String {
    e.to_string()
}

/// Parses the bytes of a soundfont. Bytes that fail `soundfont_fits` (a
/// table that points past another, a chunk longer than the bytes left), and
/// bytes that do not parse, give `FontParse`.
pub fn open_soundfont(bytes: &[u8]) -> (r: Result<SoundFont, MidiFlipperError>)
    ensures
        r is Ok <==> soundfont_fits(bytes@) && soundfont_parses(bytes@),
        r matches Ok(f) ==> f == parsed_soundfont(bytes@),
        r matches Err(e) ==> e is FontParse,
{
    if !check_soundfont(bytes) {
        return Err(
            MidiFlipperError::FontParse(
                String::from_str("a table of the soundfont points past another, or a chunk runs past the end"),
            ),
        );
    }
    match parse_soundfont(bytes) {
        Ok(f) => Ok(f),
        Err(e) => Err(MidiFlipperError::FontParse(soundfont_error_text(&e))),
    }
}

} // verus!
