use midi_flipper::error::MidiFlipperError;
use midi_flipper::soundfont::{check_soundfont, open_soundfont};

fn chunk(id: &[u8; 4], data: &[u8]) -> Vec<u8> {
    let mut v = id.to_vec();
    v.extend_from_slice(&(data.len() as u32).to_le_bytes());
    v.extend_from_slice(data);
    v
}

fn list(name: &[u8; 4], chunks: &[Vec<u8>]) -> Vec<u8> {
    let mut data = name.to_vec();
    for c in chunks {
        data.extend_from_slice(c);
    }
    chunk(b"LIST", &data)
}

fn named(start: u16, extra_before: usize) -> Vec<u8> {
    let mut r = vec![0u8; 20 + extra_before];
    r[0] = b'X';
    r.extend_from_slice(&start.to_le_bytes());
    r
}

/// A soundfont of one preset on one instrument, neither with a region;
/// `second_instrument_start` is where the terminating instrument's zones
/// start.
fn soundfont(second_instrument_start: u16) -> Vec<u8> {
    let info = list(b"INFO", &[chunk(b"INAM", b"Tiny\0\0")]);
    let sdta = list(b"sdta", &[chunk(b"smpl", &[0, 0, 0, 0])]);
    let mut phdr = Vec::new();
    for start in [0u16, 1] {
        phdr.extend_from_slice(&named(start, 4));
        phdr.extend_from_slice(&[0u8; 12]);
    }
    let mut inst = Vec::new();
    inst.extend_from_slice(&named(0, 0));
    inst.extend_from_slice(&named(second_instrument_start, 0));
    let bag = vec![0u8; 8];
    let pdta = list(
        b"pdta",
        &[
            chunk(b"phdr", &phdr),
            chunk(b"pbag", &bag),
            chunk(b"pmod", &[0u8; 10]),
            chunk(b"pgen", &[0u8; 4]),
            chunk(b"inst", &inst),
            chunk(b"ibag", &bag),
            chunk(b"imod", &[0u8; 10]),
            chunk(b"igen", &[0u8; 4]),
            chunk(b"shdr", &[0u8; 46]),
        ],
    );
    let mut body = b"sfbk".to_vec();
    body.extend_from_slice(&info);
    body.extend_from_slice(&sdta);
    body.extend_from_slice(&pdta);
    chunk(b"RIFF", &body)
}

#[test]
fn a_small_soundfont_opens() {
    let bytes = soundfont(1);
    assert!(check_soundfont(&bytes));
    let font = open_soundfont(&bytes).ok().unwrap();
    assert_eq!(font.get_info().get_bank_name(), "Tiny");
    assert_eq!(font.get_presets().len(), 1);
    assert_eq!(font.get_instruments().len(), 1);
}

#[test]
fn an_instrument_pointing_past_the_zones_is_refused() {
    let bytes = soundfont(5);
    assert!(!check_soundfont(&bytes));
    assert!(matches!(open_soundfont(&bytes), Err(MidiFlipperError::FontParse(_))));
}

#[test]
fn a_chunk_longer_than_the_file_is_refused() {
    let mut bytes = soundfont(1);
    // The information list's bank name claims a million bytes.
    let at = bytes.windows(4).position(|w| w == b"INAM").unwrap();
    bytes[at + 4..at + 8].copy_from_slice(&1_000_000u32.to_le_bytes());
    assert!(!check_soundfont(&bytes));
    assert!(matches!(open_soundfont(&bytes), Err(MidiFlipperError::FontParse(_))));
}

#[test]
fn bytes_that_are_no_soundfont_give_a_parse_error() {
    assert!(check_soundfont(b"not a soundfont"));
    match open_soundfont(b"not a soundfont") {
        Err(MidiFlipperError::FontParse(text)) => assert!(!text.is_empty()),
        _ => panic!("expected a soundfont error"),
    }
}
