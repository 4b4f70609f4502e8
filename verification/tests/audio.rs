use cellborn::audio::{wav, watch, Cues, Seen, RATE};

fn pcm_tone(count: usize) -> Vec<i16> {
    (0..count).map(|i| ((i as f32 * 0.3).sin() * 8000.0) as i16).collect()
}

#[test]
fn generated_wav_has_a_valid_header() {
    for samples in [pcm_tone(3), pcm_tone(1000), vec![i16::MIN, -1, 0, 1, i16::MAX]] {
        let bytes = wav(&samples);
        assert!(bytes.len() > 44, "пустой звук");
        assert_eq!(&bytes[0..4], b"RIFF");
        assert_eq!(&bytes[8..12], b"WAVE");
        assert_eq!(&bytes[36..40], b"data");
        // The size in the header must match the data that is really attached.
        let declared = u32::from_le_bytes([bytes[40], bytes[41], bytes[42], bytes[43]]);
        assert_eq!(declared as usize, bytes.len() - 44, "размер в заголовке врёт");
        let riff = u32::from_le_bytes([bytes[4], bytes[5], bytes[6], bytes[7]]);
        assert_eq!(riff as usize, bytes.len() - 8);
    }
}

#[test]
fn the_format_block_describes_mono_16_bit() {
    let bytes = wav(&[0]);
    assert_eq!(&bytes[12..16], b"fmt ");
    assert_eq!(u32::from_le_bytes([bytes[16], bytes[17], bytes[18], bytes[19]]), 16);
    assert_eq!(u16::from_le_bytes([bytes[20], bytes[21]]), 1, "PCM");
    assert_eq!(u16::from_le_bytes([bytes[22], bytes[23]]), 1, "mono");
    assert_eq!(u32::from_le_bytes([bytes[24], bytes[25], bytes[26], bytes[27]]), RATE);
    assert_eq!(u32::from_le_bytes([bytes[28], bytes[29], bytes[30], bytes[31]]), RATE * 2);
    assert_eq!(u16::from_le_bytes([bytes[32], bytes[33]]), 2);
    assert_eq!(u16::from_le_bytes([bytes[34], bytes[35]]), 16);
}

#[test]
fn samples_are_stored_little_endian_in_order() {
    let samples = [i16::MIN, -2, 0, 258, i16::MAX];
    let bytes = wav(&samples);
    assert_eq!(bytes.len(), 44 + 10);
    for (i, s) in samples.iter().enumerate() {
        let at = 44 + i * 2;
        assert_eq!(i16::from_le_bytes([bytes[at], bytes[at + 1]]), *s);
    }
    assert_eq!(wav(&[]).len(), 44);
}

#[test]
fn sounds_come_from_changes_and_not_after_a_respawn() {
    let mut seen = Seen { divisions: 0, parts: 0 };
    // The first look only remembers.
    assert_eq!(watch(&mut seen, Some((2, 5)), true), Cues { division: false, mutation: false });
    assert_eq!(watch(&mut seen, Some((3, 5)), true), Cues { division: true, mutation: false });
    assert_eq!(watch(&mut seen, Some((3, 6)), true), Cues { division: false, mutation: true });
    assert_eq!(watch(&mut seen, Some((4, 7)), false), Cues { division: false, mutation: false });
    assert_eq!(seen, Seen { divisions: 4, parts: 7 });
    // Dead, then back with a bigger body: silence.
    assert_eq!(watch(&mut seen, None, true), Cues { division: false, mutation: false });
    assert_eq!(seen, Seen { divisions: 0, parts: 0 });
    assert_eq!(watch(&mut seen, Some((9, 20)), true), Cues { division: false, mutation: false });
}
