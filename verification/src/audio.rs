//! Sound files made on the fly.
//!
//! Every sound of the game is synthesised; what reaches the audio engine is a
//! 16-bit mono WAV. The header is short and fully described here, so no
//! encoder is needed for forty-four bytes.

use vstd::prelude::*;

verus! {

/// Samples per second. Forty-four kilohertz is too much for sine waves,
/// twenty-two is exactly what is needed, and half the memory.
pub const RATE: u32 = 22_050;

/// A 32-bit number, least significant byte first.
pub open spec fn le32(x: nat) -> Seq<u8> {
    seq![(x % 256) as u8, ((x / 256) % 256) as u8, ((x / 65536) % 256) as u8, ((x / 16777216) % 256) as u8]
}

/// A 16-bit number, least significant byte first.
pub open spec fn le16(x: nat) -> Seq<u8> {
    seq![(x % 256) as u8, ((x / 256) % 256) as u8]
}

/// A sample in two's complement, least significant byte first.
pub open spec fn sample_bytes(s: i16) -> Seq<u8> {
    le16(if s >= 0 { s as nat } else { (s + 65536) as nat })
}

/// The header of a WAV holding `count` samples.
pub open spec fn wav_header(count: nat) -> Seq<u8> {
    let data_len = count * 2;
    seq![82u8, 73u8, 70u8, 70u8] + le32(36 + data_len) + seq![87u8, 65u8, 86u8, 69u8, 102u8, 109u8, 116u8, 32u8]
        + le32(16) + le16(1) + le16(1) + le32(RATE as nat) + le32(RATE as nat * 2) + le16(2) + le16(16)
        + seq![100u8, 97u8, 116u8, 97u8] + le32(data_len)
}

/// The bytes of all samples, in order.
pub open spec fn samples_bytes(pcm: Seq<i16>) -> Seq<u8>
    decreases pcm.len(),
{
    if pcm.len() == 0 {
        seq![]
    } else {
        samples_bytes(pcm.drop_last()) + sample_bytes(pcm.last())
    }
}

fn push_le32(out: &mut Vec<u8>, x: u32)
    ensures
        final(out)@ == old(out)@ + le32(x as nat),
{
    out.push((x % 256) as u8);
    out.push(((x / 256) % 256) as u8);
    out.push(((x / 65536) % 256) as u8);
    out.push(((x / 16777216) % 256) as u8);
    assert(final(out)@ =~= old(out)@ + le32(x as nat));
}

fn push_le16(out: &mut Vec<u8>, x: u32)
    requires
        x < 65536,
    ensures
        final(out)@ == old(out)@ + le16(x as nat),
{
    out.push((x % 256) as u8);
    out.push(((x / 256) % 256) as u8);
    assert(final(out)@ =~= old(out)@ + le16(x as nat));
}

fn push_bytes(out: &mut Vec<u8>, bytes: &[u8])
    ensures
        final(out)@ == old(out)@ + bytes@,
{
    let mut i: usize = 0;
    while i < bytes.len()
        invariant
            i <= bytes@.len(),
            out@ == old(out)@ + bytes@.take(i as int),
        decreases bytes@.len() - i,
    {
        out.push(bytes[i]);
        assert(bytes@.take(i + 1) =~= bytes@.take(i as int).push(bytes@[i as int]));
        i += 1;
    }
    assert(bytes@.take(bytes@.len() as int) =~= bytes@);
}

/// Wraps 16-bit samples into a WAV that the audio engine can read.
pub fn wav(pcm: &[i16]) -> (out: Vec<u8>)
    requires
        pcm@.len() * 2 + 36 <= u32::MAX,
    ensures
        out@ == wav_header(pcm@.len()) + samples_bytes(pcm@),
{
    let data_len = pcm.len() as u32 * 2;
    let mut out: Vec<u8> = Vec::new();
    push_bytes(&mut out, &[82u8, 73u8, 70u8, 70u8]);
    push_le32(&mut out, 36 + data_len);
    push_bytes(&mut out, &[87u8, 65u8, 86u8, 69u8, 102u8, 109u8, 116u8, 32u8]);
    push_le32(&mut out, 16);
    push_le16(&mut out, 1);
    push_le16(&mut out, 1);
    push_le32(&mut out, RATE);
    push_le32(&mut out, RATE * 2);
    push_le16(&mut out, 2);
    push_le16(&mut out, 16);
    push_bytes(&mut out, &[100u8, 97u8, 116u8, 97u8]);
    push_le32(&mut out, data_len);
    assert(out@ =~= wav_header(pcm@.len()));
    let ghost header = out@;
    let mut i: usize = 0;
    while i < pcm.len()
        invariant
            i <= pcm@.len(),
            header == wav_header(pcm@.len()),
            out@ == header + samples_bytes(pcm@.take(i as int)),
        decreases pcm@.len() - i,
    {
        let s = pcm[i];
        let u: u32 = if s >= 0 {
            s as u32
        } else {
            (s as i32 + 65536) as u32
        };
        assert(pcm@.take(i + 1).drop_last() =~= pcm@.take(i as int));
        push_le16(&mut out, u);
        assert(out@ =~= header + samples_bytes(pcm@.take(i + 1)));
        i += 1;
    }
    assert(pcm@.take(pcm@.len() as int) =~= pcm@);
    out
}

proof fn lemma_samples_len(pcm: Seq<i16>)
    ensures
        samples_bytes(pcm).len() == pcm.len() * 2,
    decreases pcm.len(),
{
    if pcm.len() > 0 {
        lemma_samples_len(pcm.drop_last());
    }
}

/// A WAV tells the truth about itself: the data size in its header is exactly
/// what follows the forty-four header bytes, and the RIFF size is everything
/// after the first eight.
pub proof fn lemma_wav_sizes_agree(pcm: Seq<i16>)
    requires
        pcm.len() * 2 + 36 <= u32::MAX,
    ensures
        (wav_header(pcm.len()) + samples_bytes(pcm)).len() == 44 + pcm.len() * 2,
        (wav_header(pcm.len()) + samples_bytes(pcm)).subrange(40, 44) == le32(((wav_header(pcm.len()) + samples_bytes(pcm)).len() - 44) as nat),
        (wav_header(pcm.len()) + samples_bytes(pcm)).subrange(4, 8) == le32(((wav_header(pcm.len()) + samples_bytes(pcm)).len() - 8) as nat),
{
    lemma_samples_len(pcm);
    let w = wav_header(pcm.len()) + samples_bytes(pcm);
    assert(wav_header(pcm.len()).len() == 44);
    assert(w.subrange(40, 44) =~= le32(pcm.len() * 2));
    assert(w.subrange(4, 8) =~= le32(36 + pcm.len() * 2));
}

// ─────────────────────────────────────────────
// Which sounds to play
// ─────────────────────────────────────────────

/// What the client saw of its own body last frame: how many times it had
/// divided and how many parts it had. Zero means "nothing seen yet".
#[derive(Debug, Clone, Copy, PartialEq, Eq, Structural)]
pub struct Seen {
    pub divisions: u32,
    pub parts: usize,
}

/// The sounds one frame asks for.
#[derive(Debug, Clone, Copy, PartialEq, Eq, Structural)]
pub struct Cues {
    pub division: bool,
    pub mutation: bool,
}

/// What the frame plays and remembers. The client sees states, not events, so
/// a sound comes from the difference with the last frame: the division count
/// grew, or the body has more parts. Without a body the memory is cleared, so
/// that a respawn does not bring a volley of sounds for everything that
/// happened meanwhile.
pub open spec fn watched(seen: Seen, mine: Option<(u32, usize)>, audible: bool) -> (Seen, Cues) {
    match mine {
        None => (Seen { divisions: 0, parts: 0 }, Cues { division: false, mutation: false }),
        Some((divisions, parts)) => (
            Seen { divisions, parts },
            Cues {
                division: divisions > seen.divisions && seen.divisions > 0 && audible,
                mutation: parts > seen.parts && seen.parts > 0 && audible,
            },
        ),
    }
}

/// Looks at the own body (`None` while there is none) and says which sounds
/// to play; `audible` is whether the effects volume is above zero.
pub fn watch(seen: &mut Seen, mine: Option<(u32, usize)>, audible: bool) -> (c: Cues)
    ensures
        (*final(seen), c) == watched(*old(seen), mine, audible),
{
    match mine {
        None => {
            seen.divisions = 0;
            seen.parts = 0;
            Cues { division: false, mutation: false }
        },
        Some((divisions, parts)) => {
            let c = Cues {
                division: divisions > seen.divisions && seen.divisions > 0 && audible,
                mutation: parts > seen.parts && seen.parts > 0 && audible,
            };
            seen.divisions = divisions;
            seen.parts = parts;
            c
        },
    }
}

/// No volley after a respawn: the first frame with a body after a frame
/// without one plays nothing, whatever the body has become.
pub proof fn lemma_no_volley_after_respawn(seen: Seen, body: (u32, usize), audible: bool)
    ensures
        watched(watched(seen, None, audible).0, Some(body), audible).1 == (Cues {
            division: false,
            mutation: false,
        }),
{
}

} // verus!
