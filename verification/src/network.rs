//! Network constants shared by the client and the server, and the little
//! protocol by which a client finds servers on the local network.
//!
//! Both sides must agree on these values: the handshake fails if the protocol
//! id differs, and discovery only works if the probe and reply match.

use vstd::prelude::*;
use core::time::Duration;
use crate::text::{
    chars_of, decimal, lemma_decimal_reads_back, lemma_find_unique, lemma_split_concat,
    parse_u16, parse_unsigned, parse_usize, push_decimal, slice_chars, split, split_chars,
    starts_with, has_prefix, string_of, append_chars, unsigned_digits, find, views,
};
use vstd::utf8::{decode_utf8, valid_utf8};

verus! {

broadcast use vstd::string::group_string_axioms;

/// Rate at which the fixed simulation step runs, per second.
pub const TICK_RATE_HZ: u64 = 64;

/// Default port the server listens on.
pub const SERVER_PORT: u16 = 5555;

/// Identifies this game (and its protocol version) during the handshake.
pub const PROTOCOL_ID: u64 = 0x0C_E1_1B_02;

/// The port on which a server answers searches on the local network.
///
/// Separate from the game port on purpose: the game port belongs to the
/// netcode protocol, and mixing other packets into it is a sure way to break
/// the handshake one day for the sake of a menu.
pub const DISCOVERY_PORT: u16 = SERVER_PORT + 1;

/// Seconds in which a discovered server that stopped answering is forgotten.
pub const DISCOVERY_TIMEOUT_SECS: u64 = 6;

/// The length of a `Duration` in nanoseconds.
pub uninterp spec fn duration_nanos(d: Duration) -> nat;

/// `Duration::from_nanos`: a duration of exactly this many nanoseconds.
#[verifier::external_body]
fn duration_from_nanos(nanos: u64) -> (d: Duration)
    ensures
        duration_nanos(d) == nanos,
{
    Duration::from_nanos(nanos)
}

/// How long one simulation tick lasts: 1/64 s, 15.625 ms.
pub fn tick_duration() -> (d: Duration)
    ensures
        duration_nanos(d) == 1_000_000_000nat / (TICK_RATE_HZ as nat),
        duration_nanos(d) == 15_625_000,
{
    duration_from_nanos(1_000_000_000 / TICK_RATE_HZ)
}

// ─────────────────────────────────────────────
// Discovery on the local network
// ─────────────────────────────────────────────

/// What a client shouts into the network looking for a server: `CELLBORN?1`.
pub open spec fn probe_bytes() -> Seq<u8> {
    seq![67u8, 69u8, 76u8, 76u8, 66u8, 79u8, 82u8, 78u8, 63u8, 49u8]
}

/// How a server answers a probe, before its details: `CELLBORN!1`.
pub open spec fn reply_prefix() -> Seq<char> {
    seq!['C', 'E', 'L', 'L', 'B', 'O', 'R', 'N', '!', '1']
}

/// The probe packet.
pub fn discovery_probe() -> (p: Vec<u8>)
    ensures
        p@ == probe_bytes(),
{
    let p: Vec<u8> = vec![67u8, 69u8, 76u8, 76u8, 66u8, 79u8, 82u8, 78u8, 63u8, 49u8];
    assert(p@ =~= probe_bytes());
    p
}

/// Whether a packet that reached the discovery port is a probe: it begins
/// with the probe's bytes. Anything else on that port is ignored.
pub fn is_probe(packet: &[u8]) -> (r: bool)
    ensures
        r == (packet@.len() >= 10 && packet@.take(10) == probe_bytes()),
{
    let probe = discovery_probe();
    if packet.len() < 10 {
        return false;
    }
    let mut i: usize = 0;
    while i < 10
        invariant
            i <= 10,
            packet@.len() >= 10,
            probe@ == probe_bytes(),
            forall|j: int| 0 <= j < i ==> packet@[j] == probe@[j],
        decreases 10 - i,
    {
        if packet[i] != probe[i] {
            assert(packet@.take(10)[i as int] != probe_bytes()[i as int]);
            return false;
        }
        i += 1;
    }
    assert(packet@.take(10) =~= probe_bytes());
    true
}

/// The text of a server's answer: its game port, connected players,
/// organisms alive and version, `CELLBORN!1<port>|<players>|<organisms>|<version>`.
pub open spec fn reply_text_spec(port: u16, players: usize, organisms: usize, version: Seq<char>) -> Seq<char> {
    reply_prefix() + decimal(port as nat) + seq!['|'] + decimal(players as nat) + seq!['|']
        + decimal(organisms as nat) + seq!['|'] + version
}

/// Builds a server's answer to a probe. What goes on the wire is its UTF-8.
pub fn reply_text(port: u16, players: usize, organisms: usize, version: &str) -> (s: String)
    ensures
        s@ == reply_text_spec(port, players, organisms, version@),
{
    let mut out: Vec<char> = vec!['C', 'E', 'L', 'L', 'B', 'O', 'R', 'N', '!', '1'];
    assert(out@ =~= reply_prefix());
    push_decimal(&mut out, port as u64);
    out.push('|');
    push_decimal(&mut out, players as u64);
    out.push('|');
    push_decimal(&mut out, organisms as u64);
    out.push('|');
    let v = chars_of(version);
    append_chars(&mut out, &v);
    assert(out@ =~= reply_text_spec(port, players, organisms, version@));
    string_of(&out)
}

/// What a client learns from a server's answer.
pub struct ServerReply {
    /// The game port: the answer comes from the discovery port, but play
    /// happens on this one.
    pub port: u16,
    pub players: usize,
    pub organisms: usize,
    pub version: String,
}

impl ServerReply {
    /// The line of the server menu for a found server: its address and what
    /// is going on there.
    pub fn label(&self, address: &str) -> (s: String)
        ensures
            s@ == address@ + "   игроков "@ + decimal(self.players as nat) + "   особей "@ + decimal(
                self.organisms as nat,
            ) + "   v"@ + self.version@,
    {
        let mut v = chars_of(address);
        let a = chars_of("   игроков ");
        append_chars(&mut v, &a);
        push_decimal(&mut v, self.players as u64);
        let b = chars_of("   особей ");
        append_chars(&mut v, &b);
        push_decimal(&mut v, self.organisms as u64);
        let c = chars_of("   v");
        append_chars(&mut v, &c);
        let ver = chars_of(self.version.as_str());
        append_chars(&mut v, &ver);
        string_of(&v)
    }
}

/// What an answer's text says, or `None` for anything that is not an answer.
///
/// The port must be readable; an unreadable count of players or organisms
/// reads as zero; a missing version reads as `?`.
pub open spec fn reply_fields(text: Seq<char>) -> Option<(u16, usize, usize, Seq<char>)> {
    if !starts_with(text, reply_prefix()) {
        None
    } else {
        let pieces = split(text.skip(10), '|');
        match parse_unsigned(pieces[0], u16::MAX as nat) {
            None => None,
            Some(port) => if pieces.len() < 3 {
                None
            } else {
                Some(
                    (
                        port as u16,
                        match parse_unsigned(pieces[1], usize::MAX as nat) {
                            Some(n) => n as usize,
                            None => 0usize,
                        },
                        match parse_unsigned(pieces[2], usize::MAX as nat) {
                            Some(n) => n as usize,
                            None => 0usize,
                        },
                        if pieces.len() > 3 {
                            pieces[3]
                        } else {
                            seq!['?']
                        },
                    ),
                )
            },
        }
    }
}

/// What an answer's bytes say: nothing unless they are UTF-8 text.
pub open spec fn reply_of_bytes(bytes: Seq<u8>) -> Option<(u16, usize, usize, Seq<char>)> {
    if valid_utf8(bytes) {
        reply_fields(decode_utf8(bytes))
    } else {
        None
    }
}

/// `std::str::from_utf8`: the text these bytes encode, if they are UTF-8.
#[verifier::external_body]
fn utf8_text(bytes: &[u8]) -> (r: Option<&str>)
    ensures
        r is Some <==> valid_utf8(bytes@),
        r matches Some(s) ==> s@ == decode_utf8(bytes@),
{
    std::str::from_utf8(bytes).ok()
}

fn field_or_zero(pieces: &Vec<Vec<char>>, k: usize) -> (n: usize)
    requires
        k < pieces@.len(),
    ensures
        n == (match parse_unsigned(views(pieces@)[k as int], usize::MAX as nat) {
            Some(n) => n as usize,
            None => 0usize,
        }),
{
    match parse_usize(&pieces[k]) {
        Some(n) => n,
        None => 0,
    }
}

/// Reads a server's answer. Rubbish on the discovery port is ignored quietly.
pub fn parse_reply(bytes: &[u8]) -> (r: Option<ServerReply>)
    ensures
        match r {
            Some(reply) => reply_of_bytes(bytes@) == Some(
                (reply.port, reply.players, reply.organisms, reply.version@),
            ),
            None => reply_of_bytes(bytes@) is None,
        },
{
    let text = match utf8_text(bytes) {
        Some(t) => t,
        None => {
            return None;
        },
    };
    let chars = chars_of(text);
    let prefix: Vec<char> = vec!['C', 'E', 'L', 'L', 'B', 'O', 'R', 'N', '!', '1'];
    assert(prefix@ =~= reply_prefix());
    if !has_prefix(&chars, &prefix) {
        return None;
    }
    let rest = slice_chars(&chars, 10, chars.len());
    assert(rest@ =~= chars@.skip(10));
    let pieces = split_chars(&rest, '|');
    proof {
        crate::text::lemma_split_nonempty(rest@, '|');
    }
    let port = match parse_u16(&pieces[0]) {
        Some(p) => p,
        None => {
            return None;
        },
    };
    if pieces.len() < 3 {
        return None;
    }
    let players = field_or_zero(&pieces, 1);
    let organisms = field_or_zero(&pieces, 2);
    let version = if pieces.len() > 3 {
        string_of(&pieces[3])
    } else {
        string_of(&['?'])
    };
    proof {
        if pieces@.len() <= 3 {
            assert(['?']@ =~= seq!['?']);
        }
    }
    Some(ServerReply { port, players, organisms, version })
}

/// Whatever a server answers, a client reads back exactly the port, the
/// counts and the version it sent — as long as the version has no `|` in it.
pub proof fn lemma_reply_round_trip(port: u16, players: usize, organisms: usize, version: Seq<char>)
    requires
        find(version, '|') == version.len(),
    ensures
        reply_of_bytes(vstd::utf8::encode_utf8(reply_text_spec(port, players, organisms, version)))
            == Some((port, players, organisms, version)),
{
    let text = reply_text_spec(port, players, organisms, version);
    vstd::utf8::encode_utf8_valid_utf8(text);
    vstd::utf8::encode_utf8_decode_utf8(text);
    let d1 = decimal(port as nat);
    let d2 = decimal(players as nat);
    let d3 = decimal(organisms as nat);
    lemma_decimal_reads_back(port as nat);
    lemma_decimal_reads_back(players as nat);
    lemma_decimal_reads_back(organisms as nat);
    assert(text.take(10) =~= reply_prefix());
    let rest = text.skip(10);
    assert(rest =~= d1 + seq!['|'] + (d2 + seq!['|'] + (d3 + seq!['|'] + version)));
    lemma_split_concat(d1, d2 + seq!['|'] + (d3 + seq!['|'] + version), '|');
    lemma_split_concat(d2, d3 + seq!['|'] + version, '|');
    lemma_split_concat(d3, version, '|');
    lemma_find_unique(d1, '|', d1.len() as int);
    lemma_find_unique(d2, '|', d2.len() as int);
    lemma_find_unique(d3, '|', d3.len() as int);
    assert(split(d1, '|') == seq![d1]);
    assert(split(d2, '|') == seq![d2]);
    assert(split(d3, '|') == seq![d3]);
    assert(split(version, '|') == seq![version]);
    let pieces = split(rest, '|');
    assert(pieces =~= seq![d1, d2, d3, version]);
    assert(unsigned_digits(d1) == d1);
    assert(unsigned_digits(d2) == d2);
    assert(unsigned_digits(d3) == d3);
}

} // verus!
