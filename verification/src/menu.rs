//! The connection screen: the address field and the list of servers to pick.

use vstd::prelude::*;
use crate::settings::Server;
use crate::text::{append_chars, chars_eq, chars_of, string_of};

verus! {

broadcast use vstd::string::group_string_axioms;

// ─────────────────────────────────────────────
// The address field
// ─────────────────────────────────────────────

/// How many bytes the address field holds: no address is longer, and the
/// field must not spread over the whole screen.
pub const ADDRESS_LIMIT: usize = 48;

/// What the player typed, and why it was not accepted (empty when nothing is wrong).
pub struct AddressInput {
    pub text: String,
    pub error: &'static str,
}

/// A key press that reached the address field.
pub enum TypedKey {
    Backspace,
    /// The characters a key produced, in the current layout.
    Characters(String),
    Other,
}

/// What an address is made of: letters and digits of a name, dots, a colon
/// and a hyphen. Anything else is a typo.
pub open spec fn address_char(c: char) -> bool {
    ||| ('a' <= c && c <= 'z')
    ||| ('A' <= c && c <= 'Z')
    ||| ('0' <= c && c <= '9')
    ||| c == '.'
    ||| c == ':'
    ||| c == '-'
}

/// How many bytes a character takes in UTF-8.
pub open spec fn utf8_width(c: char) -> nat {
    if (c as u32) < 0x80 {
        1
    } else if (c as u32) < 0x800 {
        2
    } else if (c as u32) < 0x10000 {
        3
    } else {
        4
    }
}

/// How many bytes a text takes in UTF-8.
pub open spec fn utf8_len(s: Seq<char>) -> nat
    decreases s.len(),
{
    if s.len() == 0 {
        0
    } else {
        utf8_len(s.drop_last()) + utf8_width(s.last())
    }
}

/// The field after typing the characters `cs`, and whether anything was
/// taken: characters that belong to an address go in while the text is
/// shorter than the limit.
pub open spec fn typed_chars(text: Seq<char>, cs: Seq<char>) -> (Seq<char>, bool)
    decreases cs.len(),
{
    if cs.len() == 0 {
        (text, false)
    } else {
        let (before, taken) = typed_chars(text, cs.drop_last());
        let c = cs.last();
        if address_char(c) && utf8_len(before) < ADDRESS_LIMIT {
            (before.push(c), true)
        } else {
            (before, taken)
        }
    }
}

/// The field after a key: backspace takes the last character away and clears
/// the error; typed characters are filtered; other keys change nothing.
pub open spec fn pressed(text: Seq<char>, error: Seq<char>, key: TypedKey) -> (Seq<char>, Seq<char>) {
    match key {
        TypedKey::Backspace => (
            if text.len() > 0 {
                text.drop_last()
            } else {
                text
            },
            Seq::<char>::empty(),
        ),
        TypedKey::Characters(cs) => {
            let (after, taken) = typed_chars(text, cs@);
            (after, if taken {
                Seq::<char>::empty()
            } else {
                error
            })
        },
        TypedKey::Other => (text, error),
    }
}

fn char_width(c: char) -> (w: usize)
    ensures
        w == utf8_width(c),
{
    let u = c as u32;
    if u < 0x80 {
        1
    } else if u < 0x800 {
        2
    } else if u < 0x10000 {
        3
    } else {
        4
    }
}

fn is_address_char(c: char) -> (r: bool)
    ensures
        r == address_char(c),
{
    ('a' <= c && c <= 'z') || ('A' <= c && c <= 'Z') || ('0' <= c && c <= '9') || c == '.' || c == ':'
        || c == '-'
}

proof fn lemma_utf8_len_grows(s: Seq<char>)
    ensures
        utf8_len(s) >= s.len(),
    decreases s.len(),
{
    if s.len() > 0 {
        lemma_utf8_len_grows(s.drop_last());
    }
}

/// How many bytes this text takes, saturated at the limit of the field.
fn bytes_upto_limit(v: &Vec<char>) -> (n: usize)
    ensures
        n == (if utf8_len(v@) < ADDRESS_LIMIT { utf8_len(v@) } else { ADDRESS_LIMIT as nat }),
{
    let mut n: usize = 0;
    let mut i: usize = 0;
    while i < v.len()
        invariant
            i <= v@.len(),
            n == (if utf8_len(v@.take(i as int)) < ADDRESS_LIMIT {
                utf8_len(v@.take(i as int))
            } else {
                ADDRESS_LIMIT as nat
            }),
        decreases v@.len() - i,
    {
        assert(v@.take(i + 1).drop_last() =~= v@.take(i as int));
        let w = char_width(v[i]);
        if n + w < ADDRESS_LIMIT {
            n = n + w;
        } else {
            n = ADDRESS_LIMIT;
        }
        i += 1;
    }
    assert(v@.take(v@.len() as int) =~= v@);
    n
}

impl AddressInput {
    /// An empty field.
    pub fn new() -> (a: AddressInput)
        ensures
            a.text@.len() == 0,
            a.error@.len() == 0,
    {
        proof {
            reveal_strlit("");
        }
        AddressInput { text: String::new(), error: "" }
    }

    /// Applies one key press to the field.
    pub fn press(&mut self, key: &TypedKey)
        ensures
            (final(self).text@, final(self).error@) == pressed(old(self).text@, old(self).error@, *key),
    {
        match key {
            TypedKey::Backspace => {
                let mut v = chars_of(self.text.as_str());
                v.pop();
                self.text = string_of(&v);
                self.error = "";
                proof {
                    reveal_strlit("");
                }
            },
            TypedKey::Characters(cs) => {
                let typed = chars_of(cs.as_str());
                let mut v = chars_of(self.text.as_str());
                let mut used = bytes_upto_limit(&v);
                let mut taken = false;
                let mut i: usize = 0;
                while i < typed.len()
                    invariant
                        i <= typed@.len(),
                        typed@ == cs@,
                        (v@, taken) == typed_chars(old(self).text@, typed@.take(i as int)),
                        used == (if utf8_len(v@) < ADDRESS_LIMIT {
                            utf8_len(v@)
                        } else {
                            ADDRESS_LIMIT as nat
                        }),
                    decreases typed@.len() - i,
                {
                    assert(typed@.take(i + 1).drop_last() =~= typed@.take(i as int));
                    let c = typed[i];
                    if is_address_char(c) && used < ADDRESS_LIMIT {
                        let ghost before = v@;
                        v.push(c);
                        assert(v@.drop_last() =~= before);
                        assert((c as u32) < 0x80);
                        used = used + 1;
                        taken = true;
                    }
                    i += 1;
                }
                assert(typed@.take(typed@.len() as int) =~= typed@);
                self.text = string_of(&v);
                if taken {
                    self.error = "";
                    proof {
                        reveal_strlit("");
                    }
                }
            },
            TypedKey::Other => {},
        }
    }

    /// What the field shows: a hint when empty, the text with a caret, and
    /// the reason it was refused when it was.
    pub fn shown(&self) -> (s: String)
        ensures
            s@ == (if self.text@.len() == 0 {
                "впиши адрес: 192.168.1.10 или 192.168.1.10:5555"@
            } else if self.error@.len() == 0 {
                self.text@ + "▏"@
            } else {
                self.text@ + "▏   — "@ + self.error@
            }),
    {
        let t = chars_of(self.text.as_str());
        if t.len() == 0 {
            let v = chars_of("впиши адрес: 192.168.1.10 или 192.168.1.10:5555");
            return string_of(&v);
        }
        let e = chars_of(self.error);
        let mut v = t;
        if e.len() == 0 {
            let caret = chars_of("▏");
            append_chars(&mut v, &caret);
        } else {
            let tail = chars_of("▏   — ");
            append_chars(&mut v, &tail);
            append_chars(&mut v, &e);
        }
        string_of(&v)
    }
}

proof fn lemma_typed_chars(text: Seq<char>, cs: Seq<char>)
    requires
        utf8_len(text) <= ADDRESS_LIMIT,
        forall|i: int| 0 <= i < text.len() ==> address_char(#[trigger] text[i]),
    ensures
        utf8_len(typed_chars(text, cs).0) <= ADDRESS_LIMIT,
        forall|i: int|
            0 <= i < typed_chars(text, cs).0.len() ==> address_char(#[trigger] typed_chars(text, cs).0[i]),
    decreases cs.len(),
{
    if cs.len() > 0 {
        lemma_typed_chars(text, cs.drop_last());
        let before = typed_chars(text, cs.drop_last()).0;
        let c = cs.last();
        if address_char(c) && utf8_len(before) < ADDRESS_LIMIT {
            assert(before.push(c).drop_last() =~= before);
            assert forall|i: int| 0 <= i < before.push(c).len() implies address_char(#[trigger] before.push(c)[i]) by {
                if i < before.len() {
                    assert(before.push(c)[i] == before[i]);
                }
            }
        }
    }
}

/// The address field never holds more than its limit, nor a character that
/// does not belong to an address, whatever keys are pressed.
pub proof fn lemma_field_stays_an_address(text: Seq<char>, error: Seq<char>, key: TypedKey)
    requires
        utf8_len(text) <= ADDRESS_LIMIT,
        forall|i: int| 0 <= i < text.len() ==> address_char(#[trigger] text[i]),
    ensures
        utf8_len(pressed(text, error, key).0) <= ADDRESS_LIMIT,
        forall|i: int|
            0 <= i < pressed(text, error, key).0.len() ==> address_char(#[trigger] pressed(text, error, key).0[i]),
{
    match key {
        TypedKey::Backspace => {
            if text.len() > 0 {
                assert forall|i: int| 0 <= i < text.drop_last().len() implies address_char(#[trigger] text.drop_last()[i]) by {
                    assert(text.drop_last()[i] == text[i]);
                }
            }
        },
        TypedKey::Characters(cs) => {
            lemma_typed_chars(text, cs@);
        },
        TypedKey::Other => {},
    }
}

// ─────────────────────────────────────────────
// The list of servers
// ─────────────────────────────────────────────

/// Whether a row for this address is already listed.
pub open spec fn listed(rows: Seq<(Seq<char>, Seq<char>)>, address: Seq<char>) -> bool {
    exists|i: int| 0 <= i < rows.len() && #[trigger] rows[i].0 == address
}

/// The row of a server found on the network, from its menu label.
pub open spec fn found_row(found: (Seq<char>, Seq<char>)) -> (Seq<char>, Seq<char>) {
    (found.0, "в сети:  "@ + found.1)
}

/// The row of a remembered server: its name, or a word for a nameless one.
pub open spec fn saved_row(address: Seq<char>, name: Seq<char>) -> (Seq<char>, Seq<char>) {
    (address, (if name.len() == 0 {
        "сохранённый"@
    } else {
        name
    }) + ":  "@ + address)
}

/// The found servers, then the first `n` remembered ones not already listed.
pub open spec fn rows_upto(
    found: Seq<(Seq<char>, Seq<char>)>,
    saved: Seq<(Seq<char>, Seq<char>)>,
    n: int,
) -> Seq<(Seq<char>, Seq<char>)>
    decreases n,
{
    if n <= 0 {
        found.map_values(|f: (Seq<char>, Seq<char>)| found_row(f))
    } else {
        let before = rows_upto(found, saved, n - 1);
        if listed(before, saved[n - 1].0) {
            before
        } else {
            before.push(saved_row(saved[n - 1].0, saved[n - 1].1))
        }
    }
}

/// The rows of the server list: found servers first, then remembered ones
/// not found, then the address given at start-up as a fallback.
pub open spec fn server_rows_spec(
    found: Seq<(Seq<char>, Seq<char>)>,
    saved: Seq<(Seq<char>, Seq<char>)>,
    fallback: Seq<char>,
) -> Seq<(Seq<char>, Seq<char>)> {
    let rows = rows_upto(found, saved, saved.len() as int);
    if listed(rows, fallback) {
        rows
    } else {
        rows.push((fallback, "по умолчанию:  "@ + fallback))
    }
}

pub open spec fn pairs_view(v: Seq<(String, String)>) -> Seq<(Seq<char>, Seq<char>)> {
    v.map_values(|p: (String, String)| (p.0@, p.1@))
}

pub open spec fn saved_view(v: Seq<Server>) -> Seq<(Seq<char>, Seq<char>)> {
    v.map_values(|s: Server| (s.address@, s.name@))
}

fn copy_string(s: &String) -> (c: String)
    ensures
        c@ == s@,
{
    let v = chars_of(s.as_str());
    string_of(&v)
}

fn is_listed(rows: &Vec<(String, String)>, address: &[char]) -> (r: bool)
    ensures
        r == listed(pairs_view(rows@), address@),
{
    let mut i: usize = 0;
    while i < rows.len()
        invariant
            i <= rows@.len(),
            forall|j: int| 0 <= j < i ==> pairs_view(rows@)[j].0 != address@,
        decreases rows@.len() - i,
    {
        let here = chars_of(rows[i].0.as_str());
        if chars_eq(&here, address) {
            assert(pairs_view(rows@)[i as int].0 == address@);
            return true;
        }
        i += 1;
    }
    false
}

/// Builds the server list from the servers found on the network
/// (`(address, label)`), the remembered ones and the fallback address.
pub fn server_rows(found: &Vec<(String, String)>, saved: &Vec<Server>, fallback: &str) -> (rows: Vec<
    (String, String),
>)
    ensures
        pairs_view(rows@) == server_rows_spec(pairs_view(found@), saved_view(saved@), fallback@),
{
    let mut rows: Vec<(String, String)> = Vec::new();
    let mut i: usize = 0;
    while i < found.len()
        invariant
            i <= found@.len(),
            pairs_view(rows@) == pairs_view(found@).take(i as int).map_values(
                |f: (Seq<char>, Seq<char>)| found_row(f),
            ),
        decreases found@.len() - i,
    {
        let mut label = chars_of("в сети:  ");
        let l = chars_of(found[i].1.as_str());
        append_chars(&mut label, &l);
        let ghost before = pairs_view(rows@);
        rows.push((copy_string(&found[i].0), string_of(&label)));
        assert(pairs_view(rows@) =~= before.push(found_row(pairs_view(found@)[i as int])));
        assert(pairs_view(found@).take(i + 1).map_values(|f: (Seq<char>, Seq<char>)| found_row(f))
            =~= pairs_view(found@).take(i as int).map_values(|f: (Seq<char>, Seq<char>)| found_row(f)).push(
            found_row(pairs_view(found@)[i as int]),
        ));
        i += 1;
    }
    assert(pairs_view(found@).take(found@.len() as int) =~= pairs_view(found@));
    let mut k: usize = 0;
    while k < saved.len()
        invariant
            k <= saved@.len(),
            pairs_view(rows@) == rows_upto(pairs_view(found@), saved_view(saved@), k as int),
        decreases saved@.len() - k,
    {
        let address = chars_of(saved[k].address.as_str());
        if !is_listed(&rows, &address) {
            let name = chars_of(saved[k].name.as_str());
            let mut label = if name.len() == 0 {
                chars_of("сохранённый")
            } else {
                name
            };
            let sep = chars_of(":  ");
            append_chars(&mut label, &sep);
            append_chars(&mut label, &address);
            let ghost before = pairs_view(rows@);
            rows.push((string_of(&address), string_of(&label)));
            assert(pairs_view(rows@) =~= before.push(
                saved_row(saved_view(saved@)[k as int].0, saved_view(saved@)[k as int].1),
            ));
        }
        k += 1;
    }
    let fb = chars_of(fallback);
    if !is_listed(&rows, &fb) {
        let mut label = chars_of("по умолчанию:  ");
        append_chars(&mut label, &fb);
        let ghost before = pairs_view(rows@);
        rows.push((string_of(&fb), string_of(&label)));
        assert(pairs_view(rows@) =~= before.push((fallback@, "по умолчанию:  "@ + fallback@)));
    }
    rows
}

/// Every address appears once in the list, provided the found servers were
/// listed once each: a remembered server already found is not repeated.
pub proof fn lemma_rows_are_distinct(
    found: Seq<(Seq<char>, Seq<char>)>,
    saved: Seq<(Seq<char>, Seq<char>)>,
    fallback: Seq<char>,
)
    requires
        forall|i: int, j: int| 0 <= i < j < found.len() ==> #[trigger] found[i].0 != #[trigger] found[j].0,
    ensures
        forall|i: int, j: int|
            0 <= i < j < server_rows_spec(found, saved, fallback).len() ==> #[trigger] server_rows_spec(
                found,
                saved,
                fallback,
            )[i].0 != #[trigger] server_rows_spec(found, saved, fallback)[j].0,
{
    lemma_rows_upto_distinct(found, saved, saved.len() as int);
    let rows = rows_upto(found, saved, saved.len() as int);
    let all = server_rows_spec(found, saved, fallback);
    if !listed(rows, fallback) {
        assert forall|i: int, j: int| 0 <= i < j < all.len() implies #[trigger] all[i].0 != #[trigger] all[j].0 by {
            if j == rows.len() {
                assert(all[i] == rows[i]);
            }
        }
    }
}

proof fn lemma_rows_upto_distinct(
    found: Seq<(Seq<char>, Seq<char>)>,
    saved: Seq<(Seq<char>, Seq<char>)>,
    n: int,
)
    requires
        0 <= n <= saved.len(),
        forall|i: int, j: int| 0 <= i < j < found.len() ==> #[trigger] found[i].0 != #[trigger] found[j].0,
    ensures
        forall|i: int, j: int|
            0 <= i < j < rows_upto(found, saved, n).len() ==> #[trigger] rows_upto(found, saved, n)[i].0
                != #[trigger] rows_upto(found, saved, n)[j].0,
    decreases n,
{
    if n == 0 {
        let rows = rows_upto(found, saved, 0);
        assert forall|i: int, j: int| 0 <= i < j < rows.len() implies #[trigger] rows[i].0 != #[trigger] rows[j].0 by {
            assert(rows[i].0 == found[i].0);
            assert(rows[j].0 == found[j].0);
        }
    } else {
        lemma_rows_upto_distinct(found, saved, n - 1);
        let before = rows_upto(found, saved, n - 1);
        let rows = rows_upto(found, saved, n);
        if !listed(before, saved[n - 1].0) {
            assert forall|i: int, j: int| 0 <= i < j < rows.len() implies #[trigger] rows[i].0 != #[trigger] rows[j].0 by {
                if j == before.len() {
                    assert(rows[i] == before[i]);
                } else {
                    assert(rows[i] == before[i]);
                    assert(rows[j] == before[j]);
                }
            }
        }
    }
}

} // verus!
