//! The player's settings: volume and remembered servers.
//!
//! They live in a file next to the game and **survive updates**. The format is
//! the same `key = value` as the server's. Unknown keys are kept as they are: a
//! file written by a newer version must not lose data when an older one runs.

use vstd::prelude::*;
use crate::config::{entry_of_line, lemma_entry_line, plain_key, plain_value};
use crate::text::{
    append_chars, before_comment, chars_eq, chars_of, find, find_char, is_space, lemma_find,
    lemma_find_unique, lemma_trim_plain, lines, lines_of, slice_chars, split_once,
    split_once_chars, string_of, trim, trim_end, trim_start, trimmed, views, joined,
    lemma_lines_joined, one_line, push_line, lemma_trimmed_ends,
};
use crate::config::entry_of;

verus! {

broadcast use vstd::string::group_string_axioms;

/// The file the game keeps its settings in.
pub const SETTINGS_NAME: &'static str = "cellborn.cfg";

/// How many servers are remembered. More is not memory but a dump.
pub const REMEMBERED_SERVERS: usize = 8;

/// A remembered server.
pub struct Server {
    pub address: String,
    /// What the player called it, or how it introduced itself when found.
    pub name: String,
}

pub open spec fn server_view(s: Server) -> (Seq<char>, Seq<char>) {
    (s.address@, s.name@)
}

pub open spec fn servers_view(v: Seq<Server>) -> Seq<(Seq<char>, Seq<char>)> {
    v.map_values(|s: Server| server_view(s))
}

/// The list without any entry for this address.
pub open spec fn without_address(servers: Seq<(Seq<char>, Seq<char>)>, address: Seq<char>) -> Seq<(Seq<char>, Seq<char>)>
    decreases servers.len(),
{
    if servers.len() == 0 {
        seq![]
    } else {
        without_address(servers.drop_last(), address) + if servers.last().0 == address {
            seq![]
        } else {
            seq![servers.last()]
        }
    }
}

/// The list after remembering a server: it goes on top, any older entry for
/// the same address goes away, and only the first eight stay.
pub open spec fn remembered(servers: Seq<(Seq<char>, Seq<char>)>, address: Seq<char>, name: Seq<char>) -> Seq<(Seq<char>, Seq<char>)> {
    let all = seq![(address, name)] + without_address(servers, address);
    all.take(if all.len() <= REMEMBERED_SERVERS { all.len() as int } else { REMEMBERED_SERVERS as int })
}

fn copy_server(s: &Server) -> (c: Server)
    ensures
        server_view(c) == server_view(*s),
{
    let a = chars_of(s.address.as_str());
    let n = chars_of(s.name.as_str());
    Server { address: string_of(&a), name: string_of(&n) }
}

/// Moves a server to the top of the list, adding it if it is new.
///
/// The top is the last one that worked: that is the one a player wants to go
/// back to, and the one put in the address field next time.
pub fn remember(servers: &mut Vec<Server>, address: &str, name: &str)
    ensures
        servers_view(final(servers)@) == remembered(servers_view(old(servers)@), address@, name@),
{
    let wanted = chars_of(address);
    let n = chars_of(name);
    let mut kept: Vec<Server> = Vec::new();
    kept.push(Server { address: string_of(&wanted), name: string_of(&n) });
    let mut i: usize = 0;
    while i < servers.len()
        invariant
            i <= servers@.len(),
            servers@ == old(servers)@,
            wanted@ == address@,
            servers_view(kept@) == seq![(address@, name@)] + without_address(
                servers_view(servers@).take(i as int),
                address@,
            ),
        decreases servers@.len() - i,
    {
        let ghost before = servers_view(servers@).take(i as int);
        let ghost after = servers_view(servers@).take(i + 1);
        assert(after.drop_last() =~= before);
        assert(after.last() == server_view(servers@[i as int]));
        let here = chars_of(servers[i].address.as_str());
        let ghost old_kept = kept@;
        if !chars_eq(&here, &wanted) {
            let c = copy_server(&servers[i]);
            kept.push(c);
            assert(servers_view(kept@) =~= servers_view(old_kept).push(after.last()));
        }
        assert(servers_view(kept@) =~= seq![(address@, name@)] + without_address(after, address@));
        i += 1;
    }
    assert(servers_view(servers@).take(servers@.len() as int) =~= servers_view(servers@));
    kept.truncate(REMEMBERED_SERVERS);
    assert(servers_view(kept@) =~= remembered(servers_view(old(servers)@), address@, name@));
    *servers = kept;
}

proof fn lemma_without_has_no_address(servers: Seq<(Seq<char>, Seq<char>)>, address: Seq<char>)
    ensures
        forall|i: int| 0 <= i < without_address(servers, address).len() ==> #[trigger] without_address(servers, address)[i].0 != address,
        without_address(servers, address).len() <= servers.len(),
    decreases servers.len(),
{
    if servers.len() > 0 {
        lemma_without_has_no_address(servers.drop_last(), address);
    }
}

proof fn lemma_without_unchanged(servers: Seq<(Seq<char>, Seq<char>)>, address: Seq<char>)
    requires
        forall|i: int| 0 <= i < servers.len() ==> #[trigger] servers[i].0 != address,
    ensures
        without_address(servers, address) == servers,
    decreases servers.len(),
{
    if servers.len() > 0 {
        lemma_without_unchanged(servers.drop_last(), address);
        assert(servers.drop_last().push(servers.last()) =~= servers);
    }
}

/// Remembering a server puts it on top with its newest name, keeps at most
/// eight, and never lists its address twice.
pub proof fn lemma_remember_on_top(servers: Seq<(Seq<char>, Seq<char>)>, address: Seq<char>, name: Seq<char>)
    ensures
        remembered(servers, address, name).len() <= REMEMBERED_SERVERS,
        remembered(servers, address, name).len() >= 1,
        remembered(servers, address, name)[0] == (address, name),
        forall|i: int| 1 <= i < remembered(servers, address, name).len() ==> #[trigger] remembered(servers, address, name)[i].0 != address,
{
    lemma_without_has_no_address(servers, address);
    let all = seq![(address, name)] + without_address(servers, address);
    assert forall|i: int| 1 <= i < remembered(servers, address, name).len() implies #[trigger] remembered(servers, address, name)[i].0 != address by {
        assert(remembered(servers, address, name)[i] == all[i]);
        assert(all[i] == without_address(servers, address)[i - 1]);
    }
}

/// Reconnecting to the same server does not breed duplicates: remembering it
/// again changes nothing.
pub proof fn lemma_remember_twice(servers: Seq<(Seq<char>, Seq<char>)>, address: Seq<char>, name: Seq<char>)
    ensures
        remembered(remembered(servers, address, name), address, name) == remembered(servers, address, name),
{
    let once = remembered(servers, address, name);
    lemma_remember_on_top(servers, address, name);
    let tail = once.drop_first();
    assert(once =~= seq![once[0]] + tail);
    assert forall|i: int| 0 <= i < tail.len() implies #[trigger] tail[i].0 != address by {
        assert(tail[i] == once[i + 1]);
    }
    lemma_without_unchanged(tail, address);
    lemma_without_first(once, address);
    let twice_all = seq![(address, name)] + without_address(once, address);
    assert(twice_all =~= once);
}

proof fn lemma_without_first(s: Seq<(Seq<char>, Seq<char>)>, address: Seq<char>)
    requires
        s.len() >= 1,
        s[0].0 == address,
    ensures
        without_address(s, address) == without_address(s.drop_first(), address),
    decreases s.len(),
{
    if s.len() == 1 {
        assert(s.drop_last() =~= Seq::<(Seq<char>, Seq<char>)>::empty());
        assert(s.drop_first() =~= Seq::<(Seq<char>, Seq<char>)>::empty());
    } else {
        lemma_without_first(s.drop_last(), address);
        assert(s.drop_last().drop_first() =~= s.drop_first().drop_last());
        assert(s.drop_first().last() == s.last());
    }
}

// ─────────────────────────────────────────────
// The settings file
// ─────────────────────────────────────────────

/// One of the three volume sliders.
#[derive(Debug, Clone, Copy, PartialEq, Eq, Structural)]
pub enum Gain {
    /// Overall volume.
    Volume,
    /// Music, relative to the overall volume.
    Music,
    /// Effects, relative to the overall volume.
    Effects,
}

/// A volume setting a line gives, with its value as written.
pub open spec fn line_gain(raw: Seq<char>) -> Option<(Gain, Seq<char>)> {
    match entry_of_line(raw) {
        Some((key, value)) => if key == "volume"@ {
            Some((Gain::Volume, value))
        } else if key == "music"@ {
            Some((Gain::Music, value))
        } else if key == "effects"@ {
            Some((Gain::Effects, value))
        } else {
            None
        },
        None => None,
    }
}

/// A remembered server a line gives: `server = <address> <name>`.
pub open spec fn line_server(raw: Seq<char>) -> Option<(Seq<char>, Seq<char>)> {
    match entry_of_line(raw) {
        Some((key, value)) => if key == "server"@ {
            let (address, name) = match split_once(value, ' ') {
                Some((a, n)) => (a, n),
                None => (value, Seq::<char>::empty()),
            };
            if address.len() == 0 {
                None
            } else {
                Some((address, trim(name)))
            }
        } else {
            None
        },
        None => None,
    }
}

/// A line this version does not understand, kept whole (trimmed).
pub open spec fn line_unknown(raw: Seq<char>) -> Option<Seq<char>> {
    match entry_of_line(raw) {
        Some((key, value)) => if key == "volume"@ || key == "music"@ || key == "effects"@ || key
            == "server"@ {
            None
        } else {
            Some(trim(raw))
        },
        None => None,
    }
}

pub open spec fn gains_of(ls: Seq<Seq<char>>) -> Seq<(Gain, Seq<char>)>
    decreases ls.len(),
{
    if ls.len() == 0 {
        seq![]
    } else {
        gains_of(ls.drop_last()) + match line_gain(ls.last()) {
            Some(g) => seq![g],
            None => seq![],
        }
    }
}

pub open spec fn servers_of(ls: Seq<Seq<char>>) -> Seq<(Seq<char>, Seq<char>)>
    decreases ls.len(),
{
    if ls.len() == 0 {
        seq![]
    } else {
        servers_of(ls.drop_last()) + match line_server(ls.last()) {
            Some(s) => seq![s],
            None => seq![],
        }
    }
}

pub open spec fn unknown_of(ls: Seq<Seq<char>>) -> Seq<Seq<char>>
    decreases ls.len(),
{
    if ls.len() == 0 {
        seq![]
    } else {
        unknown_of(ls.drop_last()) + match line_unknown(ls.last()) {
            Some(u) => seq![u],
            None => seq![],
        }
    }
}

/// What a settings file says, sorted by kind, each in the order written.
pub struct SettingsText {
    /// Volume settings with their values as written; the last readable one of
    /// each slider wins.
    pub gains: Vec<(Gain, String)>,
    pub servers: Vec<Server>,
    /// Lines no setting claimed, to be written back untouched.
    pub unknown: Vec<String>,
}

pub open spec fn gains_view(v: Seq<(Gain, String)>) -> Seq<(Gain, Seq<char>)> {
    v.map_values(|g: (Gain, String)| (g.0, g.1@))
}

pub open spec fn strings_view(v: Seq<String>) -> Seq<Seq<char>> {
    v.map_values(|s: String| s@)
}

fn key_is(key: &[char], name: &str) -> (r: bool)
    ensures
        r == (key@ == name@),
{
    let n = chars_of(name);
    chars_eq(key, &n)
}

/// Reads a settings file.
pub fn parse_settings(text: &str) -> (r: SettingsText)
    ensures
        gains_view(r.gains@) == gains_of(lines(text@)),
        servers_view(r.servers@) == servers_of(lines(text@)),
        strings_view(r.unknown@) == unknown_of(lines(text@)),
{
    let chars = chars_of(text);
    let ls = lines_of(&chars);
    let mut gains: Vec<(Gain, String)> = Vec::new();
    let mut servers: Vec<Server> = Vec::new();
    let mut unknown: Vec<String> = Vec::new();
    let mut i: usize = 0;
    while i < ls.len()
        invariant
            i <= ls@.len(),
            views(ls@) == lines(text@),
            gains_view(gains@) == gains_of(views(ls@).take(i as int)),
            servers_view(servers@) == servers_of(views(ls@).take(i as int)),
            strings_view(unknown@) == unknown_of(views(ls@).take(i as int)),
        decreases ls@.len() - i,
    {
        let ghost before = views(ls@).take(i as int);
        let ghost after = views(ls@).take(i + 1);
        let ghost raw = ls@[i as int]@;
        assert(after.drop_last() =~= before);
        assert(after.last() == raw);
        let ghost g0 = gains@;
        let ghost s0 = servers@;
        let ghost u0 = unknown@;
        proof {
            reveal_strlit("volume");
            reveal_strlit("music");
            reveal_strlit("effects");
            reveal_strlit("server");
            assert("volume"@ != "server"@) by {
                assert("volume"@[0] != "server"@[0]);
            }
            assert("music"@.len() != "server"@.len());
            assert("effects"@.len() != "server"@.len());
        }
        match entry_of(&ls[i]) {
            Some(entry) => {
                if key_is(&entry.key, "volume") {
                    gains.push((Gain::Volume, string_of(&entry.value)));
                    assert(gains_view(gains@) =~= gains_view(g0).push(line_gain(raw)->0));
                } else if key_is(&entry.key, "music") {
                    gains.push((Gain::Music, string_of(&entry.value)));
                    assert(gains_view(gains@) =~= gains_view(g0).push(line_gain(raw)->0));
                } else if key_is(&entry.key, "effects") {
                    gains.push((Gain::Effects, string_of(&entry.value)));
                    assert(gains_view(gains@) =~= gains_view(g0).push(line_gain(raw)->0));
                } else if key_is(&entry.key, "server") {
                    let (address, name) = match split_once_chars(&entry.value, ' ') {
                        Some((a, n)) => (a, n),
                        None => (slice_chars(&entry.value, 0, entry.value.len()), Vec::new()),
                    };
                    proof {
                        if split_once(entry.value@, ' ') is None {
                            assert(address@ =~= entry.value@);
                            assert(name@ =~= Seq::<char>::empty());
                        }
                    }
                    if address.len() > 0 {
                        let name = trimmed(&name);
                        servers.push(Server { address: string_of(&address), name: string_of(&name) });
                        assert(servers_view(servers@) =~= servers_view(s0).push(line_server(raw)->0));
                    }
                } else {
                    let whole = trimmed(&ls[i]);
                    unknown.push(string_of(&whole));
                    assert(strings_view(unknown@) =~= strings_view(u0).push(line_unknown(raw)->0));
                }
            },
            None => {},
        }
        assert(gains_view(gains@) =~= gains_of(after));
        assert(servers_view(servers@) =~= servers_of(after));
        assert(strings_view(unknown@) =~= unknown_of(after));
        i += 1;
    }
    assert(views(ls@).take(ls@.len() as int) =~= views(ls@));
    SettingsText { gains, servers, unknown }
}

/// The line that writes a remembered server: `server = <address> <name>`.
pub open spec fn server_line_spec(address: Seq<char>, name: Seq<char>) -> Seq<char> {
    "server = "@ + address + seq![' '] + name
}

/// The line of the settings file that remembers this server.
pub fn server_line(server: &Server) -> (s: String)
    ensures
        s@ == server_line_spec(server.address@, server.name@),
{
    let mut v = chars_of("server = ");
    let a = chars_of(server.address.as_str());
    append_chars(&mut v, &a);
    v.push(' ');
    let n = chars_of(server.name.as_str());
    append_chars(&mut v, &n);
    string_of(&v)
}

/// An address that can be written on a settings line and read back: not
/// empty, no white space and no `#` in it.
pub open spec fn plain_address(a: Seq<char>) -> bool {
    &&& a.len() > 0
    &&& forall|i: int| 0 <= i < a.len() ==> !is_space(#[trigger] a[i]) && a[i] != '#'
}

/// A name that can be written on a settings line and read back: trimmed, no `#`.
pub open spec fn plain_name(n: Seq<char>) -> bool {
    &&& trim(n) == n
    &&& forall|i: int| 0 <= i < n.len() ==> #[trigger] n[i] != '#'
}

/// A server written with a plain address and name reads back as exactly that
/// server: the settings file keeps the list of servers across restarts.
pub proof fn lemma_server_line_reads_back(address: Seq<char>, name: Seq<char>)
    requires
        plain_address(address),
        plain_name(name),
    ensures
        line_server(server_line_spec(address, name)) == Some((address, name)),
        line_gain(server_line_spec(address, name)) is None,
        line_unknown(server_line_spec(address, name)) is None,
{
    reveal_strlit("server = ");
    reveal_strlit("server");
    let line = server_line_spec(address, name);
    let a = address;
    let n = name;
    let al = a.len() as int;
    assert(line.len() == 9 + al + 1 + n.len());
    assert forall|j: int| 0 <= j < line.len() implies line[j] != '#' && (j < 7 ==> line[j] != '=') by {
        if 9 <= j < 9 + al {
            assert(line[j] == a[j - 9]);
        } else if j >= 9 + al + 1 {
            assert(line[j] == n[j - 10 - al]);
        }
    }
    lemma_find_unique(line, '#', line.len() as int);
    assert(before_comment(line) =~= line);
    lemma_find_unique(line, '=', 7);
    let body = if n.len() == 0 {
        "server = "@ + a
    } else {
        line
    };
    assert(a[al - 1] != '#' && !is_space(a[al - 1]));
    if n.len() > 0 {
        lemma_trimmed_ends(n);
        assert(line.last() == n.last());
        lemma_trim_plain(line);
    } else {
        assert(line.drop_last() =~= body);
        assert(trim_start(line) == line);
        assert(trim_end(line) == trim_end(body));
        assert(body.last() == a[al - 1]);
        lemma_trim_plain(body);
        assert(trim_start(body) == body);
    }
    assert(trim(before_comment(line)) == body);
    lemma_find_unique(body, '=', 7);
    let key = body.take(7);
    let value = body.skip(8);
    assert(key =~= "server"@ + seq![' ']);
    assert(key.drop_last() =~= "server"@);
    lemma_trim_plain("server"@);
    assert(trim_start(key) == key);
    assert(trim(key) == "server"@);
    assert(value.drop_first() =~= body.skip(9));
    assert(trim_start(value) == trim_start(body.skip(9)));
    let rest = body.skip(9);
    if n.len() > 0 {
        assert(rest =~= a + seq![' '] + n);
        assert(rest.last() == n.last());
        lemma_trim_plain(rest);
        assert(trim(value) == rest);
        assert forall|j: int| 0 <= j < al implies rest[j] != ' ' by {
            assert(rest[j] == a[j]);
        }
        lemma_find_unique(rest, ' ', al);
        assert(rest.take(al) =~= a);
        assert(rest.skip(al + 1) =~= n);
    } else {
        assert(rest =~= a);
        lemma_trim_plain(rest);
        assert(trim(value) == a);
        assert forall|j: int| 0 <= j < al implies rest[j] != ' ' by {
            assert(rest[j] == a[j]);
        }
        lemma_find_unique(rest, ' ', al);
        assert(trim(Seq::<char>::empty()) =~= Seq::<char>::empty());
        assert(n =~= Seq::<char>::empty());
    }
    reveal_strlit("volume");
    reveal_strlit("music");
    reveal_strlit("effects");
}

// ─────────────────────────────────────────────
// Writing the settings file
// ─────────────────────────────────────────────

/// The comment above the volumes, line by line.
pub open spec fn settings_head() -> Seq<Seq<char>> {
    seq![
        "# Настройки игры Cellborn."@,
        "# Правятся прямо здесь; обновление игры этот файл не трогает."@,
        Seq::<char>::empty(),
        "# Громкость, от 0 до 1."@,
    ]
}

/// The three volume lines, each value as it is to be written.
pub open spec fn gain_lines(volume: Seq<char>, music: Seq<char>, effects: Seq<char>) -> Seq<Seq<char>> {
    seq!["volume = "@ + volume, "music = "@ + music, "effects = "@ + effects]
}

/// The comment above the servers.
pub open spec fn servers_head() -> Seq<Seq<char>> {
    seq![Seq::<char>::empty(), "# Запомненные серверы: адрес и имя через пробел."@]
}

/// The comment above the lines this version did not understand.
pub open spec fn unknown_head() -> Seq<Seq<char>> {
    seq![
        Seq::<char>::empty(),
        "# Строки, которых эта версия игры не знает. Скорее всего их"@,
        "# записала более новая версия — они сохранены нетронутыми."@,
    ]
}

pub open spec fn server_lines(servers: Seq<(Seq<char>, Seq<char>)>) -> Seq<Seq<char>> {
    servers.map_values(|s: (Seq<char>, Seq<char>)| server_line_spec(s.0, s.1))
}

/// Every line of the settings file: volumes, remembered servers, and the
/// lines of a newer version kept untouched.
pub open spec fn settings_lines(
    volume: Seq<char>,
    music: Seq<char>,
    effects: Seq<char>,
    servers: Seq<(Seq<char>, Seq<char>)>,
    unknown: Seq<Seq<char>>,
) -> Seq<Seq<char>> {
    settings_head() + gain_lines(volume, music, effects) + servers_head() + server_lines(servers) + (
    if unknown.len() == 0 {
        Seq::<Seq<char>>::empty()
    } else {
        unknown_head() + unknown
    })
}

fn text_line(key: &str, value: &str) -> (s: String)
    ensures
        s@ == key@ + value@,
{
    let mut v = chars_of(key);
    let w = chars_of(value);
    append_chars(&mut v, &w);
    string_of(&v)
}

/// Writes the settings file; the volumes come already written as text.
pub fn settings_file_text(
    volume: &str,
    music: &str,
    effects: &str,
    servers: &Vec<Server>,
    unknown: &Vec<String>,
) -> (s: String)
    ensures
        s@ == joined(settings_lines(volume@, music@, effects@, servers_view(servers@), strings_view(unknown@))),
{
    let ghost all = settings_lines(volume@, music@, effects@, servers_view(servers@), strings_view(unknown@));
    let ghost fixed = settings_head() + gain_lines(volume@, music@, effects@) + servers_head();
    assert forall|i: int| 0 <= i < 9 implies #[trigger] all[i] == fixed[i] by {}
    let mut v: Vec<char> = Vec::new();
    assert(all.take(0) =~= Seq::<Seq<char>>::empty());
    let l0 = "# Настройки игры Cellborn.";
    let l1 = "# Правятся прямо здесь; обновление игры этот файл не трогает.";
    let l3 = "# Громкость, от 0 до 1.";
    let l8 = "# Запомненные серверы: адрес и имя через пробел.";
    let vol = text_line("volume = ", volume);
    let mus = text_line("music = ", music);
    let eff = text_line("effects = ", effects);
    proof {
        reveal_strlit("");
        assert forall|k: int| 0 <= k < 9 implies all.take(k).push(all[k]) =~= #[trigger] all.take(k + 1) by {}
        assert(all[2] == ""@);
        assert(all[7] == ""@);
        assert(all[0] == l0@);
        assert(all[1] == l1@);
        assert(all[3] == l3@);
        assert(all[8] == l8@);
        assert(all[4] == vol@);
        assert(all[5] == mus@);
        assert(all[6] == eff@);
    }
    push_line(&mut v, l0, Ghost(all.take(0)));
    push_line(&mut v, l1, Ghost(all.take(1)));
    push_line(&mut v, "", Ghost(all.take(2)));
    push_line(&mut v, l3, Ghost(all.take(3)));
    push_line(&mut v, vol.as_str(), Ghost(all.take(4)));
    push_line(&mut v, mus.as_str(), Ghost(all.take(5)));
    push_line(&mut v, eff.as_str(), Ghost(all.take(6)));
    push_line(&mut v, "", Ghost(all.take(7)));
    push_line(&mut v, l8, Ghost(all.take(8)));
    let mut i: usize = 0;
    while i < servers.len()
        invariant
            i <= servers@.len(),
            all == settings_lines(volume@, music@, effects@, servers_view(servers@), strings_view(unknown@)),
            v@ == joined(all.take(9 + i)),
        decreases servers@.len() - i,
    {
        let line = server_line(&servers[i]);
        assert(all[9 + i] == line@);
        push_line(&mut v, line.as_str(), Ghost(all.take(9 + i)));
        assert(all.take(9 + i).push(all[9 + i]) =~= all.take(9 + i + 1));
        i += 1;
    }
    let ghost base: int = 9 + servers@.len() as int;
    if unknown.len() > 0 {
        let u1 = "# Строки, которых эта версия игры не знает. Скорее всего их";
        let u2 = "# записала более новая версия — они сохранены нетронутыми.";
        proof {
            reveal_strlit("");
            assert forall|k: int| base <= k < base + 3 implies all.take(k).push(all[k]) =~= #[trigger] all.take(k + 1) by {}
            assert(all[base] == Seq::<char>::empty());
            assert(all[base + 1] == u1@);
            assert(all[base + 2] == u2@);
        }
        push_line(&mut v, "", Ghost(all.take(base)));
        push_line(&mut v, u1, Ghost(all.take(base + 1)));
        push_line(&mut v, u2, Ghost(all.take(base + 2)));
        let mut k: usize = 0;
        while k < unknown.len()
            invariant
                k <= unknown@.len(),
                base == 9 + servers@.len(),
                unknown@.len() > 0,
                all == settings_lines(volume@, music@, effects@, servers_view(servers@), strings_view(unknown@)),
                v@ == joined(all.take(base + 3 + k)),
            decreases unknown@.len() - k,
        {
            assert(all[base + 3 + k] == unknown@[k as int]@);
            push_line(&mut v, unknown[k].as_str(), Ghost(all.take(base + 3 + k)));
            assert(all.take(base + 3 + k).push(all[base + 3 + k]) =~= all.take(base + 3 + k + 1));
            k += 1;
        }
    }
    assert(all.take(all.len() as int) =~= all);
    string_of(&v)
}

proof fn lemma_gains_concat(x: Seq<Seq<char>>, y: Seq<Seq<char>>)
    ensures
        gains_of(x + y) == gains_of(x) + gains_of(y),
        servers_of(x + y) == servers_of(x) + servers_of(y),
        unknown_of(x + y) == unknown_of(x) + unknown_of(y),
    decreases y.len(),
{
    if y.len() == 0 {
        assert(x + y =~= x);
        assert(gains_of(x) + gains_of(y) =~= gains_of(x));
        assert(servers_of(x) + servers_of(y) =~= servers_of(x));
        assert(unknown_of(x) + unknown_of(y) =~= unknown_of(x));
    } else {
        assert((x + y).drop_last() =~= x + y.drop_last());
        lemma_gains_concat(x, y.drop_last());
        assert(gains_of(x + y) =~= gains_of(x) + gains_of(y));
        assert(servers_of(x + y) =~= servers_of(x) + servers_of(y));
        assert(unknown_of(x + y) =~= unknown_of(x) + unknown_of(y));
    }
}

proof fn lemma_single(l: Seq<char>)
    ensures
        gains_of(seq![l]) == (match line_gain(l) {
            Some(g) => seq![g],
            None => Seq::<(Gain, Seq<char>)>::empty(),
        }),
        servers_of(seq![l]) == (match line_server(l) {
            Some(x) => seq![x],
            None => Seq::<(Seq<char>, Seq<char>)>::empty(),
        }),
        unknown_of(seq![l]) == (match line_unknown(l) {
            Some(u) => seq![u],
            None => Seq::<Seq<char>>::empty(),
        }),
{
    let e = Seq::<Seq<char>>::empty();
    assert(seq![l].drop_last() =~= e);
    assert(seq![l].last() == l);
    assert(gains_of(e) == Seq::<(Gain, Seq<char>)>::empty());
    assert(servers_of(e) == Seq::<(Seq<char>, Seq<char>)>::empty());
    assert(unknown_of(e) == Seq::<Seq<char>>::empty());
    assert(gains_of(seq![l]) =~= (match line_gain(l) {
        Some(g) => seq![g],
        None => Seq::<(Gain, Seq<char>)>::empty(),
    }));
    assert(servers_of(seq![l]) =~= (match line_server(l) {
        Some(x) => seq![x],
        None => Seq::<(Seq<char>, Seq<char>)>::empty(),
    }));
    assert(unknown_of(seq![l]) =~= (match line_unknown(l) {
        Some(u) => seq![u],
        None => Seq::<Seq<char>>::empty(),
    }));
}

/// Lines that say nothing: comments and blank lines.
proof fn lemma_silent(ls: Seq<Seq<char>>)
    requires
        forall|i: int| 0 <= i < ls.len() ==> entry_of_line(#[trigger] ls[i]) is None,
    ensures
        gains_of(ls) == Seq::<(Gain, Seq<char>)>::empty(),
        servers_of(ls) == Seq::<(Seq<char>, Seq<char>)>::empty(),
        unknown_of(ls) == Seq::<Seq<char>>::empty(),
    decreases ls.len(),
{
    if ls.len() > 0 {
        let front = ls.drop_last();
        assert forall|i: int| 0 <= i < front.len() implies entry_of_line(#[trigger] front[i]) is None by {
            assert(front[i] == ls[i]);
        }
        lemma_silent(front);
        assert(entry_of_line(ls[ls.len() - 1]) is None);
    }
}

proof fn lemma_comment_says_nothing(l: Seq<char>)
    requires
        l.len() == 0 || l[0] == '#',
    ensures
        entry_of_line(l) is None,
{
    if l.len() > 0 {
        lemma_find_unique(l, '#', 0);
    } else {
        lemma_find_unique(l, '#', 0);
    }
    assert(before_comment(l) =~= Seq::<char>::empty());
    assert(trim(Seq::<char>::empty()) =~= Seq::<char>::empty());
    lemma_find_unique(Seq::<char>::empty(), '=', 0);
}

/// A line this version keeps for a newer one: trimmed, whole, an entry
/// whose key it does not know.
pub open spec fn foreign_line(u: Seq<char>) -> bool {
    &&& trim(u) == u
    &&& one_line(u)
    &&& match entry_of_line(u) {
        Some((key, value)) => key != "volume"@ && key != "music"@ && key != "effects"@ && key != "server"@,
        None => false,
    }
}

proof fn lemma_server_lines(servers: Seq<(Seq<char>, Seq<char>)>)
    requires
        forall|i: int|
            0 <= i < servers.len() ==> plain_address(#[trigger] servers[i].0) && plain_name(servers[i].1),
    ensures
        gains_of(server_lines(servers)) == Seq::<(Gain, Seq<char>)>::empty(),
        servers_of(server_lines(servers)) == servers,
        unknown_of(server_lines(servers)) == Seq::<Seq<char>>::empty(),
    decreases servers.len(),
{
    if servers.len() > 0 {
        let front = servers.drop_last();
        assert forall|i: int| 0 <= i < front.len() implies plain_address(#[trigger] front[i].0) && plain_name(front[i].1) by {
            assert(front[i] == servers[i]);
        }
        lemma_server_lines(front);
        assert(server_lines(servers).drop_last() =~= server_lines(front));
        let last = servers.last();
        assert(plain_address(servers[servers.len() - 1].0));
        lemma_server_line_reads_back(last.0, last.1);
        assert(servers =~= front.push(last));
    } else {
        assert(server_lines(servers) =~= Seq::<Seq<char>>::empty());
    }
}

proof fn lemma_foreign_lines(unknown: Seq<Seq<char>>)
    requires
        forall|i: int| 0 <= i < unknown.len() ==> foreign_line(#[trigger] unknown[i]),
    ensures
        gains_of(unknown) == Seq::<(Gain, Seq<char>)>::empty(),
        servers_of(unknown) == Seq::<(Seq<char>, Seq<char>)>::empty(),
        unknown_of(unknown) == unknown,
    decreases unknown.len(),
{
    if unknown.len() > 0 {
        let front = unknown.drop_last();
        assert forall|i: int| 0 <= i < front.len() implies foreign_line(#[trigger] front[i]) by {
            assert(front[i] == unknown[i]);
        }
        lemma_foreign_lines(front);
        assert(foreign_line(unknown[unknown.len() - 1]));
        assert(unknown =~= front.push(unknown.last()));
    }
}

/// The settings file survives a write and a read: the volumes come back as
/// written, every remembered server with a plain address and name comes
/// back in order, and so does every line of a newer version.
pub proof fn lemma_settings_file_round_trip(
    volume: Seq<char>,
    music: Seq<char>,
    effects: Seq<char>,
    servers: Seq<(Seq<char>, Seq<char>)>,
    unknown: Seq<Seq<char>>,
)
    requires
        plain_value(volume),
        plain_value(music),
        plain_value(effects),
        forall|i: int|
            0 <= i < servers.len() ==> plain_address(#[trigger] servers[i].0) && plain_name(servers[i].1)
                && one_line(servers[i].1),
        forall|i: int| 0 <= i < unknown.len() ==> foreign_line(#[trigger] unknown[i]),
    ensures
        gains_of(lines(joined(settings_lines(volume, music, effects, servers, unknown)))) == seq![
            (Gain::Volume, volume),
            (Gain::Music, music),
            (Gain::Effects, effects),
        ],
        servers_of(lines(joined(settings_lines(volume, music, effects, servers, unknown)))) == servers,
        unknown_of(lines(joined(settings_lines(volume, music, effects, servers, unknown)))) == unknown,
{
    reveal_strlit("");
    reveal_strlit("# Настройки игры Cellborn.");
    reveal_strlit("# Правятся прямо здесь; обновление игры этот файл не трогает.");
    reveal_strlit("# Громкость, от 0 до 1.");
    reveal_strlit("# Запомненные серверы: адрес и имя через пробел.");
    reveal_strlit("# Строки, которых эта версия игры не знает. Скорее всего их");
    reveal_strlit("# записала более новая версия — они сохранены нетронутыми.");
    reveal_strlit("volume = ");
    reveal_strlit("music = ");
    reveal_strlit("effects = ");
    reveal_strlit("volume");
    reveal_strlit("music");
    reveal_strlit("effects");
    reveal_strlit("server");
    reveal_strlit("server = ");
    let h = settings_head();
    let g = gain_lines(volume, music, effects);
    let sh = servers_head();
    let sl = server_lines(servers);
    let tail = if unknown.len() == 0 {
        Seq::<Seq<char>>::empty()
    } else {
        unknown_head() + unknown
    };
    let all = settings_lines(volume, music, effects, servers, unknown);
    assert(all == h + g + sh + sl + tail);
    // Each line stays one line.
    assert forall|i: int| 0 <= i < h.len() implies one_line(#[trigger] h[i]) && entry_of_line(h[i]) is None by {
        lemma_comment_says_nothing(h[i]);
    }
    assert forall|i: int| 0 <= i < sh.len() implies one_line(#[trigger] sh[i]) && entry_of_line(sh[i]) is None by {
        lemma_comment_says_nothing(sh[i]);
    }
    let uh = unknown_head();
    assert forall|i: int| 0 <= i < uh.len() implies one_line(#[trigger] uh[i]) && entry_of_line(uh[i]) is None by {
        lemma_comment_says_nothing(uh[i]);
    }
    assert forall|i: int| 0 <= i < g.len() implies one_line(#[trigger] g[i]) by {
        let v = if i == 0 { volume } else if i == 1 { music } else { effects };
        let key: Seq<char> = if i == 0 { "volume = "@ } else if i == 1 { "music = "@ } else { "effects = "@ };
        assert(g[i] == key + v);
        assert forall|j: int| 0 <= j < g[i].len() implies g[i][j] != '\n' by {
            if j >= key.len() {
                assert(g[i][j] == v[j - key.len()]);
            }
        }
        if v.len() > 0 {
            lemma_trimmed_ends(v);
            assert(g[i].last() == v.last());
        }
    }
    assert forall|i: int| 0 <= i < sl.len() implies one_line(#[trigger] sl[i]) by {
        let a = servers[i].0;
        let n = servers[i].1;
        assert(plain_address(servers[i].0) && plain_name(servers[i].1) && one_line(servers[i].1));
        let line = server_line_spec(a, n);
        assert(sl[i] == line);
        assert forall|j: int| 0 <= j < line.len() implies line[j] != '\n' by {
            if 9 <= j < 9 + a.len() {
                assert(line[j] == a[j - 9]);
                assert(!is_space(a[j - 9]));
            } else if j >= 10 + a.len() {
                assert(line[j] == n[j - 10 - a.len()]);
            }
        }
        if n.len() > 0 {
            lemma_trimmed_ends(n);
            assert(line.last() == n.last());
        }
    }
    assert forall|i: int| 0 <= i < all.len() implies one_line(#[trigger] all[i]) by {
        let a = h.len() as int;
        let b = a + g.len();
        let c = b + sh.len();
        let d = c + sl.len();
        if i < a {
            assert(all[i] == h[i]);
        } else if i < b {
            assert(all[i] == g[i - a]);
        } else if i < c {
            assert(all[i] == sh[i - b]);
        } else if i < d {
            assert(all[i] == sl[i - c]);
        } else {
            assert(all[i] == tail[i - d]);
            if i - d < 3 {
                assert(tail[i - d] == uh[i - d]);
            } else {
                assert(tail[i - d] == unknown[i - d - 3]);
                assert(foreign_line(unknown[i - d - 3]));
            }
        }
    }
    lemma_lines_joined(all);
    // What each part says.
    lemma_silent(h);
    lemma_silent(sh);
    lemma_server_lines(servers);
    assert forall|i: int| 0 <= i < servers.len() implies plain_address(#[trigger] servers[i].0) && plain_name(servers[i].1) by {}
    assert(plain_key("volume"@) && plain_key("music"@) && plain_key("effects"@));
    assert("volume = "@ =~= "volume"@ + seq![' ', '=', ' ']);
    assert("music = "@ =~= "music"@ + seq![' ', '=', ' ']);
    assert("effects = "@ =~= "effects"@ + seq![' ', '=', ' ']);
    lemma_entry_line("volume"@, volume);
    lemma_entry_line("music"@, music);
    lemma_entry_line("effects"@, effects);
    assert(g =~= seq![g[0]] + seq![g[1]] + seq![g[2]]);
    lemma_single(g[0]);
    lemma_single(g[1]);
    lemma_single(g[2]);
    lemma_gains_concat(seq![g[0]], seq![g[1]]);
    lemma_gains_concat(seq![g[0]] + seq![g[1]], seq![g[2]]);
    if unknown.len() > 0 {
        lemma_silent(uh);
        lemma_foreign_lines(unknown);
        lemma_gains_concat(uh, unknown);
    } else {
        lemma_silent(tail);
    }
    lemma_gains_concat(h, g);
    lemma_gains_concat(h + g, sh);
    lemma_gains_concat(h + g + sh, sl);
    lemma_gains_concat(h + g + sh + sl, tail);
    assert(gains_of(all) =~= seq![(Gain::Volume, volume), (Gain::Music, music), (Gain::Effects, effects)]);
    assert(servers_of(all) =~= servers);
    assert(unknown_of(all) =~= unknown);
}

} // verus!
