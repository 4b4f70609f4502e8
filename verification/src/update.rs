//! Decisions of the in-game updater.
//!
//! Asking GitHub and moving files are the outside world's business; what is
//! decided here is which release to take, which files belong to the player
//! and must survive an update, whether a download arrived whole, and what the
//! update button says.

use vstd::prelude::*;
use crate::text::{
    append_chars, chars_eq, chars_of, lines, lines_of, push_decimal, decimal, slice_chars,
    string_of, trim, trimmed, views,
};
use crate::version::{is_newer, newer, short, short_spec};

verus! {

broadcast use vstd::string::group_string_axioms;

/// The repository releases are taken from, unless the environment names another.
pub const REPOSITORY: &'static str = "Depard42/cellborn";

// ─────────────────────────────────────────────
// The player's files
// ─────────────────────────────────────────────

/// A character code with ASCII capitals folded to lower case.
pub open spec fn ascii_folded(c: char) -> u32 {
    let u = c as u32;
    if 0x41 <= u <= 0x5A {
        (u + 0x20) as u32
    } else {
        u
    }
}

/// `str::eq_ignore_ascii_case`: equal once ASCII letters are folded to one case.
pub open spec fn eq_ignore_ascii_case(a: Seq<char>, b: Seq<char>) -> bool {
    a.len() == b.len() && forall|i: int| 0 <= i < a.len() ==> ascii_folded(a[i]) == ascii_folded(b[i])
}

fn fold(c: char) -> (u: u32)
    ensures
        u == ascii_folded(c),
{
    let u = c as u32;
    if 0x41 <= u && u <= 0x5A {
        u + 0x20
    } else {
        u
    }
}

pub fn chars_eq_ignore_ascii_case(a: &[char], b: &[char]) -> (r: bool)
    ensures
        r == eq_ignore_ascii_case(a@, b@),
{
    if a.len() != b.len() {
        return false;
    }
    let mut i: usize = 0;
    while i < a.len()
        invariant
            a@.len() == b@.len(),
            i <= a@.len(),
            forall|j: int| 0 <= j < i ==> ascii_folded(a@[j]) == ascii_folded(b@[j]),
        decreases a@.len() - i,
    {
        if fold(a[i]) != fold(b[i]) {
            return false;
        }
        i += 1;
    }
    true
}

/// Whether a file is the player's and must survive an update: the server
/// configuration and the game settings, compared by name without regard to
/// ASCII case — on Windows a player may well save `Cellborn-Server.CFG`.
pub open spec fn protected_spec(name: Seq<char>) -> bool {
    eq_ignore_ascii_case("cellborn-server.cfg"@, name) || eq_ignore_ascii_case("cellborn.cfg"@, name)
}

/// Protection does not depend on ASCII case: two names that differ only in
/// the case of ASCII letters are both protected or both not.
pub proof fn lemma_protection_ignores_case(a: Seq<char>, b: Seq<char>)
    requires
        a.len() == b.len(),
        forall|i: int| 0 <= i < a.len() ==> ascii_folded(#[trigger] a[i]) == ascii_folded(b[i]),
    ensures
        protected_spec(a) == protected_spec(b),
{
}

/// Whether an update must leave this file alone.
pub fn is_protected(name: &str) -> (r: bool)
    ensures
        r == protected_spec(name@),
{
    let n = chars_of(name);
    let server = chars_of("cellborn-server.cfg");
    let game = chars_of("cellborn.cfg");
    chars_eq_ignore_ascii_case(&server, &n) || chars_eq_ignore_ascii_case(&game, &n)
}

/// The release archive for this system: the one the release workflow builds.
pub fn asset_for(windows: bool) -> (r: &'static str)
    ensures
        r@ == (if windows {
            "cellborn-windows-x86_64.zip"@
        } else {
            "cellborn-linux-x86_64.zip"@
        }),
{
    if windows {
        "cellborn-windows-x86_64.zip"
    } else {
        "cellborn-linux-x86_64.zip"
    }
}

// ─────────────────────────────────────────────
// Choosing a release
// ─────────────────────────────────────────────

/// A file attached to a release.
pub struct Asset {
    pub name: String,
    pub url: String,
    pub size: u64,
}

/// What is known about an available release.
pub struct Release {
    pub tag: String,
    pub version: String,
    pub notes: String,
    pub asset_url: String,
    pub size: u64,
}

/// A tag without its leading lowercase `v`s.
pub open spec fn without_v(s: Seq<char>) -> Seq<char>
    decreases s.len(),
{
    if s.len() > 0 && s[0] == 'v' {
        without_v(s.drop_first())
    } else {
        s
    }
}

/// The first asset with this name, or the number of assets.
pub open spec fn asset_index(assets: Seq<Asset>, name: Seq<char>) -> int
    decreases assets.len(),
{
    if assets.len() == 0 {
        0
    } else if assets[0].name@ == name {
        0
    } else {
        1 + asset_index(assets.drop_first(), name)
    }
}

proof fn lemma_asset_index(assets: Seq<Asset>, name: Seq<char>)
    ensures
        0 <= asset_index(assets, name) <= assets.len(),
        forall|j: int| 0 <= j < asset_index(assets, name) ==> assets[j].name@ != name,
        asset_index(assets, name) < assets.len() ==> assets[asset_index(assets, name)].name@ == name,
    decreases assets.len(),
{
    if assets.len() > 0 && assets[0].name@ != name {
        lemma_asset_index(assets.drop_first(), name);
        assert forall|j: int| 0 <= j < asset_index(assets, name) implies assets[j].name@ != name by {
            if j > 0 {
                assert(assets[j] == assets.drop_first()[j - 1]);
            }
        }
    }
}

proof fn lemma_asset_index_unique(assets: Seq<Asset>, name: Seq<char>, i: int)
    requires
        0 <= i <= assets.len(),
        forall|j: int| 0 <= j < i ==> assets[j].name@ != name,
        i < assets.len() ==> assets[i].name@ == name,
    ensures
        asset_index(assets, name) == i,
{
    lemma_asset_index(assets, name);
    let k = asset_index(assets, name);
    if k < i {
        assert(assets[k].name@ != name);
    } else if k > i {
        assert(assets[i].name@ != name);
    }
}

fn name_is(asset: &Asset, wanted: &[char]) -> (r: bool)
    ensures
        r == (asset.name@ == wanted@),
{
    let name = chars_of(asset.name.as_str());
    chars_eq(&name, wanted)
}

/// Why the latest release cannot be taken, if it cannot.
pub open spec fn release_refusal(tag: Seq<char>, assets: Seq<Asset>, asset_name: Seq<char>) -> Option<Seq<char>> {
    if tag.len() == 0 {
        Some("в ответе GitHub нет тега релиза"@)
    } else if asset_index(assets, asset_name) >= assets.len() {
        Some("в релизе "@ + tag + " нет файла "@ + asset_name)
    } else {
        None
    }
}

/// Decides what the latest release means for this build.
///
/// No tag is an error worth saying; a release that is not newer means there
/// is nothing to update to; a newer release without an archive for this system
/// is an error too — a build for one platform can fail, and silence about it
/// would be a lie.
pub fn choose_release(
    tag: &str,
    notes: &str,
    assets: &Vec<Asset>,
    asset_name: &str,
    current: &str,
) -> (r: Result<Option<Release>, String>)
    ensures
        tag@.len() == 0 ==> (r matches Err(e) && e@ == "в ответе GitHub нет тега релиза"@),
        tag@.len() > 0 && !newer(tag@, current@) ==> r matches Ok(None),
        tag@.len() > 0 && newer(tag@, current@) ==> match r {
            Err(e) => release_refusal(tag@, assets@, asset_name@) == Some(e@),
            Ok(None) => false,
            Ok(Some(release)) => {
                let i = asset_index(assets@, asset_name@);
                &&& release_refusal(tag@, assets@, asset_name@) is None
                &&& release.tag@ == tag@
                &&& release.version@ == without_v(tag@)
                &&& release.notes@ == notes@
                &&& release.asset_url@ == assets@[i].url@
                &&& release.size == assets@[i].size
            },
        },
{
    let t = chars_of(tag);
    if t.len() == 0 {
        let e = chars_of("в ответе GitHub нет тега релиза");
        return Err(string_of(&e));
    }
    if !is_newer(tag, current) {
        return Ok(None);
    }
    let wanted = chars_of(asset_name);
    let mut i: usize = 0;
    while i < assets.len() && !name_is(&assets[i], &wanted)
        invariant
            i <= assets@.len(),
            wanted@ == asset_name@,
            forall|j: int| 0 <= j < i ==> assets@[j].name@ != asset_name@,
        decreases assets@.len() - i,
    {
        i += 1;
    }
    proof {
        if i < assets@.len() {
            lemma_asset_index_unique(assets@, asset_name@, i as int);
        } else {
            lemma_asset_index_unique(assets@, asset_name@, assets@.len() as int);
        }
    }
    if i >= assets.len() {
        let mut e = chars_of("в релизе ");
        append_chars(&mut e, &t);
        let middle = chars_of(" нет файла ");
        append_chars(&mut e, &middle);
        append_chars(&mut e, &wanted);
        return Err(string_of(&e));
    }
    let mut start: usize = 0;
    assert(t@.skip(0) =~= t@);
    while start < t.len() && t[start] == 'v'
        invariant
            start <= t@.len(),
            without_v(t@) == without_v(t@.skip(start as int)),
        decreases t@.len() - start,
    {
        assert(t@.skip(start as int).drop_first() =~= t@.skip(start + 1));
        start += 1;
    }
    let version = slice_chars(&t, start, t.len());
    assert(version@ =~= t@.skip(start as int));
    let n = chars_of(notes);
    let url = chars_of(assets[i].url.as_str());
    Ok(
        Some(
            Release {
                tag: string_of(&t),
                version: string_of(&version),
                notes: string_of(&n),
                asset_url: string_of(&url),
                size: assets[i].size,
            },
        ),
    )
}

/// Whether a download arrived whole: a closed connection looks like success,
/// and the size GitHub announced is the one cheap check that everything came.
pub fn download_complete(expected: u64, written: u64) -> (r: Result<(), String>)
    ensures
        r is Ok <==> (expected == 0 || written == expected),
        r matches Err(e) ==> e@ == "скачалось "@ + decimal(written as nat) + " байт вместо "@
            + decimal(expected as nat),
{
    if expected > 0 && written != expected {
        let mut e = chars_of("скачалось ");
        push_decimal(&mut e, written);
        let middle = chars_of(" байт вместо ");
        append_chars(&mut e, &middle);
        push_decimal(&mut e, expected);
        return Err(string_of(&e));
    }
    Ok(())
}

// ─────────────────────────────────────────────
// What the button says
// ─────────────────────────────────────────────

/// Where the updater is.
pub enum Stage {
    /// Not asked yet.
    Idle,
    Checking,
    /// Asked; there is nothing newer.
    UpToDate,
    Available(Release),
    Downloading,
    /// Installed; a restart is needed — a program cannot replace itself while running.
    Installed(String),
    Failed(String),
}

/// Whether the updater is busy with the network.
pub fn busy(stage: &Stage) -> (r: bool)
    ensures
        r == (stage is Checking || stage is Downloading),
{
    match stage {
        Stage::Checking | Stage::Downloading => true,
        _ => false,
    }
}

/// The label of the update button: one for every state, so the interface
/// does not sprawl. While downloading it shows percent of the announced size,
/// or megabytes when the size is unknown.
pub fn button_label(stage: &Stage, done: u64, total: u64) -> (s: String)
    requires
        (stage is Downloading && total > 0) ==> done <= u64::MAX / 100,
    ensures
        s@ == match stage {
            Stage::Idle | Stage::UpToDate | Stage::Failed(_) => "ПРОВЕРИТЬ ОБНОВЛЕНИЕ"@,
            Stage::Checking => "ПРОВЕРЯЮ..."@,
            Stage::Available(release) => "ОБНОВИТЬ ДО "@ + release.tag@,
            Stage::Downloading => if total > 0 {
                "СКАЧИВАЮ "@ + decimal(((done * 100) / (total as int)) as nat) + " %"@
            } else {
                "СКАЧИВАЮ "@ + decimal((done / 1_048_576) as nat) + " МБ"@
            },
            Stage::Installed(_) => "ПЕРЕЗАПУСТИ ИГРУ"@,
        },
{
    match stage {
        Stage::Idle | Stage::UpToDate | Stage::Failed(_) => {
            let v = chars_of("ПРОВЕРИТЬ ОБНОВЛЕНИЕ");
            string_of(&v)
        },
        Stage::Checking => {
            let v = chars_of("ПРОВЕРЯЮ...");
            string_of(&v)
        },
        Stage::Available(release) => {
            let mut v = chars_of("ОБНОВИТЬ ДО ");
            let tag = chars_of(release.tag.as_str());
            append_chars(&mut v, &tag);
            string_of(&v)
        },
        Stage::Downloading => {
            let mut v = chars_of("СКАЧИВАЮ ");
            if total > 0 {
                push_decimal(&mut v, done * 100 / total);
                let tail = chars_of(" %");
                append_chars(&mut v, &tail);
            } else {
                push_decimal(&mut v, done / 1_048_576);
                let tail = chars_of(" МБ");
                append_chars(&mut v, &tail);
            }
            string_of(&v)
        },
        Stage::Installed(_) => {
            let v = chars_of("ПЕРЕЗАПУСТИ ИГРУ");
            string_of(&v)
        },
    }
}

/// The first non-empty line of the release notes, trimmed, cut to seventy characters.
pub open spec fn first_line_spec(ls: Seq<Seq<char>>) -> Seq<char>
    decreases ls.len(),
{
    if ls.len() == 0 {
        seq![]
    } else if trim(ls[0]).len() > 0 {
        let t = trim(ls[0]);
        t.take(if t.len() <= 70 { t.len() as int } else { 70 })
    } else {
        first_line_spec(ls.drop_first())
    }
}

/// The line of the release notes worth showing under the button.
pub fn first_line(text: &str) -> (s: String)
    ensures
        s@ == first_line_spec(lines(text@)),
{
    let chars = chars_of(text);
    let ls = lines_of(&chars);
    let mut i: usize = 0;
    assert(views(ls@).skip(0) =~= views(ls@));
    while i < ls.len()
        invariant
            i <= ls@.len(),
            views(ls@) == lines(text@),
            first_line_spec(views(ls@).skip(i as int)) == first_line_spec(lines(text@)),
        decreases ls@.len() - i,
    {
        let t = trimmed(&ls[i]);
        assert(views(ls@).skip(i as int)[0] == ls@[i as int]@);
        if t.len() > 0 {
            let end = if t.len() <= 70 {
                t.len()
            } else {
                70
            };
            let cut = slice_chars(&t, 0, end);
            assert(cut@ =~= t@.take(end as int));
            return string_of(&cut);
        }
        assert(views(ls@).skip(i as int).drop_first() =~= views(ls@).skip(i + 1));
        i += 1;
    }
    assert(views(ls@).skip(i as int).len() == 0);
    String::new()
}

/// The line under the update button.
pub open spec fn status_line_spec(stage: Stage, build: Seq<char>, size_mb: Seq<char>) -> Seq<char> {
    match stage {
        Stage::Idle => "версия "@ + build,
        Stage::Checking => "спрашиваю GitHub..."@,
        Stage::UpToDate => "установлена последняя версия — "@ + build,
        Stage::Available(release) => {
            let notes = first_line_spec(lines(release.notes@));
            if notes.len() == 0 {
                "доступна "@ + release.tag@ + " ("@ + size_mb + " МБ), у тебя "@ + short_spec()
            } else {
                release.tag@ + " ("@ + size_mb + " МБ): "@ + notes
            }
        },
        Stage::Downloading => "качаю комплект; настройки сервера не тронутся"@,
        Stage::Installed(tag) => tag@ + " установлена. Закрой игру и запусти заново"@,
        Stage::Failed(why) => "не вышло: "@ + why@,
    }
}

/// What the updater says about itself, given the full signature of this
/// build and the announced size of an available release already written in
/// megabytes.
pub fn status_line(stage: &Stage, build: &str, size_mb: &str) -> (s: String)
    ensures
        s@ == status_line_spec(*stage, build@, size_mb@),
{
    let mut v: Vec<char>;
    match stage {
        Stage::Idle => {
            v = chars_of("версия ");
            let fv = chars_of(build);
            append_chars(&mut v, &fv);
        },
        Stage::Checking => {
            v = chars_of("спрашиваю GitHub...");
        },
        Stage::UpToDate => {
            v = chars_of("установлена последняя версия — ");
            let fv = chars_of(build);
            append_chars(&mut v, &fv);
        },
        Stage::Available(release) => {
            let notes = first_line(release.notes.as_str());
            let nv = chars_of(notes.as_str());
            let tag = chars_of(release.tag.as_str());
            let size = chars_of(size_mb);
            if nv.len() == 0 {
                v = chars_of("доступна ");
                append_chars(&mut v, &tag);
                let open = chars_of(" (");
                append_chars(&mut v, &open);
                append_chars(&mut v, &size);
                let middle = chars_of(" МБ), у тебя ");
                append_chars(&mut v, &middle);
                let sh = short();
                let shv = chars_of(sh.as_str());
                append_chars(&mut v, &shv);
            } else {
                v = tag;
                let open = chars_of(" (");
                append_chars(&mut v, &open);
                append_chars(&mut v, &size);
                let middle = chars_of(" МБ): ");
                append_chars(&mut v, &middle);
                append_chars(&mut v, &nv);
            }
        },
        Stage::Downloading => {
            v = chars_of("качаю комплект; настройки сервера не тронутся");
        },
        Stage::Installed(tag) => {
            v = chars_of(tag.as_str());
            let tail = chars_of(" установлена. Закрой игру и запусти заново");
            append_chars(&mut v, &tail);
        },
        Stage::Failed(why) => {
            v = chars_of("не вышло: ");
            let w = chars_of(why.as_str());
            append_chars(&mut v, &w);
        },
    }
    assert(v@ =~= status_line_spec(*stage, build@, size_mb@));
    string_of(&v)
}

} // verus!
