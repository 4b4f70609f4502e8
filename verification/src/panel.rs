//! The texts of the mutation panel that do not depend on the simulation's
//! numbers.

use vstd::prelude::*;
use crate::genome::{count_family_in, Genome, MAX_PARTS_PER_KIND};
use crate::parts::{part_cost, PartFamily, PartKind, PartLevel, LEVEL_COUNT};
use crate::text::{append_chars, chars_of, decimal, push_decimal, string_of};

verus! {

broadcast use vstd::string::group_string_axioms;

/// The middle line of the upgrade card: which level the weakest organ of
/// the family would move from and to.
pub open spec fn upgrade_step_line(current: Option<PartKind>) -> Seq<char> {
    match current {
        Some(kind) => match kind.upgraded_spec() {
            Some(next) => kind.level.name_spec() + " → "@ + next.level.name_spec(),
            None => "уже совершенный"@,
        },
        None => "сначала отрасти орган"@,
    }
}

/// The upgrade card, the last one of the family: its number, the price of
/// the upgrade, the step it makes and why it cannot be made.
pub open spec fn upgrade_card_spec(price: Option<u16>, current: Option<PartKind>, refusal: Option<Seq<char>>) -> Seq<char> {
    decimal((LEVEL_COUNT + 1) as nat) + "  ПОДНЯТЬ УРОВЕНЬ  ["@ + match price {
        Some(p) => decimal(p as nat),
        None => "-"@,
    } + " очк.]"@ + seq!['\n'] + upgrade_step_line(current) + seq!['\n'] + match refusal {
        Some(why) => why,
        None => "дешевле, чем растить второй такой же"@,
    }
}

/// The text of the upgrade card. The price is what the upgrade costs this
/// body, when it has one; the refusal is why it cannot be done now.
pub fn upgrade_card(price: Option<u16>, current: Option<PartKind>, refusal: Option<&str>) -> (s: String)
    ensures
        s@ == upgrade_card_spec(
            price,
            current,
            match refusal {
                Some(why) => Some(why@),
                None => None,
            },
        ),
{
    let mut v: Vec<char> = Vec::new();
    push_decimal(&mut v, (LEVEL_COUNT + 1) as u64);
    let title = chars_of("  ПОДНЯТЬ УРОВЕНЬ  [");
    append_chars(&mut v, &title);
    match price {
        Some(p) => push_decimal(&mut v, p as u64),
        None => {
            let dash = chars_of("-");
            append_chars(&mut v, &dash);
        },
    }
    let unit = chars_of(" очк.]");
    append_chars(&mut v, &unit);
    v.push('\n');
    match current {
        Some(kind) => match kind.upgraded() {
            Some(next) => {
                let a = chars_of(kind.level.name());
                append_chars(&mut v, &a);
                let arrow = chars_of(" → ");
                append_chars(&mut v, &arrow);
                let b = chars_of(next.level.name());
                append_chars(&mut v, &b);
            },
            None => {
                let t = chars_of("уже совершенный");
                append_chars(&mut v, &t);
            },
        },
        None => {
            let t = chars_of("сначала отрасти орган");
            append_chars(&mut v, &t);
        },
    }
    v.push('\n');
    match refusal {
        Some(why) => {
            let w = chars_of(why);
            append_chars(&mut v, &w);
        },
        None => {
            let t = chars_of("дешевле, чем растить второй такой же");
            append_chars(&mut v, &t);
        },
    }
    assert(v@ =~= upgrade_card_spec(
        price,
        current,
        match refusal {
            Some(why) => Some(why@),
            None => None,
        },
    ));
    string_of(&v)
}

// ─────────────────────────────────────────────
// The family header
// ─────────────────────────────────────────────

/// What `str::to_uppercase` makes of a text: Unicode upper case, which no
/// short statement captures.
pub uninterp spec fn uppercase(s: Seq<char>) -> Seq<char>;

/// `str::to_uppercase`: the text in Unicode upper case.
#[verifier::external_body]
fn to_uppercase(s: &str) -> (r: String)
    ensures
        r@ == uppercase(s@),
{
    s.to_uppercase()
}

/// The header of the mutation panel for a family: its name as written in
/// capitals, what it trades, whether it grows outside or inside, the base
/// price of its plain organ, and how many of its organs the body has out of
/// the most it may have.
pub open spec fn family_header_spec(capital_name: Seq<char>, family: PartFamily, owned: nat) -> Seq<char> {
    capital_name + " — "@ + family.tradeoff_spec() + "   ("@ + (if family.is_external_spec() {
        "растёт снаружи"@
    } else {
        "органелла внутри"@
    }) + ", базовая цена "@ + decimal(part_cost(PartKind { family, level: PartLevel::Plain }) as nat)
        + ", в теле: "@ + decimal(owned) + "/"@ + decimal(MAX_PARTS_PER_KIND as nat) + ")"@
}

/// The header text, with the family's name already in capitals.
pub fn family_header(capital_name: &str, family: PartFamily, owned: usize) -> (s: String)
    ensures
        s@ == family_header_spec(capital_name@, family, owned as nat),
{
    let mut v = chars_of(capital_name);
    let dash = chars_of(" — ");
    append_chars(&mut v, &dash);
    let t = chars_of(family.tradeoff());
    append_chars(&mut v, &t);
    let open = chars_of("   (");
    append_chars(&mut v, &open);
    let place = if family.is_external() {
        chars_of("растёт снаружи")
    } else {
        chars_of("органелла внутри")
    };
    append_chars(&mut v, &place);
    let price = chars_of(", базовая цена ");
    append_chars(&mut v, &price);
    push_decimal(&mut v, PartKind::basic(family).cost() as u64);
    let body = chars_of(", в теле: ");
    append_chars(&mut v, &body);
    push_decimal(&mut v, owned as u64);
    let slash = chars_of("/");
    append_chars(&mut v, &slash);
    push_decimal(&mut v, MAX_PARTS_PER_KIND as u64);
    let close = chars_of(")");
    append_chars(&mut v, &close);
    assert(v@ =~= family_header_spec(capital_name@, family, owned as nat));
    string_of(&v)
}

/// The header of the mutation panel for the body (none before it has one).
pub fn family_header_of(genome: Option<&Genome>, family: PartFamily) -> (s: String)
    ensures
        s@ == family_header_spec(
            uppercase(family.name_spec()),
            family,
            match genome {
                Some(g) => count_family_in(g.parts@, family),
                None => 0,
            },
        ),
{
    let capital = to_uppercase(family.name());
    let owned = match genome {
        Some(g) => g.count_family(family),
        None => 0,
    };
    family_header(capital.as_str(), family, owned)
}

} // verus!
