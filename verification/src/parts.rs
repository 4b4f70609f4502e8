//! The organ catalogue: twenty-two families, four levels of development.
//!
//! One table drives the economy, the interface and the balance tests, so a
//! part's advertised price cannot drift from its real one. The physical
//! effects of each organ are fractional quantities and live next to the
//! simulation; what stands here is everything that is counted: which organ it
//! is, where it sits in the catalogue, what it is called and what it costs.

use vstd::prelude::*;

verus! {

/// How many organ families there are.
pub const FAMILY_COUNT: usize = 22;

/// How many levels each organ has.
pub const LEVEL_COUNT: usize = 4;

/// What an organ *is*: each family has its own role in the body.
#[derive(Debug, Clone, Copy, PartialEq, Eq, Structural, Hash)]
pub enum PartFamily {
    Membrane,
    Flagellum,
    Cilia,
    Mouth,
    Ram,
    Spike,
    ToxinGland,
    Osmoregulator,
    ThermalMembrane,
    Photosynthesis,
    StorageVacuole,
    MucusCoat,
    Gill,
    Divisome,
    Mutator,
    Pseudopod,
    Nematocyst,
    Filter,
    Chemoreceptor,
    Carapace,
    Holdfast,
    Bladder,
}

/// The family in catalogue slot `slot` (the order of the organ atlas).
pub open spec fn family_at(slot: int) -> PartFamily {
    if slot == 0 {
        PartFamily::Flagellum
    } else if slot == 1 {
        PartFamily::Cilia
    } else if slot == 2 {
        PartFamily::Pseudopod
    } else if slot == 3 {
        PartFamily::Mouth
    } else if slot == 4 {
        PartFamily::Filter
    } else if slot == 5 {
        PartFamily::Holdfast
    } else if slot == 6 {
        PartFamily::Chemoreceptor
    } else if slot == 7 {
        PartFamily::Gill
    } else if slot == 8 {
        PartFamily::Osmoregulator
    } else if slot == 9 {
        PartFamily::ThermalMembrane
    } else if slot == 10 {
        PartFamily::Photosynthesis
    } else if slot == 11 {
        PartFamily::StorageVacuole
    } else if slot == 12 {
        PartFamily::MucusCoat
    } else if slot == 13 {
        PartFamily::Carapace
    } else if slot == 14 {
        PartFamily::Spike
    } else if slot == 15 {
        PartFamily::Nematocyst
    } else if slot == 16 {
        PartFamily::ToxinGland
    } else if slot == 17 {
        PartFamily::Divisome
    } else if slot == 18 {
        PartFamily::Mutator
    } else if slot == 19 {
        PartFamily::Ram
    } else if slot == 20 {
        PartFamily::Bladder
    } else {
        PartFamily::Membrane
    }
}

impl PartFamily {
    /// The catalogue slot of this family.
    pub open spec fn slot_spec(self) -> int {
        match self {
            PartFamily::Flagellum => 0,
            PartFamily::Cilia => 1,
            PartFamily::Pseudopod => 2,
            PartFamily::Mouth => 3,
            PartFamily::Filter => 4,
            PartFamily::Holdfast => 5,
            PartFamily::Chemoreceptor => 6,
            PartFamily::Gill => 7,
            PartFamily::Osmoregulator => 8,
            PartFamily::ThermalMembrane => 9,
            PartFamily::Photosynthesis => 10,
            PartFamily::StorageVacuole => 11,
            PartFamily::MucusCoat => 12,
            PartFamily::Carapace => 13,
            PartFamily::Spike => 14,
            PartFamily::Nematocyst => 15,
            PartFamily::ToxinGland => 16,
            PartFamily::Divisome => 17,
            PartFamily::Mutator => 18,
            PartFamily::Ram => 19,
            PartFamily::Bladder => 20,
            PartFamily::Membrane => 21,
        }
    }

    pub open spec fn name_spec(self) -> Seq<char> {
        match self {
            PartFamily::Flagellum => "Жгутик"@,
            PartFamily::Cilia => "Реснички"@,
            PartFamily::Pseudopod => "Ложноножка"@,
            PartFamily::Mouth => "Рот"@,
            PartFamily::Filter => "Фильтр"@,
            PartFamily::Holdfast => "Присоска"@,
            PartFamily::Chemoreceptor => "Хеморецептор"@,
            PartFamily::Gill => "Жабра"@,
            PartFamily::Osmoregulator => "Осморегулятор"@,
            PartFamily::ThermalMembrane => "Термомембрана"@,
            PartFamily::Photosynthesis => "Фотосинтез"@,
            PartFamily::StorageVacuole => "Вакуоль"@,
            PartFamily::MucusCoat => "Слизь"@,
            PartFamily::Carapace => "Панцирь"@,
            PartFamily::Spike => "Шип"@,
            PartFamily::Nematocyst => "Стрекало"@,
            PartFamily::ToxinGland => "Токсиновая железа"@,
            PartFamily::Divisome => "Делитель"@,
            PartFamily::Mutator => "Мутатор"@,
            PartFamily::Ram => "Таран"@,
            PartFamily::Bladder => "Пузырь"@,
            PartFamily::Membrane => "Мембрана"@,
        }
    }

    pub open spec fn tradeoff_spec(self) -> Seq<char> {
        match self {
            PartFamily::Flagellum => "+скорость, дорогой в содержании"@,
            PartFamily::Cilia => "+немного скорости, дёшево"@,
            PartFamily::Pseudopod => "скорость и немного урона"@,
            PartFamily::Mouth => "+радиус захвата пищи"@,
            PartFamily::Filter => "очищает воду вокруг, стойкость к яду"@,
            PartFamily::Holdfast => "пролезаешь в кусты, будучи крупным"@,
            PartFamily::Chemoreceptor => "видит еду издалека, дёшево"@,
            PartFamily::Gill => "+кислород: главное в шторм"@,
            PartFamily::Osmoregulator => "+солёность"@,
            PartFamily::ThermalMembrane => "+температура"@,
            PartFamily::Photosynthesis => "энергия из света"@,
            PartFamily::StorageVacuole => "+запас энергии"@,
            PartFamily::MucusCoat => "+защита и яд, −скорость"@,
            PartFamily::Carapace => "много защиты, много массы"@,
            PartFamily::Spike => "+урон при контакте"@,
            PartFamily::Nematocyst => "много урона, хрупкое"@,
            PartFamily::ToxinGland => "+стойкость к яду, отравляет воду вокруг"@,
            PartFamily::Divisome => "делится быстрее"@,
            PartFamily::Mutator => "потомки мутируют чаще"@,
            PartFamily::Ram => "урон растёт от массы и разгона"@,
            PartFamily::Bladder => "лёгкость: масса меньше давит на скорость"@,
            PartFamily::Membrane => "+запас энергии, +масса"@,
        }
    }

    /// Whether the organ sits on the membrane surface rather than inside the cell.
    pub open spec fn is_external_spec(self) -> bool {
        match self {
            PartFamily::Flagellum => true,
            PartFamily::Cilia => true,
            PartFamily::Pseudopod => true,
            PartFamily::Mouth => true,
            PartFamily::Filter => false,
            PartFamily::Holdfast => true,
            PartFamily::Chemoreceptor => false,
            PartFamily::Gill => false,
            PartFamily::Osmoregulator => false,
            PartFamily::ThermalMembrane => true,
            PartFamily::Photosynthesis => false,
            PartFamily::StorageVacuole => false,
            PartFamily::MucusCoat => true,
            PartFamily::Carapace => true,
            PartFamily::Spike => true,
            PartFamily::Nematocyst => true,
            PartFamily::ToxinGland => false,
            PartFamily::Divisome => false,
            PartFamily::Mutator => false,
            PartFamily::Ram => true,
            PartFamily::Bladder => false,
            PartFamily::Membrane => false,
        }
    }

    /// The price of the plain organ, before its level reshapes it.
    pub open spec fn base_cost_spec(self) -> nat {
        match self {
            PartFamily::Flagellum => 2,
            PartFamily::Cilia => 2,
            PartFamily::Pseudopod => 3,
            PartFamily::Mouth => 2,
            PartFamily::Filter => 4,
            PartFamily::Holdfast => 3,
            PartFamily::Chemoreceptor => 1,
            PartFamily::Gill => 3,
            PartFamily::Osmoregulator => 3,
            PartFamily::ThermalMembrane => 3,
            PartFamily::Photosynthesis => 4,
            PartFamily::StorageVacuole => 2,
            PartFamily::MucusCoat => 3,
            PartFamily::Carapace => 4,
            PartFamily::Spike => 3,
            PartFamily::Nematocyst => 5,
            PartFamily::ToxinGland => 4,
            PartFamily::Divisome => 4,
            PartFamily::Mutator => 3,
            PartFamily::Ram => 3,
            PartFamily::Bladder => 3,
            PartFamily::Membrane => 1,
        }
    }

    /// The family's cell in the body histogram, and its place in the atlas.
    pub fn slot(self) -> (r: usize)
        ensures
            r == self.slot_spec(),
    {
        match self {
            PartFamily::Flagellum => 0,
            PartFamily::Cilia => 1,
            PartFamily::Pseudopod => 2,
            PartFamily::Mouth => 3,
            PartFamily::Filter => 4,
            PartFamily::Holdfast => 5,
            PartFamily::Chemoreceptor => 6,
            PartFamily::Gill => 7,
            PartFamily::Osmoregulator => 8,
            PartFamily::ThermalMembrane => 9,
            PartFamily::Photosynthesis => 10,
            PartFamily::StorageVacuole => 11,
            PartFamily::MucusCoat => 12,
            PartFamily::Carapace => 13,
            PartFamily::Spike => 14,
            PartFamily::Nematocyst => 15,
            PartFamily::ToxinGland => 16,
            PartFamily::Divisome => 17,
            PartFamily::Mutator => 18,
            PartFamily::Ram => 19,
            PartFamily::Bladder => 20,
            PartFamily::Membrane => 21,
        }
    }

    /// The family in catalogue slot `slot`.
    pub fn from_slot(slot: usize) -> (f: PartFamily)
        requires
            slot < FAMILY_COUNT,
        ensures
            f == family_at(slot as int),
            f.slot_spec() == slot,
    {
        if slot == 0 {
            PartFamily::Flagellum
        } else if slot == 1 {
            PartFamily::Cilia
        } else if slot == 2 {
            PartFamily::Pseudopod
        } else if slot == 3 {
            PartFamily::Mouth
        } else if slot == 4 {
            PartFamily::Filter
        } else if slot == 5 {
            PartFamily::Holdfast
        } else if slot == 6 {
            PartFamily::Chemoreceptor
        } else if slot == 7 {
            PartFamily::Gill
        } else if slot == 8 {
            PartFamily::Osmoregulator
        } else if slot == 9 {
            PartFamily::ThermalMembrane
        } else if slot == 10 {
            PartFamily::Photosynthesis
        } else if slot == 11 {
            PartFamily::StorageVacuole
        } else if slot == 12 {
            PartFamily::MucusCoat
        } else if slot == 13 {
            PartFamily::Carapace
        } else if slot == 14 {
            PartFamily::Spike
        } else if slot == 15 {
            PartFamily::Nematocyst
        } else if slot == 16 {
            PartFamily::ToxinGland
        } else if slot == 17 {
            PartFamily::Divisome
        } else if slot == 18 {
            PartFamily::Mutator
        } else if slot == 19 {
            PartFamily::Ram
        } else if slot == 20 {
            PartFamily::Bladder
        } else {
            PartFamily::Membrane
        }
    }

    pub fn name(self) -> (r: &'static str)
        ensures
            r@ == self.name_spec(),
    {
        match self {
            PartFamily::Flagellum => "Жгутик",
            PartFamily::Cilia => "Реснички",
            PartFamily::Pseudopod => "Ложноножка",
            PartFamily::Mouth => "Рот",
            PartFamily::Filter => "Фильтр",
            PartFamily::Holdfast => "Присоска",
            PartFamily::Chemoreceptor => "Хеморецептор",
            PartFamily::Gill => "Жабра",
            PartFamily::Osmoregulator => "Осморегулятор",
            PartFamily::ThermalMembrane => "Термомембрана",
            PartFamily::Photosynthesis => "Фотосинтез",
            PartFamily::StorageVacuole => "Вакуоль",
            PartFamily::MucusCoat => "Слизь",
            PartFamily::Carapace => "Панцирь",
            PartFamily::Spike => "Шип",
            PartFamily::Nematocyst => "Стрекало",
            PartFamily::ToxinGland => "Токсиновая железа",
            PartFamily::Divisome => "Делитель",
            PartFamily::Mutator => "Мутатор",
            PartFamily::Ram => "Таран",
            PartFamily::Bladder => "Пузырь",
            PartFamily::Membrane => "Мембрана",
        }
    }

    pub fn tradeoff(self) -> (r: &'static str)
        ensures
            r@ == self.tradeoff_spec(),
    {
        match self {
            PartFamily::Flagellum => "+скорость, дорогой в содержании",
            PartFamily::Cilia => "+немного скорости, дёшево",
            PartFamily::Pseudopod => "скорость и немного урона",
            PartFamily::Mouth => "+радиус захвата пищи",
            PartFamily::Filter => "очищает воду вокруг, стойкость к яду",
            PartFamily::Holdfast => "пролезаешь в кусты, будучи крупным",
            PartFamily::Chemoreceptor => "видит еду издалека, дёшево",
            PartFamily::Gill => "+кислород: главное в шторм",
            PartFamily::Osmoregulator => "+солёность",
            PartFamily::ThermalMembrane => "+температура",
            PartFamily::Photosynthesis => "энергия из света",
            PartFamily::StorageVacuole => "+запас энергии",
            PartFamily::MucusCoat => "+защита и яд, −скорость",
            PartFamily::Carapace => "много защиты, много массы",
            PartFamily::Spike => "+урон при контакте",
            PartFamily::Nematocyst => "много урона, хрупкое",
            PartFamily::ToxinGland => "+стойкость к яду, отравляет воду вокруг",
            PartFamily::Divisome => "делится быстрее",
            PartFamily::Mutator => "потомки мутируют чаще",
            PartFamily::Ram => "урон растёт от массы и разгона",
            PartFamily::Bladder => "лёгкость: масса меньше давит на скорость",
            PartFamily::Membrane => "+запас энергии, +масса",
        }
    }

    /// Whether the organ sits on the membrane surface or floats inside the cell.
    pub fn is_external(self) -> (r: bool)
        ensures
            r == self.is_external_spec(),
    {
        match self {
            PartFamily::Flagellum => true,
            PartFamily::Cilia => true,
            PartFamily::Pseudopod => true,
            PartFamily::Mouth => true,
            PartFamily::Filter => false,
            PartFamily::Holdfast => true,
            PartFamily::Chemoreceptor => false,
            PartFamily::Gill => false,
            PartFamily::Osmoregulator => false,
            PartFamily::ThermalMembrane => true,
            PartFamily::Photosynthesis => false,
            PartFamily::StorageVacuole => false,
            PartFamily::MucusCoat => true,
            PartFamily::Carapace => true,
            PartFamily::Spike => true,
            PartFamily::Nematocyst => true,
            PartFamily::ToxinGland => false,
            PartFamily::Divisome => false,
            PartFamily::Mutator => false,
            PartFamily::Ram => true,
            PartFamily::Bladder => false,
            PartFamily::Membrane => false,
        }
    }

    /// The price of the plain organ.
    pub fn base_cost(self) -> (r: u16)
        ensures
            r == self.base_cost_spec(),
    {
        match self {
            PartFamily::Flagellum => 2,
            PartFamily::Cilia => 2,
            PartFamily::Pseudopod => 3,
            PartFamily::Mouth => 2,
            PartFamily::Filter => 4,
            PartFamily::Holdfast => 3,
            PartFamily::Chemoreceptor => 1,
            PartFamily::Gill => 3,
            PartFamily::Osmoregulator => 3,
            PartFamily::ThermalMembrane => 3,
            PartFamily::Photosynthesis => 4,
            PartFamily::StorageVacuole => 2,
            PartFamily::MucusCoat => 3,
            PartFamily::Carapace => 4,
            PartFamily::Spike => 3,
            PartFamily::Nematocyst => 5,
            PartFamily::ToxinGland => 4,
            PartFamily::Divisome => 4,
            PartFamily::Mutator => 3,
            PartFamily::Ram => 3,
            PartFamily::Bladder => 3,
            PartFamily::Membrane => 1,
        }
    }
}

/// Slots and families correspond one to one.
pub proof fn lemma_family_slots(f: PartFamily)
    ensures
        0 <= f.slot_spec() < FAMILY_COUNT,
        family_at(f.slot_spec()) == f,
{
}

pub proof fn lemma_slot_of_family_at(slot: int)
    requires
        0 <= slot < FAMILY_COUNT,
    ensures
        family_at(slot).slot_spec() == slot,
{
}

/// How well developed an organ is. The same organ on four levels, each better
/// than the last in everything but the price.
#[derive(Debug, Clone, Copy, PartialEq, Eq, Structural, Hash)]
pub enum PartLevel {
    /// Weaker than usual, but affordable from the very start.
    Cheap,
    /// What the organ is meant to be.
    Plain,
    /// Noticeably stronger.
    Fine,
    /// Everything the organ can give.
    Perfect,
}

/// The level at step `step`.
pub open spec fn level_at(step: int) -> PartLevel {
    if step == 0 {
        PartLevel::Cheap
    } else if step == 1 {
        PartLevel::Plain
    } else if step == 2 {
        PartLevel::Fine
    } else {
        PartLevel::Perfect
    }
}

impl PartLevel {
    pub open spec fn step_spec(self) -> int {
        match self {
            PartLevel::Cheap => 0,
            PartLevel::Plain => 1,
            PartLevel::Fine => 2,
            PartLevel::Perfect => 3,
        }
    }

    pub open spec fn name_spec(self) -> Seq<char> {
        match self {
            PartLevel::Cheap => "дешёвый"@,
            PartLevel::Plain => "обычный"@,
            PartLevel::Fine => "улучшенный"@,
            PartLevel::Perfect => "совершенный"@,
        }
    }

    pub open spec fn hint_spec(self) -> Seq<char> {
        match self {
            PartLevel::Cheap => "слабее, зато по карману сразу"@,
            PartLevel::Plain => "как орган задуман"@,
            PartLevel::Fine => "заметно сильнее, дороже в содержании"@,
            PartLevel::Perfect => "всё, что орган способен дать"@,
        }
    }

    /// The price multiplier of this level, in hundredths.
    pub open spec fn cost_percent_spec(self) -> nat {
        match self {
            PartLevel::Cheap => 55,
            PartLevel::Plain => 100,
            PartLevel::Fine => 220,
            PartLevel::Perfect => 450,
        }
    }

    /// The next level up, if there is one.
    pub open spec fn next_spec(self) -> Option<PartLevel> {
        if self.step_spec() < 3 {
            Some(level_at(self.step_spec() + 1))
        } else {
            None
        }
    }

    pub fn name(self) -> (r: &'static str)
        ensures
            r@ == self.name_spec(),
    {
        match self {
            PartLevel::Cheap => "дешёвый",
            PartLevel::Plain => "обычный",
            PartLevel::Fine => "улучшенный",
            PartLevel::Perfect => "совершенный",
        }
    }

    /// One line explaining what this level is for.
    pub fn hint(self) -> (r: &'static str)
        ensures
            r@ == self.hint_spec(),
    {
        match self {
            PartLevel::Cheap => "слабее, зато по карману сразу",
            PartLevel::Plain => "как орган задуман",
            PartLevel::Fine => "заметно сильнее, дороже в содержании",
            PartLevel::Perfect => "всё, что орган способен дать",
        }
    }

    pub fn step(self) -> (r: usize)
        ensures
            r == self.step_spec(),
    {
        match self {
            PartLevel::Cheap => 0,
            PartLevel::Plain => 1,
            PartLevel::Fine => 2,
            PartLevel::Perfect => 3,
        }
    }

    /// The level at step `step`.
    pub fn from_step(step: usize) -> (l: PartLevel)
        requires
            step < LEVEL_COUNT,
        ensures
            l == level_at(step as int),
            l.step_spec() == step,
    {
        if step == 0 {
            PartLevel::Cheap
        } else if step == 1 {
            PartLevel::Plain
        } else if step == 2 {
            PartLevel::Fine
        } else {
            PartLevel::Perfect
        }
    }

    /// The next level, if there is one.
    pub fn next(self) -> (r: Option<PartLevel>)
        ensures
            r == self.next_spec(),
    {
        match self {
            PartLevel::Cheap => Some(PartLevel::Plain),
            PartLevel::Plain => Some(PartLevel::Fine),
            PartLevel::Fine => Some(PartLevel::Perfect),
            PartLevel::Perfect => None,
        }
    }

    /// The price multiplier, in hundredths.
    pub fn cost_percent(self) -> (r: u16)
        ensures
            r == self.cost_percent_spec(),
    {
        match self {
            PartLevel::Cheap => 55,
            PartLevel::Plain => 100,
            PartLevel::Fine => 220,
            PartLevel::Perfect => 450,
        }
    }
}

/// An organ at a given level of development.
#[derive(Debug, Clone, Copy, PartialEq, Eq, Structural, Hash)]
pub struct PartKind {
    pub family: PartFamily,
    pub level: PartLevel,
}

/// How many mutations exist in total: each of the 22 families at each of
/// the four levels, 88 in all (see `lemma_catalogue_lists_each_kind_once`).
pub const KIND_COUNT: usize = 88;

/// The mutation with catalogue index `index` (taken modulo the catalogue size).
pub open spec fn kind_at(index: int) -> PartKind {
    let i = index % (KIND_COUNT as int);
    PartKind { family: family_at(i / (LEVEL_COUNT as int)), level: level_at(i % (LEVEL_COUNT as int)) }
}

/// The price of an organ: the family's price reshaped by the level, rounded
/// half up, and never free.
pub open spec fn part_cost(kind: PartKind) -> nat {
    let scaled = (kind.family.base_cost_spec() * kind.level.cost_percent_spec() * 2 + 100) / 200;
    if scaled >= 1 {
        scaled
    } else {
        1
    }
}

impl PartKind {
    /// The catalogue index of this mutation.
    pub open spec fn index_spec(self) -> int {
        self.family.slot_spec() * (LEVEL_COUNT as int) + self.level.step_spec()
    }

    /// The same organ one level up, if it can go higher.
    pub open spec fn upgraded_spec(self) -> Option<PartKind> {
        match self.level.next_spec() {
            Some(level) => Some(PartKind { family: self.family, level }),
            None => None,
        }
    }

    pub fn new(family: PartFamily, level: PartLevel) -> (k: PartKind)
        ensures
            k == (PartKind { family, level }),
    {
        PartKind { family, level }
    }

    /// The plain version of an organ.
    pub fn basic(family: PartFamily) -> (k: PartKind)
        ensures
            k == (PartKind { family, level: PartLevel::Plain }),
    {
        PartKind { family, level: PartLevel::Plain }
    }

    /// The cheapest level: where one starts when counting points.
    pub fn cheap(family: PartFamily) -> (k: PartKind)
        ensures
            k == (PartKind { family, level: PartLevel::Cheap }),
    {
        PartKind { family, level: PartLevel::Cheap }
    }

    /// Every mutation: each organ at each level, in catalogue order.
    pub fn all() -> (v: Vec<PartKind>)
        ensures
            v@.len() == KIND_COUNT,
            forall|i: int| 0 <= i < KIND_COUNT ==> v@[i] == kind_at(i),
    {
        let mut v: Vec<PartKind> = Vec::new();
        let mut i: usize = 0;
        while i < KIND_COUNT
            invariant
                i <= KIND_COUNT,
                v@.len() == i,
                forall|j: int| 0 <= j < i ==> v@[j] == kind_at(j),
            decreases KIND_COUNT - i,
        {
            v.push(PartKind::from_index(i));
            i += 1;
        }
        v
    }

    /// The catalogue index of this mutation.
    pub fn index(self) -> (r: usize)
        ensures
            r == self.index_spec(),
            r < KIND_COUNT,
    {
        self.family.slot() * LEVEL_COUNT + self.level.step()
    }

    /// The mutation with this catalogue index; indices wrap around.
    pub fn from_index(index: usize) -> (k: PartKind)
        ensures
            k == kind_at(index as int),
    {
        let i = index % KIND_COUNT;
        PartKind {
            family: PartFamily::from_slot(i / LEVEL_COUNT),
            level: PartLevel::from_step(i % LEVEL_COUNT),
        }
    }

    /// The same organ on the next level, if there is one.
    pub fn upgraded(self) -> (r: Option<PartKind>)
        ensures
            r == self.upgraded_spec(),
    {
        match self.level.next() {
            Some(level) => Some(PartKind { family: self.family, level }),
            None => None,
        }
    }

    /// `Жгутик (обычный)`: the family and the level.
    pub fn name(self) -> (r: String)
        ensures
            r@ == self.family.name_spec() + " ("@ + self.level.name_spec() + ")"@,
    {
        let mut s = String::new();
        s.append(self.family.name());
        s.append(" (");
        s.append(self.level.name());
        s.append(")");
        s
    }

    /// What the organ trades, and what its level is for.
    pub fn tradeoff(self) -> (r: String)
        ensures
            r@ == self.family.tradeoff_spec() + " · "@ + self.level.hint_spec(),
    {
        let mut s = String::new();
        s.append(self.family.tradeoff());
        s.append(" · ");
        s.append(self.level.hint());
        s
    }

    pub fn is_external(self) -> (r: bool)
        ensures
            r == self.family.is_external_spec(),
    {
        self.family.is_external()
    }

    /// What this organ costs before the body's surcharge.
    pub fn cost(self) -> (r: u16)
        ensures
            r == part_cost(self),
    {
        let base = self.family.base_cost() as u32;
        let percent = self.level.cost_percent() as u32;
        assert(base * percent <= 5 * 450) by (nonlinear_arith)
            requires
                base <= 5,
                percent <= 450,
        ;
        let scaled = (base * percent * 2 + 100) / 200;
        proof {
            lemma_cost_bounds(self);
        }
        if scaled >= 1 {
            scaled as u16
        } else {
            1
        }
    }
}

/// Catalogue indices name each mutation exactly once: reading an index back
/// gives the same organ at the same level.
pub proof fn lemma_index_round_trip(kind: PartKind)
    ensures
        0 <= kind.index_spec() < KIND_COUNT,
        kind_at(kind.index_spec()) == kind,
{
    lemma_family_slots(kind.family);
    let i = kind.index_spec();
    assert(i % (KIND_COUNT as int) == i);
    assert(i / (LEVEL_COUNT as int) == kind.family.slot_spec());
    assert(i % (LEVEL_COUNT as int) == kind.level.step_spec());
}

/// Two different mutations never share an index.
pub proof fn lemma_index_injective(a: PartKind, b: PartKind)
    requires
        a.index_spec() == b.index_spec(),
    ensures
        a == b,
{
    lemma_index_round_trip(a);
    lemma_index_round_trip(b);
}

/// The catalogue is every family at every level, each once: the mutation at
/// a place in it sits at that very index, two places never hold the same
/// mutation, and every mutation has its place. So there are exactly
/// `FAMILY_COUNT * LEVEL_COUNT` of them.
pub proof fn lemma_catalogue_lists_each_kind_once(i: int, j: int, kind: PartKind)
    requires
        0 <= i < KIND_COUNT,
        0 <= j < KIND_COUNT,
    ensures
        KIND_COUNT == FAMILY_COUNT * LEVEL_COUNT,
        kind_at(i).index_spec() == i,
        i != j ==> kind_at(i) != kind_at(j),
        0 <= kind.index_spec() < KIND_COUNT && kind_at(kind.index_spec()) == kind,
{
    assert(i % (KIND_COUNT as int) == i);
    assert(j % (KIND_COUNT as int) == j);
    let q = i / (LEVEL_COUNT as int);
    let r = i % (LEVEL_COUNT as int);
    assert(0 <= q < FAMILY_COUNT && 0 <= r < LEVEL_COUNT && i == q * 4 + r);
    lemma_slot_of_family_at(q);
    assert(level_at(r).step_spec() == r);
    let qj = j / (LEVEL_COUNT as int);
    let rj = j % (LEVEL_COUNT as int);
    assert(0 <= qj < FAMILY_COUNT && 0 <= rj < LEVEL_COUNT && j == qj * 4 + rj);
    lemma_slot_of_family_at(qj);
    assert(level_at(rj).step_spec() == rj);
    assert(kind_at(j).index_spec() == j);
    lemma_index_round_trip(kind);
}

/// No mutation is free, and none costs more than the dearest organ at its best.
pub proof fn lemma_cost_bounds(kind: PartKind)
    ensures
        1 <= part_cost(kind) <= 23,
{
}

/// A higher level of the same organ never costs less.
pub proof fn lemma_cost_grows_with_level(family: PartFamily, low: PartLevel, high: PartLevel)
    requires
        low.step_spec() <= high.step_spec(),
    ensures
        part_cost(PartKind { family, level: low }) <= part_cost(PartKind { family, level: high }),
{
    let b = family.base_cost_spec();
    assert(b * low.cost_percent_spec() <= b * high.cost_percent_spec()) by (nonlinear_arith)
        requires
            low.cost_percent_spec() <= high.cost_percent_spec(),
    ;
}

/// An upgrade keeps the organ and raises its level by exactly one step.
pub proof fn lemma_upgrade_is_one_step(kind: PartKind)
    ensures
        match kind.upgraded_spec() {
            Some(up) => up.family == kind.family && up.level.step_spec() == kind.level.step_spec() + 1,
            None => kind.level == PartLevel::Perfect,
        },
{
}

/// An ability the player fires by hand.
#[derive(Debug, Clone, Copy, PartialEq, Eq, Structural, Hash)]
pub enum Perk {
    /// A poison cloud left behind and a dash forward.
    Squid,
    /// The body splits in three, each keeping most of what it earned.
    Lineage,
}

impl Perk {
    pub open spec fn name_spec(self) -> Seq<char> {
        match self {
            Perk::Squid => "Спрут"@,
            Perk::Lineage => "Продолжение рода"@,
        }
    }

    pub open spec fn hint_spec(self) -> Seq<char> {
        match self {
            Perk::Squid => "облако яда позади, рывок вперёд"@,
            Perk::Lineage => "делишься на троих, каждый быстрее тебя"@,
        }
    }

    pub fn name(self) -> (r: &'static str)
        ensures
            r@ == self.name_spec(),
    {
        match self {
            Perk::Squid => "Спрут",
            Perk::Lineage => "Продолжение рода",
        }
    }

    pub fn hint(self) -> (r: &'static str)
        ensures
            r@ == self.hint_spec(),
    {
        match self {
            Perk::Squid => "облако яда позади, рывок вперёд",
            Perk::Lineage => "делишься на троих, каждый быстрее тебя",
        }
    }

    /// The perk's cell in the cooldown table.
    pub fn index(self) -> (r: usize)
        ensures
            r == (match self {
                Perk::Squid => 0usize,
                Perk::Lineage => 1usize,
            }),
    {
        match self {
            Perk::Squid => 0,
            Perk::Lineage => 1,
        }
    }
}

/// The family tab one step to either side of the selected one, going round
/// from the last family to the first and back.
pub fn cycle_family(selected: usize, forward: bool) -> (r: usize)
    requires
        selected < FAMILY_COUNT,
    ensures
        r < FAMILY_COUNT,
        r == (if forward {
            (selected + 1) % (FAMILY_COUNT as int)
        } else {
            (selected + FAMILY_COUNT - 1) % (FAMILY_COUNT as int)
        }),
{
    if forward {
        (selected + 1) % FAMILY_COUNT
    } else {
        (selected + FAMILY_COUNT - 1) % FAMILY_COUNT
    }
}

/// A step forward and a step back return to the same tab.
pub proof fn lemma_cycle_returns(selected: int)
    requires
        0 <= selected < FAMILY_COUNT,
    ensures
        ((selected + 1) % (FAMILY_COUNT as int) + FAMILY_COUNT - 1) % (FAMILY_COUNT as int) == selected,
        ((selected + FAMILY_COUNT - 1) % (FAMILY_COUNT as int) + 1) % (FAMILY_COUNT as int) == selected,
{
}

} // verus!
