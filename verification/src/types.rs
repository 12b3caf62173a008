use vstd::prelude::*;
use crate::text::{append, parse_u8, spec_unsigned};

verus! {

/// A card's faction. `NoClan` stands for "no clan" and is never the clan of a
/// catalog card.
#[derive(Clone, Copy, Debug, PartialEq, Eq, Hash, Structural)]
pub enum Clan {
    NoClan,
    AllStars,
    Bangers,
    Berzerk,
    Cosmohnuts,
    Dominion,
    FangPiClang,
    Freaks,
    Frozn,
    GHEIST,
    GhosTown,
    Hive,
    Huracan,
    Jungo,
    Junkz,
    Komboka,
    LaJunta,
    Leader,
    Montana,
    Nightmare,
    Oblivion,
    Oculus,
    Paradox,
    Piranas,
    Pussycats,
    Raptors,
    Rescue,
    Riots,
    Roots,
    Sakrohm,
    Sentinel,
    Skeelz,
    UluWatu,
    Uppers,
    Vortex,
    Zenith,
}

impl Clan {
    /// The numeric identifier under which the clan appears in card data.
    pub open spec fn spec_id(self) -> u8 {
        match self {
            Clan::NoClan => 0,
            Clan::AllStars => 38,
            Clan::Bangers => 31,
            Clan::Berzerk => 46,
            Clan::Cosmohnuts => 58,
            Clan::Dominion => 53,
            Clan::FangPiClang => 25,
            Clan::Freaks => 40,
            Clan::Frozn => 47,
            Clan::GHEIST => 32,
            Clan::GhosTown => 52,
            Clan::Hive => 51,
            Clan::Huracan => 48,
            Clan::Jungo => 43,
            Clan::Junkz => 26,
            Clan::Komboka => 54,
            Clan::LaJunta => 27,
            Clan::Leader => 36,
            Clan::Montana => 3,
            Clan::Nightmare => 37,
            Clan::Oblivion => 57,
            Clan::Oculus => 56,
            Clan::Paradox => 55,
            Clan::Piranas => 42,
            Clan::Pussycats => 4,
            Clan::Raptors => 50,
            Clan::Rescue => 41,
            Clan::Riots => 49,
            Clan::Roots => 29,
            Clan::Sakrohm => 30,
            Clan::Sentinel => 33,
            Clan::Skeelz => 44,
            Clan::UluWatu => 10,
            Clan::Uppers => 28,
            Clan::Vortex => 45,
            Clan::Zenith => 59,
        }
    }

    /// The numeric identifier under which the clan appears in card data.
    pub fn id(&self) -> (id: u8)
        ensures
            id == self.spec_id(),
            id < 64,
    {
        match self {
            Clan::NoClan => 0,
            Clan::AllStars => 38,
            Clan::Bangers => 31,
            Clan::Berzerk => 46,
            Clan::Cosmohnuts => 58,
            Clan::Dominion => 53,
            Clan::FangPiClang => 25,
            Clan::Freaks => 40,
            Clan::Frozn => 47,
            Clan::GHEIST => 32,
            Clan::GhosTown => 52,
            Clan::Hive => 51,
            Clan::Huracan => 48,
            Clan::Jungo => 43,
            Clan::Junkz => 26,
            Clan::Komboka => 54,
            Clan::LaJunta => 27,
            Clan::Leader => 36,
            Clan::Montana => 3,
            Clan::Nightmare => 37,
            Clan::Oblivion => 57,
            Clan::Oculus => 56,
            Clan::Paradox => 55,
            Clan::Piranas => 42,
            Clan::Pussycats => 4,
            Clan::Raptors => 50,
            Clan::Rescue => 41,
            Clan::Riots => 49,
            Clan::Roots => 29,
            Clan::Sakrohm => 30,
            Clan::Sentinel => 33,
            Clan::Skeelz => 44,
            Clan::UluWatu => 10,
            Clan::Uppers => 28,
            Clan::Vortex => 45,
            Clan::Zenith => 59,
        }
    }

    /// The clan with the given identifier, if there is one. Identifier 0
    /// names no clan.
    pub open spec fn spec_from_id(id: u8) -> Option<Clan> {
        if id == 38 {
            Some(Clan::AllStars)
        } else if id == 31 {
            Some(Clan::Bangers)
        } else if id == 46 {
            Some(Clan::Berzerk)
        } else if id == 58 {
            Some(Clan::Cosmohnuts)
        } else if id == 53 {
            Some(Clan::Dominion)
        } else if id == 25 {
            Some(Clan::FangPiClang)
        } else if id == 40 {
            Some(Clan::Freaks)
        } else if id == 47 {
            Some(Clan::Frozn)
        } else if id == 32 {
            Some(Clan::GHEIST)
        } else if id == 52 {
            Some(Clan::GhosTown)
        } else if id == 51 {
            Some(Clan::Hive)
        } else if id == 48 {
            Some(Clan::Huracan)
        } else if id == 43 {
            Some(Clan::Jungo)
        } else if id == 26 {
            Some(Clan::Junkz)
        } else if id == 54 {
            Some(Clan::Komboka)
        } else if id == 27 {
            Some(Clan::LaJunta)
        } else if id == 36 {
            Some(Clan::Leader)
        } else if id == 3 {
            Some(Clan::Montana)
        } else if id == 37 {
            Some(Clan::Nightmare)
        } else if id == 57 {
            Some(Clan::Oblivion)
        } else if id == 56 {
            Some(Clan::Oculus)
        } else if id == 55 {
            Some(Clan::Paradox)
        } else if id == 42 {
            Some(Clan::Piranas)
        } else if id == 4 {
            Some(Clan::Pussycats)
        } else if id == 50 {
            Some(Clan::Raptors)
        } else if id == 41 {
            Some(Clan::Rescue)
        } else if id == 49 {
            Some(Clan::Riots)
        } else if id == 29 {
            Some(Clan::Roots)
        } else if id == 30 {
            Some(Clan::Sakrohm)
        } else if id == 33 {
            Some(Clan::Sentinel)
        } else if id == 44 {
            Some(Clan::Skeelz)
        } else if id == 10 {
            Some(Clan::UluWatu)
        } else if id == 28 {
            Some(Clan::Uppers)
        } else if id == 45 {
            Some(Clan::Vortex)
        } else if id == 59 {
            Some(Clan::Zenith)
        } else {
            None
        }
    }

    /// The clan with the given identifier; `None` when no clan has it.
    pub fn from_id(id: u8) -> (clan: Option<Clan>)
        ensures
            clan == Clan::spec_from_id(id),
            clan matches Some(c) ==> c.spec_id() == id && c != Clan::NoClan,
    {
        match id {
            38 => Some(Clan::AllStars),
            31 => Some(Clan::Bangers),
            46 => Some(Clan::Berzerk),
            58 => Some(Clan::Cosmohnuts),
            53 => Some(Clan::Dominion),
            25 => Some(Clan::FangPiClang),
            40 => Some(Clan::Freaks),
            47 => Some(Clan::Frozn),
            32 => Some(Clan::GHEIST),
            52 => Some(Clan::GhosTown),
            51 => Some(Clan::Hive),
            48 => Some(Clan::Huracan),
            43 => Some(Clan::Jungo),
            26 => Some(Clan::Junkz),
            54 => Some(Clan::Komboka),
            27 => Some(Clan::LaJunta),
            36 => Some(Clan::Leader),
            3 => Some(Clan::Montana),
            37 => Some(Clan::Nightmare),
            57 => Some(Clan::Oblivion),
            56 => Some(Clan::Oculus),
            55 => Some(Clan::Paradox),
            42 => Some(Clan::Piranas),
            4 => Some(Clan::Pussycats),
            50 => Some(Clan::Raptors),
            41 => Some(Clan::Rescue),
            49 => Some(Clan::Riots),
            29 => Some(Clan::Roots),
            30 => Some(Clan::Sakrohm),
            33 => Some(Clan::Sentinel),
            44 => Some(Clan::Skeelz),
            10 => Some(Clan::UluWatu),
            28 => Some(Clan::Uppers),
            45 => Some(Clan::Vortex),
            59 => Some(Clan::Zenith),
            _ => None,
        }
    }

    /// The bracketed four-letter tag that stands for the clan in ability texts.
    pub open spec fn spec_short_name(self) -> Seq<char> {
        match self {
            Clan::NoClan => "[]"@,
            Clan::AllStars => "[AllS]"@,
            Clan::Bangers => "[Bngr]"@,
            Clan::Berzerk => "[Bzrk]"@,
            Clan::Cosmohnuts => "[Csmo]"@,
            Clan::Dominion => "[Domn]"@,
            Clan::FangPiClang => "[Fng]"@,
            Clan::Freaks => "[Frks]"@,
            Clan::Frozn => "[Frzn]"@,
            Clan::GHEIST => "[Ghst]"@,
            Clan::GhosTown => "[GhTn]"@,
            Clan::Hive => "[Hive]"@,
            Clan::Huracan => "[Hrcn]"@,
            Clan::Jungo => "[Jngo]"@,
            Clan::Junkz => "[Jnkz]"@,
            Clan::Komboka => "[Kmbk]"@,
            Clan::LaJunta => "[LaJn]"@,
            Clan::Leader => "[Ldr]"@,
            Clan::Montana => "[Mtna]"@,
            Clan::Nightmare => "[Ntmr]"@,
            Clan::Oblivion => "[Oblv]"@,
            Clan::Oculus => "[Ocul]"@,
            Clan::Paradox => "[Prdx]"@,
            Clan::Piranas => "[Prna]"@,
            Clan::Pussycats => "[Pssy]"@,
            Clan::Raptors => "[Rptr]"@,
            Clan::Rescue => "[Rscu]"@,
            Clan::Riots => "[Riot]"@,
            Clan::Roots => "[Root]"@,
            Clan::Sakrohm => "[Sakm]"@,
            Clan::Sentinel => "[Sntl]"@,
            Clan::Skeelz => "[Sklz]"@,
            Clan::UluWatu => "[UluW]"@,
            Clan::Uppers => "[Uprs]"@,
            Clan::Vortex => "[Vrtx]"@,
            Clan::Zenith => "[Znth]"@,
        }
    }

    /// The bracketed tag that stands for the clan in ability texts.
    pub fn short_name(&self) -> (name: String)
        requires
            *self != Clan::NoClan,
        ensures
            name@ == self.spec_short_name(),
    {
        match self {
            Clan::NoClan => "[]".to_owned(),
            Clan::AllStars => "[AllS]".to_owned(),
            Clan::Bangers => "[Bngr]".to_owned(),
            Clan::Berzerk => "[Bzrk]".to_owned(),
            Clan::Cosmohnuts => "[Csmo]".to_owned(),
            Clan::Dominion => "[Domn]".to_owned(),
            Clan::FangPiClang => "[Fng]".to_owned(),
            Clan::Freaks => "[Frks]".to_owned(),
            Clan::Frozn => "[Frzn]".to_owned(),
            Clan::GHEIST => "[Ghst]".to_owned(),
            Clan::GhosTown => "[GhTn]".to_owned(),
            Clan::Hive => "[Hive]".to_owned(),
            Clan::Huracan => "[Hrcn]".to_owned(),
            Clan::Jungo => "[Jngo]".to_owned(),
            Clan::Junkz => "[Jnkz]".to_owned(),
            Clan::Komboka => "[Kmbk]".to_owned(),
            Clan::LaJunta => "[LaJn]".to_owned(),
            Clan::Leader => "[Ldr]".to_owned(),
            Clan::Montana => "[Mtna]".to_owned(),
            Clan::Nightmare => "[Ntmr]".to_owned(),
            Clan::Oblivion => "[Oblv]".to_owned(),
            Clan::Oculus => "[Ocul]".to_owned(),
            Clan::Paradox => "[Prdx]".to_owned(),
            Clan::Piranas => "[Prna]".to_owned(),
            Clan::Pussycats => "[Pssy]".to_owned(),
            Clan::Raptors => "[Rptr]".to_owned(),
            Clan::Rescue => "[Rscu]".to_owned(),
            Clan::Riots => "[Riot]".to_owned(),
            Clan::Roots => "[Root]".to_owned(),
            Clan::Sakrohm => "[Sakm]".to_owned(),
            Clan::Sentinel => "[Sntl]".to_owned(),
            Clan::Skeelz => "[Sklz]".to_owned(),
            Clan::UluWatu => "[UluW]".to_owned(),
            Clan::Uppers => "[Uprs]".to_owned(),
            Clan::Vortex => "[Vrtx]".to_owned(),
            Clan::Zenith => "[Znth]".to_owned(),
        }
    }
}

/// Every clan but `NoClan` is found again from its identifier.
pub proof fn lemma_clan_id_round_trip(clan: Clan)
    requires
        clan != Clan::NoClan,
    ensures
        Clan::spec_from_id(clan.spec_id()) == Some(clan),
{
}

/// How rare a card is.
#[derive(Clone, Copy, Debug, PartialEq, Eq, Structural)]
pub enum Rarity {
    COMMON,
    UNCOMMON,
    RARE,
    COLLECTOR,
    MYTHIC,
    LEGENDARY,
}

/// `str`'s `==`: whether two string slices hold the same characters.
#[verifier::external_body]
pub(crate) fn str_eq(a: &str, b: &str) -> (same: bool)
    ensures
        same == (a@ == b@),
{
    a == b
}

impl Rarity {
    /// The rarity that a rarity code of the card data stands for.
    pub open spec fn spec_from(s: Seq<char>) -> Rarity {
        if s == "c"@ {
            Rarity::COMMON
        } else if s == "u"@ {
            Rarity::UNCOMMON
        } else if s == "r"@ {
            Rarity::RARE
        } else if s == "cr"@ {
            Rarity::COLLECTOR
        } else if s == "m"@ {
            Rarity::MYTHIC
        } else if s == "l"@ {
            Rarity::LEGENDARY
        } else {
            Rarity::COMMON
        }
    }

    /// Reads a rarity code; an unknown code counts as common.
    pub fn from(s: &String) -> (rarity: Rarity)
        ensures
            rarity == Rarity::spec_from(s@),
    {
        let code = s.as_str();
        if str_eq(code, "c") {
            Rarity::COMMON
        } else if str_eq(code, "u") {
            Rarity::UNCOMMON
        } else if str_eq(code, "r") {
            Rarity::RARE
        } else if str_eq(code, "cr") {
            Rarity::COLLECTOR
        } else if str_eq(code, "m") {
            Rarity::MYTHIC
        } else if str_eq(code, "l") {
            Rarity::LEGENDARY
        } else {
            Rarity::COMMON
        }
    }
}

/// A set of clans, one bit for each clan identifier.
#[derive(Clone, Copy, Debug, PartialEq, Eq)]
pub struct ClanSet {
    pub bits: u64,
}

impl ClanSet {
    /// Whether `clan` is in the set.
    pub open spec fn spec_contains(self, clan: Clan) -> bool {
        (self.bits >> (clan.spec_id() as u64)) & 1 == 1
    }

    /// The set without members.
    pub open spec fn spec_empty() -> ClanSet {
        ClanSet { bits: 0 }
    }

    /// The set with `clan` added.
    pub open spec fn spec_with(self, clan: Clan) -> ClanSet {
        ClanSet { bits: self.bits | (1u64 << (clan.spec_id() as u64)) }
    }

    /// The set without members.
    pub fn empty() -> (set: ClanSet)
        ensures
            set == ClanSet::spec_empty(),
            forall|clan: Clan| !set.spec_contains(clan),
    {
        let set = ClanSet { bits: 0 };
        assert forall|clan: Clan| !set.spec_contains(clan) by {
            let id = clan.spec_id() as u64;
            assert((0u64 >> id) & 1 == 0) by (bit_vector);
        }
        set
    }

    /// The set with `clan` added.
    pub fn with(self, clan: Clan) -> (set: ClanSet)
        ensures
            set == self.spec_with(clan),
            forall|other: Clan| set.spec_contains(other) == (other == clan || self.spec_contains(other)),
    {
        let id = clan.id() as u64;
        let old_bits = self.bits;
        let bits = old_bits | (1u64 << id);
        let set = ClanSet { bits };
        assert forall|other: Clan| set.spec_contains(other) == (other == clan || self.spec_contains(
            other,
        )) by {
            let o = other.spec_id() as u64;
            lemma_clan_ids_differ(other, clan);
            assert(o < 64 && id < 64 ==> (((old_bits | (1u64 << id)) >> o) & 1 == 1) == (o == id || (
            old_bits >> o) & 1 == 1)) by (bit_vector);
        }
        set
    }

    /// Whether `clan` is in the set.
    pub fn contains(&self, clan: Clan) -> (found: bool)
        ensures
            found == self.spec_contains(clan),
    {
        let id = clan.id() as u64;
        (self.bits >> id) & 1 == 1
    }
}

/// Two clans with one identifier are one clan.
pub proof fn lemma_clan_ids_differ(a: Clan, b: Clan)
    ensures
        a.spec_id() < 64,
        (a.spec_id() == b.spec_id()) == (a == b),
{
    if a != Clan::NoClan && b != Clan::NoClan {
        lemma_clan_id_round_trip(a);
        lemma_clan_id_round_trip(b);
    }
}

/// What stands for a clan reference in an ability text: the clan's tag and a
/// space, where the number of the reference is that of a clan; else the
/// reference as it is.
pub open spec fn spec_clan_tag(reference: Seq<char>, number: Seq<char>) -> Seq<char> {
    match spec_unsigned(number, 255) {
        Some(id) => match Clan::spec_from_id(id as u8) {
            Some(clan) => clan.spec_short_name() + " "@,
            None => reference,
        },
        None => reference,
    }
}

/// What stands for a clan reference in an ability text.
pub fn clan_tag(reference: &str, number: &str) -> (tag: String)
    ensures
        tag@ == spec_clan_tag(reference@, number@),
{
    match parse_u8(number) {
        Some(id) => match Clan::from_id(id) {
            Some(clan) => append(clan.short_name(), " "),
            None => reference.to_owned(),
        },
        None => reference.to_owned(),
    }
}

} // verus!
