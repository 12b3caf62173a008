use vstd::prelude::*;
use std::collections::HashMap;
use crate::ability::Ability;
use crate::card::BaseCard;

verus! {

/// `str::to_ascii_lowercase`: a copy of the string in which the letters `A`
/// to `Z` have become `a` to `z` and every other character is as it was.
#[verifier::external_body]
pub(crate) fn ascii_lowercase(s: &str) -> (lowered: String)
    ensures
        lowered@ == spec_ascii_lowercase(s@),
{
    s.to_ascii_lowercase()
}

/// A character with the letters `A` to `Z` mapped to `a` to `z`.
pub open spec fn spec_lower_char(c: char) -> char {
    if 'A' <= c <= 'Z' {
        ((c as u8) + 32) as char
    } else {
        c
    }
}

/// A string with the letters `A` to `Z` mapped to `a` to `z`.
pub open spec fn spec_ascii_lowercase(s: Seq<char>) -> Seq<char> {
    s.map_values(|c: char| spec_lower_char(c))
}

/// The last position among the first `n` cards whose card has identifier `id`.
pub open spec fn spec_find_id(cards: Seq<BaseCard>, n: int, id: u32) -> Option<int>
    decreases n,
{
    if n <= 0 {
        None
    } else if cards[n - 1].id == id {
        Some(n - 1)
    } else {
        spec_find_id(cards, n - 1, id)
    }
}

/// The last position among the first `n` cards whose card's name, in lower
/// case, is `lowered`.
pub open spec fn spec_find_name(cards: Seq<BaseCard>, n: int, lowered: Seq<char>) -> Option<int>
    decreases n,
{
    if n <= 0 {
        None
    } else if spec_ascii_lowercase(cards[n - 1].name@) == lowered {
        Some(n - 1)
    } else {
        spec_find_name(cards, n - 1, lowered)
    }
}

/// A position that `spec_find_id` gives is within the cards it looked at and
/// holds a card with the identifier.
pub proof fn lemma_find_id(cards: Seq<BaseCard>, n: int, id: u32)
    requires
        0 <= n <= cards.len(),
    ensures
        spec_find_id(cards, n, id) matches Some(i) ==> 0 <= i < n && cards[i].id == id,
        spec_find_id(cards, n, id).is_none() ==> forall|i: int| 0 <= i < n ==> cards[i].id != id,
    decreases n,
{
    if n > 0 {
        lemma_find_id(cards, n - 1, id);
    }
}

/// The card and ability definitions that a match draws on. It never changes
/// once it is made.
pub struct Catalog {
    cards: Vec<BaseCard>,
    ids: HashMap<u32, usize>,
    abilities: HashMap<u32, Ability>,
}

impl Catalog {
    #[verifier::type_invariant]
    spec fn index_is_exact(self) -> bool {
        forall|id: u32|
            (#[trigger] self.ids@.contains_key(id)) == spec_find_id(
                self.cards@,
                self.cards@.len() as int,
                id,
            ).is_some() && (self.ids@.contains_key(id) ==> Some(self.ids@[id] as int) == spec_find_id(
                self.cards@,
                self.cards@.len() as int,
                id,
            ))
    }

    /// The cards of the catalog, in the order in which they were given.
    pub closed spec fn cards(self) -> Seq<BaseCard> {
        self.cards@
    }

    /// The ability definitions of the catalog, by identifier.
    pub closed spec fn abilities(self) -> Map<u32, Ability> {
        self.abilities@
    }

    /// Whether the catalog has a card with identifier `id`.
    pub open spec fn has_card(self, id: u32) -> bool {
        spec_find_id(self.cards(), self.cards().len() as int, id).is_some()
    }

    /// The catalog's card with identifier `id`: the last one given with it.
    pub open spec fn card(self, id: u32) -> BaseCard {
        self.cards()[spec_find_id(self.cards(), self.cards().len() as int, id).unwrap()]
    }

    /// Whether the catalog has a card whose name is `name`, letter case aside.
    pub open spec fn has_name(self, name: Seq<char>) -> bool {
        spec_find_name(self.cards(), self.cards().len() as int, spec_ascii_lowercase(name)).is_some()
    }

    /// The catalog's card whose name is `name`, letter case aside: the last one
    /// given with it.
    pub open spec fn card_named(self, name: Seq<char>) -> BaseCard {
        self.cards()[spec_find_name(
            self.cards(),
            self.cards().len() as int,
            spec_ascii_lowercase(name),
        ).unwrap()]
    }

    /// Whether the catalog has a card with the identifier of `card`, the
    /// ability and the bonus that `card` refers to, and the ability 0, which
    /// stands for a bonus that was taken away.
    pub open spec fn supports_card(self, card: BaseCard) -> bool {
        &&& self.has_card(card.id)
        &&& self.has_ability(card.ability_id)
        &&& self.has_ability(card.bonus_id)
        &&& self.has_ability(0)
    }

    /// Whether the catalog has a card with identifier `id` and supports it.
    pub open spec fn supports(self, id: u32) -> bool {
        self.has_card(id) && self.supports_card(self.card(id))
    }

    /// Whether the catalog has a card named `name`, letter case aside, and
    /// supports it.
    pub open spec fn supports_name(self, name: Seq<char>) -> bool {
        self.has_name(name) && self.supports_card(self.card_named(name))
    }

    /// Whether the catalog defines an ability with identifier `id`.
    pub open spec fn has_ability(self, id: u32) -> bool {
        self.abilities().contains_key(id)
    }

    /// The catalog's ability with identifier `id`.
    pub open spec fn ability(self, id: u32) -> Ability {
        self.abilities()[id]
    }

    /// A catalog of the given cards and abilities.
    pub fn new(cards: Vec<BaseCard>, abilities: HashMap<u32, Ability>) -> (catalog: Catalog)
        ensures
            catalog.cards() == cards@,
            catalog.abilities() == abilities@,
    {
        let mut ids: HashMap<u32, usize> = HashMap::new();
        let mut i: usize = 0;
        while i < cards.len()
            invariant
                i <= cards.len(),
                forall|id: u32|
                    (#[trigger] ids@.contains_key(id)) == spec_find_id(cards@, i as int, id).is_some()
                        && (ids@.contains_key(id) ==> Some(ids@[id] as int) == spec_find_id(
                        cards@,
                        i as int,
                        id,
                    )),
            decreases cards.len() - i,
        {
            ids.insert(cards[i].id, i);
            i += 1;
        }
        Catalog { cards, ids, abilities }
    }

    /// The card with identifier `id`, if the catalog has one.
    pub fn lookup_card(&self, id: u32) -> (card: Option<&BaseCard>)
        ensures
            card.is_some() == self.has_card(id),
            card matches Some(c) ==> *c == self.card(id),
    {
        proof {
            use_type_invariant(self);
            lemma_find_id(self.cards@, self.cards@.len() as int, id);
        }
        match self.ids.get(&id) {
            Some(position) => Some(&self.cards[*position]),
            None => None,
        }
    }

    /// The card whose name is `name`, letter case aside, if the catalog has
    /// one.
    pub fn lookup_card_by_name(&self, name: &str) -> (card: Option<&BaseCard>)
        ensures
            card.is_some() == self.has_name(name@),
            card matches Some(c) ==> *c == self.card_named(name@),
    {
        let lowered = ascii_lowercase(name);
        let mut n: usize = self.cards.len();
        while n > 0
            invariant
                n <= self.cards.len(),
                lowered@ == spec_ascii_lowercase(name@),
                spec_find_name(self.cards@, self.cards@.len() as int, lowered@) == spec_find_name(
                    self.cards@,
                    n as int,
                    lowered@,
                ),
            decreases n,
        {
            let candidate = ascii_lowercase(self.cards[n - 1].name.as_str());
            if candidate == lowered {
                return Some(&self.cards[n - 1]);
            }
            n -= 1;
        }
        None
    }

    /// Whether the catalog supports `card`.
    pub fn is_supported(&self, card: &BaseCard) -> (supported: bool)
        ensures
            supported == self.supports_card(*card),
    {
        proof {
            use_type_invariant(self);
        }
        self.ids.contains_key(&card.id) && self.abilities.contains_key(&card.ability_id)
            && self.abilities.contains_key(&card.bonus_id) && self.abilities.contains_key(&0)
    }

    /// A copy of the ability with identifier `id`, if the catalog defines one.
    pub fn lookup_ability(&self, id: u32) -> (ability: Option<Ability>)
        ensures
            ability.is_some() == self.has_ability(id),
            ability matches Some(a) ==> a == self.ability(id),
    {
        match self.abilities.get(&id) {
            Some(ability) => Some(*ability),
            None => None,
        }
    }

    /// The number of cards in the catalog.
    pub fn len(&self) -> (n: usize)
        ensures
            n == self.cards().len(),
    {
        self.cards.len()
    }

    /// The card at position `i` of the catalog.
    pub fn card_at(&self, i: usize) -> (card: &BaseCard)
        requires
            i < self.cards().len(),
        ensures
            *card == self.cards()[i as int],
    {
        &self.cards[i]
    }
}

} // verus!
