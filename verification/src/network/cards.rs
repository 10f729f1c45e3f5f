//! The cards that the manager knows, by name, and sets of interface names.
use crate::text::chars_of;
use crate::{Card, NetCardInfo};
use vstd::prelude::*;

verus! {

// ---------------------------------------------------------------------------
// The order of names
// ---------------------------------------------------------------------------

/// Whether the name `a` stands before the name `b`: at the first place where they
/// differ its character is the smaller one, or it is a proper beginning of `b`.
pub open spec fn precedes(a: Seq<char>, b: Seq<char>) -> bool
    decreases a.len(),
{
    if b.len() == 0 {
        false
    } else if a.len() == 0 {
        true
    } else if a[0] != b[0] {
        (a[0] as u32) < (b[0] as u32)
    } else {
        precedes(a.drop_first(), b.drop_first())
    }
}

/// No name stands before itself, and of two names one stands before the other.
pub proof fn lemma_precedes_total(a: Seq<char>, b: Seq<char>)
    ensures
        !precedes(a, a),
        a != b ==> precedes(a, b) != precedes(b, a),
    decreases a.len(),
{
    if a.len() > 0 {
        lemma_precedes_total(a.drop_first(), a.drop_first());
    }
    if a.len() > 0 && b.len() > 0 {
        lemma_char_order(a[0], b[0]);
        if a[0] == b[0] {
            lemma_precedes_total(a.drop_first(), b.drop_first());
            if a.drop_first() == b.drop_first() {
                assert(a == seq![a[0]] + a.drop_first());
                assert(b == seq![b[0]] + b.drop_first());
            }
        }
    }
    if a.len() == 0 && b.len() == 0 {
        assert(a == b);
    }
}

proof fn lemma_char_order(a: char, b: char)
    ensures
        a != b ==> ((a as u32) < (b as u32)) != ((b as u32) < (a as u32)),
{
}

/// The order of names is that of a dictionary: of two names that agree up to a place,
/// the one with the smaller character there stands first, however long they are, and
/// a name stands before every longer one that it begins.
pub proof fn law_alphabetical(a: Seq<char>, b: Seq<char>, k: int)
    requires
        0 <= k <= a.len(),
        k <= b.len(),
        forall|i: int| 0 <= i < k ==> a[i] == b[i],
    ensures
        k < a.len() && k < b.len() && a[k] != b[k] ==> precedes(a, b) == ((a[k] as u32) < (
        b[k] as u32)),
        k == a.len() && k < b.len() ==> precedes(a, b) && !precedes(b, a),
    decreases k,
{
    if k > 0 {
        let x = a.drop_first();
        let y = b.drop_first();
        assert(a[0] == b[0]);
        assert forall|i: int| 0 <= i < k - 1 implies x[i] == y[i] by {
            assert(a[i + 1] == b[i + 1]);
        }
        law_alphabetical(x, y, k - 1);
    }
}

/// What stands before something that stands before a third stands before the third.
pub proof fn lemma_precedes_transitive(a: Seq<char>, b: Seq<char>, c: Seq<char>)
    requires
        precedes(a, b),
        precedes(b, c),
    ensures
        precedes(a, c),
    decreases a.len(),
{
    if a.len() > 0 && a[0] == b[0] && b[0] == c[0] {
        lemma_precedes_transitive(a.drop_first(), b.drop_first(), c.drop_first());
    }
}

/// How one name stands to another.
pub enum NameOrder {
    Before,
    Same,
    After,
}

/// Compares two names.
fn name_order(a: &Vec<char>, b: &Vec<char>) -> (r: NameOrder)
    ensures
        match r {
            NameOrder::Before => precedes(a@, b@),
            NameOrder::Same => a@ == b@,
            NameOrder::After => precedes(b@, a@),
        },
{
    let mut i: usize = 0;
    assert(a@.skip(0) == a@ && b@.skip(0) == b@);
    while i < a.len() && i < b.len() && a[i] == b[i]
        invariant
            i <= a@.len(),
            i <= b@.len(),
            a@.take(i as int) == b@.take(i as int),
            precedes(a@, b@) == precedes(a@.skip(i as int), b@.skip(i as int)),
            precedes(b@, a@) == precedes(b@.skip(i as int), a@.skip(i as int)),
        decreases a.len() - i,
    {
        assert(a@.skip(i as int).drop_first() == a@.skip(i + 1));
        assert(b@.skip(i as int).drop_first() == b@.skip(i + 1));
        i += 1;
    }
    if i == a.len() && i == b.len() {
        assert(a@.take(i as int) == a@ && b@.take(i as int) == b@);
        NameOrder::Same
    } else if i == a.len() {
        NameOrder::Before
    } else if i == b.len() {
        NameOrder::After
    } else {
        proof {
            lemma_char_order(a@[i as int], b@[i as int]);
        }
        if (a[i] as u32) < (b[i] as u32) {
            NameOrder::Before
        } else {
            NameOrder::After
        }
    }
}

// ---------------------------------------------------------------------------
// The table of cards
// ---------------------------------------------------------------------------

/// The cards by name, in the order of their names.
pub struct CardTable {
    cards: Vec<NetCardInfo>,
}

/// Whether the names of some cards stand in their order, each but once.
pub open spec fn in_order(cards: Seq<NetCardInfo>) -> bool {
    forall|i: int, j: int|
        0 <= i < j < cards.len() ==> precedes(#[trigger] cards[i].name@, #[trigger] cards[j].name@)
}

/// Whether a card named `name` is at place `i`.
pub open spec fn named_at(cards: Seq<NetCardInfo>, name: Seq<char>, i: int) -> bool {
    0 <= i < cards.len() && cards[i].name@ == name
}

/// The cards as a map from their names.
pub open spec fn by_name(cards: Seq<NetCardInfo>) -> Map<Seq<char>, Card> {
    Map::new(
        |name: Seq<char>| exists|i: int| named_at(cards, name, i),
        |name: Seq<char>| cards[choose|i: int| named_at(cards, name, i)]@,
    )
}

proof fn lemma_by_name(cards: Seq<NetCardInfo>, i: int)
    requires
        in_order(cards),
        0 <= i < cards.len(),
    ensures
        by_name(cards).contains_key(cards[i].name@),
        by_name(cards)[cards[i].name@] == cards[i]@,
{
    let name = cards[i].name@;
    assert(named_at(cards, name, i));
    let j = choose|j: int| named_at(cards, name, j);
    lemma_precedes_total(name, name);
    if j != i {
        assert(precedes(cards[i].name@, cards[j].name@) || precedes(cards[j].name@, cards[i].name@));
    }
}

/// Cards in order are known each under its own name, and under no other: what is told of
/// all cards is what is told of each.
pub proof fn law_known_by_name(cards: Seq<NetCardInfo>, i: int, j: int, name: Seq<char>)
    requires
        in_order(cards),
    ensures
        0 <= i < cards.len() ==> by_name(cards).contains_key(cards[i].name@) && by_name(
            cards,
        )[cards[i].name@] == cards[i]@,
        by_name(cards).contains_key(name) ==> exists|k: int|
            0 <= k < cards.len() && #[trigger] cards[k].name@ == name,
        0 <= i < j < cards.len() ==> precedes(cards[i].name@, cards[j].name@) && cards[i].name@
            != cards[j].name@,
{
    if 0 <= i < cards.len() {
        lemma_by_name(cards, i);
        lemma_precedes_total(cards[i].name@, cards[i].name@);
    }
    if by_name(cards).contains_key(name) {
        let k = choose|k: int| named_at(cards, name, k);
        assert(cards[k].name@ == name);
    }
}

/// Two lists in order that hold, name by name, what a map says are described by it.
proof fn lemma_by_name_is(cards: Seq<NetCardInfo>, m: Map<Seq<char>, Card>)
    requires
        in_order(cards),
        forall|i: int|
            0 <= i < cards.len() ==> m.contains_key(#[trigger] cards[i].name@) && m[cards[i].name@]
                == cards[i]@,
        forall|name: Seq<char>| #[trigger]
            m.contains_key(name) ==> exists|i: int| named_at(cards, name, i),
    ensures
        by_name(cards) == m,
{
    assert forall|name: Seq<char>| #[trigger] by_name(cards).contains_key(name) implies m.contains_key(
        name,
    ) && m[name] == by_name(cards)[name] by {
        let i = choose|i: int| named_at(cards, name, i);
        assert(cards[i].name@ == name);
    }
    assert(by_name(cards) =~= m);
}

impl View for CardTable {
    type V = Map<Seq<char>, Card>;

    closed spec fn view(&self) -> Map<Seq<char>, Card> {
        by_name(self.cards@)
    }
}

impl CardTable {
    /// What every table keeps: the names are in order.
    pub closed spec fn wf(&self) -> bool {
        in_order(self.cards@)
    }

    /// In a table each card stands under its own name.
    pub proof fn lemma_names(&self, name: Seq<char>)
        requires
            self.wf(),
            self@.contains_key(name),
        ensures
            self@[name].name == name,
    {
        let i = choose|i: int| named_at(self.cards@, name, i);
        assert(named_at(self.cards@, name, i));
    }

    /// A table without cards.
    pub fn new() -> (r: Self)
        ensures
            r.wf(),
            r@ == Map::<Seq<char>, Card>::empty(),
    {
        let r = CardTable { cards: Vec::new() };
        assert(r@ =~= Map::<Seq<char>, Card>::empty());
        r
    }

    /// The first place whose name does not stand before `name`, and whether it is
    /// `name`.
    fn search(&self, name: &str) -> (r: (usize, bool))
        requires
            self.wf(),
        ensures
            r.0 <= self.cards@.len(),
            forall|i: int| 0 <= i < r.0 ==> precedes(#[trigger] self.cards@[i].name@, name@),
            r.1 ==> r.0 < self.cards@.len() && self.cards@[r.0 as int].name@ == name@,
            !r.1 ==> forall|i: int|
                r.0 <= i < self.cards@.len() ==> precedes(name@, #[trigger] self.cards@[i].name@),
            r.1 == self@.contains_key(name@),
    {
        let key = chars_of(name);
        let mut i: usize = 0;
        while i < self.cards.len()
            invariant
                self.wf(),
                key@ == name@,
                i <= self.cards@.len(),
                forall|k: int| 0 <= k < i ==> precedes(#[trigger] self.cards@[k].name@, name@),
            decreases self.cards.len() - i,
        {
            let here = chars_of(self.cards[i].name.as_str());
            match name_order(&here, &key) {
                NameOrder::Before => {
                    i += 1;
                },
                NameOrder::Same => {
                    assert(named_at(self.cards@, name@, i as int));
                    return (i, true);
                },
                NameOrder::After => {
                    proof {
                        assert forall|k: int| i <= k < self.cards@.len() implies precedes(
                            name@,
                            #[trigger] self.cards@[k].name@,
                        ) by {
                            if k > i {
                                lemma_precedes_transitive(
                                    name@,
                                    self.cards@[i as int].name@,
                                    self.cards@[k].name@,
                                );
                            }
                        }
                        self.lemma_absent(name@, i as int);
                    }
                    return (i, false);
                },
            }
        }
        proof {
            self.lemma_absent(name@, i as int);
        }
        (i, false)
    }

    proof fn lemma_absent(&self, name: Seq<char>, n: int)
        requires
            forall|i: int| 0 <= i < n ==> precedes(#[trigger] self.cards@[i].name@, name),
            forall|i: int|
                n <= i < self.cards@.len() ==> precedes(name, #[trigger] self.cards@[i].name@),
        ensures
            !self@.contains_key(name),
    {
        lemma_precedes_total(name, name);
        if self@.contains_key(name) {
            let i = choose|i: int| named_at(self.cards@, name, i);
            assert(self.cards@[i].name@ == name);
        }
    }

    /// Whether there is a card of that name.
    pub fn contains(&self, name: &str) -> (r: bool)
        requires
            self.wf(),
        ensures
            r == self@.contains_key(name@),
    {
        self.search(name).1
    }

    /// The card of that name.
    pub fn get(&self, name: &str) -> (r: Option<NetCardInfo>)
        requires
            self.wf(),
        ensures
            match r {
                Some(card) => self@.contains_key(name@) && self@[name@] == card@,
                None => !self@.contains_key(name@),
            },
    {
        let (i, found) = self.search(name);
        if found {
            proof {
                lemma_by_name(self.cards@, i as int);
            }
            Some(self.cards[i].clone())
        } else {
            None
        }
    }

    /// Puts a card under its name, in the place of the one that stood there.
    pub fn put(&mut self, card: NetCardInfo)
        requires
            old(self).wf(),
        ensures
            final(self).wf(),
            final(self)@ == old(self)@.insert(card@.name, card@),
    {
        let ghost before = self.cards@;
        let ghost m = self@.insert(card@.name, card@);
        let (i, found) = self.search(card.name.as_str());
        let ghost name = card.name@;
        if found {
            self.cards.set(i, card);
            proof {
                let after = self.cards@;
                assert forall|k: int| 0 <= k < after.len() implies m.contains_key(
                    #[trigger] after[k].name@,
                ) && m[after[k].name@] == after[k]@ by {
                    lemma_by_name(before, k);
                    if k != i {
                        lemma_precedes_total(name, name);
                        assert(precedes(before[k].name@, before[i as int].name@) || precedes(
                            before[i as int].name@,
                            before[k].name@,
                        ));
                    }
                }
                assert forall|n: Seq<char>| #[trigger] m.contains_key(n) implies exists|k: int|
                    named_at(after, n, k) by {
                    if n == name {
                        assert(named_at(after, n, i as int));
                    } else {
                        let k = choose|k: int| named_at(before, n, k);
                        assert(named_at(after, n, k));
                    }
                }
                lemma_by_name_is(after, m);
            }
        } else {
            self.cards.insert(i, card);
            proof {
                let after = self.cards@;
                assert forall|k: int| 0 <= k < after.len() implies #[trigger] after[k] == (if k < i {
                    before[k]
                } else if k == i {
                    card
                } else {
                    before[k - 1]
                }) by {}
                assert forall|a: int, b: int| 0 <= a < b < after.len() implies precedes(
                    #[trigger] after[a].name@,
                    #[trigger] after[b].name@,
                ) by {
                    if a < i && b > i {
                        lemma_precedes_transitive(after[a].name@, name, after[b].name@);
                    }
                }
                assert forall|k: int| 0 <= k < after.len() implies m.contains_key(
                    #[trigger] after[k].name@,
                ) && m[after[k].name@] == after[k]@ by {
                    lemma_precedes_total(name, name);
                    if k < i {
                        lemma_by_name(before, k);
                    } else if k > i {
                        lemma_by_name(before, k - 1);
                    }
                }
                assert forall|n: Seq<char>| #[trigger] m.contains_key(n) implies exists|k: int|
                    named_at(after, n, k) by {
                    if n == name {
                        assert(named_at(after, n, i as int));
                    } else {
                        let k = choose|k: int| named_at(before, n, k);
                        if k < i {
                            assert(named_at(after, n, k));
                        } else {
                            assert(named_at(after, n, k + 1));
                        }
                    }
                }
                lemma_by_name_is(after, m);
            }
        }
    }

    /// Takes the card of that name out.
    pub fn remove(&mut self, name: &str) -> (r: Option<NetCardInfo>)
        requires
            old(self).wf(),
        ensures
            final(self).wf(),
            final(self)@ == old(self)@.remove(name@),
            match r {
                Some(card) => old(self)@.contains_key(name@) && old(self)@[name@] == card@,
                None => !old(self)@.contains_key(name@),
            },
    {
        let ghost before = self.cards@;
        let ghost m = self@.remove(name@);
        let (i, found) = self.search(name);
        if !found {
            assert(m =~= self@);
            return None;
        }
        proof {
            lemma_by_name(before, i as int);
        }
        let card = self.cards.remove(i);
        proof {
            let after = self.cards@;
            assert forall|k: int| 0 <= k < after.len() implies #[trigger] after[k] == (if k < i {
                before[k]
            } else {
                before[k + 1]
            }) by {}
            assert forall|k: int| 0 <= k < after.len() implies m.contains_key(
                #[trigger] after[k].name@,
            ) && m[after[k].name@] == after[k]@ by {
                lemma_precedes_total(name@, name@);
                if k < i {
                    lemma_by_name(before, k);
                    assert(precedes(before[k].name@, before[i as int].name@));
                } else {
                    lemma_by_name(before, k + 1);
                    assert(precedes(before[i as int].name@, before[k + 1].name@));
                }
            }
            assert forall|n: Seq<char>| #[trigger] m.contains_key(n) implies exists|k: int|
                named_at(after, n, k) by {
                let k = choose|k: int| named_at(before, n, k);
                if k < i {
                    assert(named_at(after, n, k));
                } else {
                    assert(named_at(after, n, k - 1));
                }
            }
            lemma_by_name_is(after, m);
        }
        Some(card)
    }

    /// All cards in the order of their names.
    pub fn all(&self) -> (r: Vec<NetCardInfo>)
        requires
            self.wf(),
        ensures
            in_order(r@),
            by_name(r@) == self@,
    {
        let mut out: Vec<NetCardInfo> = Vec::new();
        let mut i: usize = 0;
        while i < self.cards.len()
            invariant
                i <= self.cards@.len(),
                out@ == self.cards@.take(i as int),
            decreases self.cards.len() - i,
        {
            out.push(self.cards[i].clone());
            i += 1;
        }
        assert(self.cards@.take(i as int) == self.cards@);
        out
    }
}

// ---------------------------------------------------------------------------
// Sets of names
// ---------------------------------------------------------------------------

/// A set of interface names.
pub struct NameSet {
    names: Vec<String>,
}

impl View for NameSet {
    type V = Set<Seq<char>>;

    closed spec fn view(&self) -> Set<Seq<char>> {
        Set::new(|n: Seq<char>| exists|i: int| name_is(self.names@, n, i))
    }
}

/// Whether the name at place `i` is `n`.
spec fn name_is(names: Seq<String>, n: Seq<char>, i: int) -> bool {
    0 <= i < names.len() && names[i]@ == n
}

impl NameSet {
    /// No name occurs twice.
    pub closed spec fn wf(&self) -> bool {
        forall|i: int, j: int|
            0 <= i < j < self.names@.len() ==> #[trigger] self.names@[i]@
                != #[trigger] self.names@[j]@
    }

    /// The empty set.
    pub fn new() -> (r: Self)
        ensures
            r.wf(),
            r@ == Set::<Seq<char>>::empty(),
    {
        let r = NameSet { names: Vec::new() };
        assert(r@ =~= Set::<Seq<char>>::empty());
        r
    }

    fn search(&self, name: &str) -> (r: Option<usize>)
        ensures
            match r {
                Some(i) => i < self.names@.len() && self.names@[i as int]@ == name@
                    && self@.contains(name@),
                None => !self@.contains(name@),
            },
    {
        let key = chars_of(name);
        let mut i: usize = 0;
        while i < self.names.len()
            invariant
                key@ == name@,
                i <= self.names@.len(),
                forall|k: int| 0 <= k < i ==> #[trigger] self.names@[k]@ != name@,
            decreases self.names.len() - i,
        {
            if crate::text::str_same(self.names[i].as_str(), name) {
                assert(name_is(self.names@, name@, i as int));
                return Some(i);
            }
            i += 1;
        }
        None
    }

    /// Whether `name` is in the set.
    pub fn contains(&self, name: &str) -> (r: bool)
        ensures
            r == self@.contains(name@),
    {
        match self.search(name) {
            Some(_) => true,
            None => false,
        }
    }

    /// Adds `name`.
    pub fn insert(&mut self, name: &str)
        requires
            old(self).wf(),
        ensures
            final(self).wf(),
            final(self)@ == old(self)@.insert(name@),
    {
        let ghost before = self.names@;
        if let Some(_) = self.search(name) {
            assert(self@ =~= self@.insert(name@));
            return;
        }
        proof {
            assert forall|k: int| 0 <= k < before.len() implies #[trigger] before[k]@ != name@ by {
                if before[k]@ == name@ {
                    assert(name_is(before, name@, k));
                }
            }
        }
        self.names.push(name.to_string());
        proof {
            let after = self.names@;
            assert forall|n: Seq<char>| #[trigger] self@.contains(n) == old(self)@.insert(
                name@,
            ).contains(n) by {
                if self@.contains(n) {
                    let i = choose|i: int| name_is(after, n, i);
                    if i < before.len() {
                        assert(name_is(before, n, i));
                    }
                }
                if old(self)@.contains(n) {
                    let i = choose|i: int| name_is(before, n, i);
                    assert(name_is(after, n, i));
                }
                if n == name@ {
                    assert(name_is(after, n, before.len() as int));
                }
            }
            assert(self@ =~= old(self)@.insert(name@));
        }
    }

    /// Takes `name` out.
    pub fn remove(&mut self, name: &str)
        requires
            old(self).wf(),
        ensures
            final(self).wf(),
            final(self)@ == old(self)@.remove(name@),
    {
        let ghost before = self.names@;
        match self.search(name) {
            None => {
                assert(self@ =~= self@.remove(name@));
            },
            Some(at) => {
                let _ = self.names.remove(at);
                proof {
                    let after = self.names@;
                    assert forall|k: int| 0 <= k < after.len() implies #[trigger] after[k] == (if k
                        < at {
                        before[k]
                    } else {
                        before[k + 1]
                    }) by {}
                    assert forall|n: Seq<char>| #[trigger] self@.contains(n) == old(self)@.remove(
                        name@,
                    ).contains(n) by {
                        if self@.contains(n) {
                            let i = choose|i: int| name_is(after, n, i);
                            if i < at {
                                assert(name_is(before, n, i));
                                assert(before[i]@ != before[at as int]@);
                            } else {
                                assert(name_is(before, n, i + 1));
                                assert(before[at as int]@ != before[i + 1]@);
                            }
                        }
                        if old(self)@.remove(name@).contains(n) {
                            let i = choose|i: int| name_is(before, n, i);
                            if i < at {
                                assert(name_is(after, n, i));
                            } else {
                                assert(name_is(after, n, i - 1));
                            }
                        }
                    }
                    assert(self@ =~= old(self)@.remove(name@));
                }
            },
        }
    }
}

}
