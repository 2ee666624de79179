//! Named stake totals, kept in the order in which the names first appeared.
//!
//! A proposal keeps two such tables: one from option name to the stake behind
//! that option, one from voter to the stake that voter has committed. The model
//! of a table is the sequence of its `(name, amount)` pairs; every table that
//! this module hands out holds each name at most once.

use vstd::prelude::*;

verus! {

/// The model of a table: its `(name, amount)` pairs in order.
pub type Stakes = Seq<(Seq<char>, u128)>;

/// `name` occurs in `stakes`.
pub open spec fn has_name(stakes: Stakes, name: Seq<char>) -> bool {
    exists|i: int| 0 <= i < stakes.len() && (#[trigger] stakes[i]).0 == name
}

/// Where `name` stands in `stakes`; meaningful when `has_name(stakes, name)`.
pub open spec fn position(stakes: Stakes, name: Seq<char>) -> int {
    choose|i: int| 0 <= i < stakes.len() && (#[trigger] stakes[i]).0 == name
}

/// The amount recorded under `name`, if any.
pub open spec fn staked(stakes: Stakes, name: Seq<char>) -> Option<u128> {
    if has_name(stakes, name) {
        Some(stakes[position(stakes, name)].1)
    } else {
        None
    }
}

/// No name occurs twice.
pub open spec fn distinct_names(stakes: Stakes) -> bool {
    forall|i: int, j: int|
        0 <= i < j < stakes.len() ==> (#[trigger] stakes[i]).0 != (#[trigger] stakes[j]).0
}

/// The sum of all amounts, as a mathematical integer.
pub open spec fn total(stakes: Stakes) -> nat
    decreases stakes.len(),
{
    if stakes.len() == 0 {
        0
    } else {
        total(stakes.drop_last()) + stakes.last().1 as nat
    }
}

/// Adding `amount` under `name` stays within the counter.
pub open spec fn has_room(stakes: Stakes, name: Seq<char>, amount: u128) -> bool {
    has_name(stakes, name) ==> stakes[position(stakes, name)].1 + amount <= u128::MAX
}

/// `stakes` with `amount` added to the entry of `name`, in place; unchanged
/// where `name` is not listed.
pub open spec fn raised(stakes: Stakes, name: Seq<char>, amount: u128) -> Stakes {
    if has_name(stakes, name) {
        let i = position(stakes, name);
        stakes.update(i, (name, (stakes[i].1 + amount) as u128))
    } else {
        stakes
    }
}

/// `stakes` after `amount` was added under `name`: an entry that exists grows in
/// place, a new name is appended with `amount`.
pub open spec fn credited(stakes: Stakes, name: Seq<char>, amount: u128) -> Stakes {
    if has_name(stakes, name) {
        raised(stakes, name, amount)
    } else {
        stakes.push((name, amount))
    }
}

/// `stakes` without the entry of `name`; the other entries keep their order.
pub open spec fn released(stakes: Stakes, name: Seq<char>) -> Stakes {
    if has_name(stakes, name) {
        stakes.remove(position(stakes, name))
    } else {
        stakes
    }
}

/// The table that a list of declared names opens with: every name once, in the
/// order of first appearance, with nothing staked.
pub open spec fn opening(names: Seq<Seq<char>>) -> Stakes
    decreases names.len(),
{
    if names.len() == 0 {
        Seq::empty()
    } else {
        let before = opening(names.drop_last());
        if has_name(before, names.last()) {
            before
        } else {
            before.push((names.last(), 0))
        }
    }
}

/// Entry `i` leads: its amount is positive, no amount is greater, and every
/// entry before it has strictly less.
pub open spec fn leads(stakes: Stakes, i: int) -> bool {
    &&& 0 <= i < stakes.len()
    &&& stakes[i].1 > 0
    &&& forall|j: int| 0 <= j < stakes.len() ==> (#[trigger] stakes[j]).1 <= stakes[i].1
    &&& forall|j: int| 0 <= j < i ==> (#[trigger] stakes[j]).1 < stakes[i].1
}

/// The index of the leading entry; `None` when every amount is zero.
pub open spec fn leader(stakes: Stakes) -> Option<int> {
    if exists|i: int| leads(stakes, i) {
        Some(choose|i: int| leads(stakes, i))
    } else {
        None
    }
}

/// The name of the leading entry; `None` when every amount is zero.
pub open spec fn leading_name(stakes: Stakes) -> Option<Seq<char>> {
    match leader(stakes) {
        Some(i) => Some(stakes[i].0),
        None => None,
    }
}

/// With distinct names, the position of a name is the one index that holds it.
pub proof fn lemma_position_unique(stakes: Stakes, name: Seq<char>, i: int)
    requires
        distinct_names(stakes),
        0 <= i < stakes.len(),
        stakes[i].0 == name,
    ensures
        has_name(stakes, name),
        position(stakes, name) == i,
        staked(stakes, name) == Some(stakes[i].1),
{
    let p = position(stakes, name);
    assert(stakes[p].0 == stakes[i].0);
}

/// Replacing the amount at one index changes the total by the difference.
pub proof fn lemma_total_update(stakes: Stakes, i: int, name: Seq<char>, amount: u128)
    requires
        0 <= i < stakes.len(),
    ensures
        total(stakes.update(i, (name, amount))) + stakes[i].1 == total(stakes) + amount,
    decreases stakes.len(),
{
    let updated = stakes.update(i, (name, amount));
    if i == stakes.len() - 1 {
        assert(updated.drop_last() == stakes.drop_last());
    } else {
        lemma_total_update(stakes.drop_last(), i, name, amount);
        assert(updated.drop_last() == stakes.drop_last().update(i, (name, amount)));
    }
}

/// Appending an entry adds its amount to the total.
pub proof fn lemma_total_push(stakes: Stakes, name: Seq<char>, amount: u128)
    ensures
        total(stakes.push((name, amount))) == total(stakes) + amount,
{
    assert(stakes.push((name, amount)).drop_last() == stakes);
}

/// Removing an entry takes its amount off the total.
pub proof fn lemma_total_remove(stakes: Stakes, i: int)
    requires
        0 <= i < stakes.len(),
    ensures
        total(stakes.remove(i)) + stakes[i].1 == total(stakes),
    decreases stakes.len(),
{
    if i == stakes.len() - 1 {
        assert(stakes.remove(i) == stakes.drop_last());
    } else {
        lemma_total_remove(stakes.drop_last(), i);
        assert(stakes.remove(i).drop_last() == stakes.drop_last().remove(i));
    }
}

/// The total is at least each single amount.
pub proof fn lemma_total_bounds_entry(stakes: Stakes, i: int)
    requires
        0 <= i < stakes.len(),
    ensures
        stakes[i].1 <= total(stakes),
    decreases stakes.len(),
{
    if i < stakes.len() - 1 {
        lemma_total_bounds_entry(stakes.drop_last(), i);
    }
}

/// Crediting adds exactly the credited amount to the total.
pub proof fn lemma_total_credited(stakes: Stakes, name: Seq<char>, amount: u128)
    requires
        has_room(stakes, name, amount),
    ensures
        total(credited(stakes, name, amount)) == total(stakes) + amount,
{
    if has_name(stakes, name) {
        let i = position(stakes, name);
        lemma_total_update(stakes, i, name, (stakes[i].1 + amount) as u128);
    } else {
        lemma_total_push(stakes, name, amount);
    }
}

/// Releasing a name takes exactly its amount off the total.
pub proof fn lemma_total_released(stakes: Stakes, name: Seq<char>)
    ensures
        total(released(stakes, name)) + (match staked(stakes, name) {
            Some(amount) => amount as nat,
            None => 0,
        }) == total(stakes),
{
    if has_name(stakes, name) {
        lemma_total_remove(stakes, position(stakes, name));
    }
}

/// Crediting keeps names distinct, keeps every name where it stood, and adds
/// the credited name if it was not there.
pub proof fn lemma_credited_names(stakes: Stakes, name: Seq<char>, amount: u128)
    requires
        distinct_names(stakes),
    ensures
        distinct_names(credited(stakes, name, amount)),
        has_name(credited(stakes, name, amount), name),
        forall|other: Seq<char>|
            has_name(credited(stakes, name, amount), other) <==> (other == name || has_name(
                stakes,
                other,
            )),
        forall|i: int|
            0 <= i < stakes.len() ==> (#[trigger] credited(stakes, name, amount)[i]).0
                == stakes[i].0,
        stakes.len() <= credited(stakes, name, amount).len(),
{
    let after = credited(stakes, name, amount);
    if !has_name(stakes, name) {
        assert(after[stakes.len() as int].0 == name);
    }
    assert forall|other: Seq<char>| has_name(after, other) <==> (other == name || has_name(
        stakes,
        other,
    )) by {
        if has_name(after, other) {
            let k = position(after, other);
            assert(after[k].0 == other);
        }
        if has_name(stakes, other) {
            let k = position(stakes, other);
            assert(after[k].0 == other);
        }
    }
}

/// Raising an amount keeps every name where it stands: the table is as long as
/// before and lists the same names in the same order.
pub proof fn lemma_raised_names(stakes: Stakes, name: Seq<char>, amount: u128)
    ensures
        raised(stakes, name, amount).len() == stakes.len(),
        forall|i: int|
            0 <= i < stakes.len() ==> (#[trigger] raised(stakes, name, amount)[i]).0
                == stakes[i].0,
        forall|other: Seq<char>|
            has_name(raised(stakes, name, amount), other) <==> has_name(stakes, other),
{
    let after = raised(stakes, name, amount);
    if has_name(stakes, name) {
        let p = position(stakes, name);
        assert(stakes[p].0 == name);
    }
    assert forall|i: int| 0 <= i < stakes.len() implies (#[trigger] after[i]).0 == stakes[i].0 by {}
    assert forall|other: Seq<char>| has_name(after, other) <==> has_name(stakes, other) by {
        if has_name(after, other) {
            let k = position(after, other);
            assert(stakes[k].0 == other);
        }
        if has_name(stakes, other) {
            let k = position(stakes, other);
            assert(after[k].0 == other);
        }
    }
}

/// What is recorded under each name after crediting one of them.
pub proof fn lemma_credited_staked(stakes: Stakes, name: Seq<char>, amount: u128, other: Seq<char>)
    requires
        distinct_names(stakes),
        has_room(stakes, name, amount),
    ensures
        staked(credited(stakes, name, amount), other) == if other == name {
            Some(
                (match staked(stakes, name) {
                    Some(before) => before + amount,
                    None => amount as int,
                }) as u128,
            )
        } else {
            staked(stakes, other)
        },
{
    let after = credited(stakes, name, amount);
    lemma_credited_names(stakes, name, amount);
    if has_name(after, other) {
        let k = position(after, other);
        lemma_position_unique(after, other, k);
        if other == name {
            let at = if has_name(stakes, name) {
                position(stakes, name)
            } else {
                stakes.len() as int
            };
            lemma_position_unique(after, name, at);
        } else {
            assert(k < stakes.len());
            lemma_position_unique(stakes, other, k);
        }
    }
}

/// Releasing keeps names distinct, removes exactly the released name, and
/// leaves what is recorded under every other name.
pub proof fn lemma_released_names(stakes: Stakes, name: Seq<char>)
    requires
        distinct_names(stakes),
    ensures
        distinct_names(released(stakes, name)),
        !has_name(released(stakes, name), name),
        forall|other: Seq<char>|
            other != name ==> staked(released(stakes, name), other) == staked(stakes, other),
{
    let after = released(stakes, name);
    if has_name(stakes, name) {
        let p = position(stakes, name);
        // Entry `k` of `after` is entry `k` of `stakes` before `p`, entry `k + 1` from `p` on.
        if has_name(after, name) {
            let k = position(after, name);
            assert(after[k].0 == name);
        }
        assert forall|other: Seq<char>| other != name implies staked(after, other) == staked(
            stakes,
            other,
        ) by {
            if has_name(after, other) {
                let k = position(after, other);
                let sk = if k < p {
                    k
                } else {
                    k + 1
                };
                lemma_position_unique(after, other, k);
                lemma_position_unique(stakes, other, sk);
            } else if has_name(stakes, other) {
                let sk = position(stakes, other);
                let k = if sk < p {
                    sk
                } else {
                    sk - 1
                };
                assert(after[k] == stakes[sk]);
            }
        }
    }
}

/// At most one entry leads.
pub proof fn lemma_leader_unique(stakes: Stakes, i: int, j: int)
    requires
        leads(stakes, i),
        leads(stakes, j),
    ensures
        i == j,
{
    if i < j {
        assert(stakes[i].1 < stakes[j].1);
        assert(stakes[j].1 <= stakes[i].1);
    } else if j < i {
        assert(stakes[j].1 < stakes[i].1);
        assert(stakes[i].1 <= stakes[j].1);
    }
}

/// An entry that leads is the leader.
pub proof fn lemma_leader_is(stakes: Stakes, i: int)
    requires
        leads(stakes, i),
    ensures
        leader(stakes) == Some(i),
        leading_name(stakes) == Some(stakes[i].0),
{
    lemma_leader_unique(stakes, i, choose|k: int| leads(stakes, k));
}

/// There is no leader exactly when every amount is zero.
pub proof fn lemma_no_leader(stakes: Stakes)
    ensures
        leader(stakes) is None <==> forall|j: int|
            0 <= j < stakes.len() ==> (#[trigger] stakes[j]).1 == 0,
    decreases stakes.len(),
{
    if stakes.len() > 0 {
        let front = stakes.drop_last();
        let last = stakes.len() - 1;
        lemma_no_leader(front);
        assert forall|j: int| 0 <= j < last implies front[j] == #[trigger] stakes[j] by {}
        match leader(front) {
            Some(b) => {
                // The leader of the front keeps the lead unless the last entry has more.
                if stakes[last].1 > stakes[b].1 {
                    assert(leads(stakes, last));
                } else {
                    assert(leads(stakes, b));
                }
            },
            None => {
                // Nothing is staked in the front: the last entry leads if it holds anything.
                if stakes[last].1 > 0 {
                    assert(leads(stakes, last));
                }
            },
        }
    }
}

/// Declaring one more name is crediting it with nothing.
pub proof fn lemma_opening_step(names: Seq<Seq<char>>)
    requires
        names.len() > 0,
    ensures
        opening(names) == credited(opening(names.drop_last()), names.last(), 0),
{
    let before = opening(names.drop_last());
    let name = names.last();
    if has_name(before, name) {
        let i = position(before, name);
        assert(before.update(i, (name, (before[i].1 + 0) as u128)) == before);
    }
}

/// A declared list opens with distinct names, nothing staked, and exactly the
/// declared names.
pub proof fn lemma_opening(names: Seq<Seq<char>>)
    ensures
        distinct_names(opening(names)),
        total(opening(names)) == 0,
        opening(names).len() <= names.len(),
        names.len() > 0 ==> opening(names).len() > 0,
        forall|i: int| 0 <= i < opening(names).len() ==> (#[trigger] opening(names)[i]).1 == 0,
        forall|name: Seq<char>| has_name(opening(names), name) <==> names.contains(name),
    decreases names.len(),
{
    if names.len() > 0 {
        let front = names.drop_last();
        let name = names.last();
        lemma_opening(front);
        lemma_opening_step(names);
        lemma_credited_names(opening(front), name, 0);
        lemma_total_credited(opening(front), name, 0);
        assert forall|other: Seq<char>| names.contains(other) <==> (other == name
            || front.contains(other)) by {
            if names.contains(other) {
                let k = choose|k: int| 0 <= k < names.len() && names[k] == other;
                if k < front.len() {
                    assert(front[k] == other);
                }
            }
            if front.contains(other) {
                let k = choose|k: int| 0 <= k < front.len() && front[k] == other;
                assert(names[k] == other);
            }
            assert(names[names.len() - 1] == name);
        }
    } else {
        assert forall|name: Seq<char>| !has_name(opening(names), name) by {}
    }
}

/// A list without repeated names opens as that list, each name with zero.
pub proof fn lemma_opening_of_distinct(names: Seq<Seq<char>>)
    requires
        names.no_duplicates(),
    ensures
        opening(names) == names.map_values(|name: Seq<char>| (name, 0u128)),
    decreases names.len(),
{
    if names.len() > 0 {
        let front = names.drop_last();
        lemma_opening_of_distinct(front);
        lemma_opening(front);
        assert(!front.contains(names.last())) by {
            if front.contains(names.last()) {
                let k = choose|k: int| 0 <= k < front.len() && front[k] == names.last();
                assert(names[k] == names[names.len() - 1]);
            }
        }
    }
}

/// One entry of a table.
struct StakeEntry {
    name: String,
    amount: u128,
}

/// An ordered table from names to stake totals in which no name occurs twice.
pub struct StakeTable {
    entries: Vec<StakeEntry>,
}

impl View for StakeTable {
    type V = Stakes;

    closed spec fn view(&self) -> Stakes {
        Seq::new(self.entries@.len(), |i: int| (self.entries@[i].name@, self.entries@[i].amount))
    }
}

impl StakeTable {
    /// The table's invariant: no name occurs twice.
    pub open spec fn wf(&self) -> bool {
        distinct_names(self@)
    }

    /// An empty table.
    pub fn new() -> (table: Self)
        ensures
            table@ == Stakes::empty(),
            table.wf(),
    {
        let table = StakeTable { entries: Vec::new() };
        assert(table@ =~= Stakes::empty());
        table
    }

    /// The number of entries.
    pub fn len(&self) -> (n: usize)
        ensures
            n == self@.len(),
    {
        self.entries.len()
    }

    /// The name of entry `i`.
    pub fn name_at(&self, i: usize) -> (name: &String)
        requires
            i < self@.len(),
        ensures
            name@ == self@[i as int].0,
    {
        &self.entries[i].name
    }

    /// The amount of entry `i`.
    pub fn amount_at(&self, i: usize) -> (amount: u128)
        requires
            i < self@.len(),
        ensures
            amount == self@[i as int].1,
    {
        self.entries[i].amount
    }

    /// The index of the entry named `name`.
    pub fn find(&self, name: &String) -> (found: Option<usize>)
        requires
            self.wf(),
        ensures
            found is Some <==> has_name(self@, name@),
            found matches Some(i) ==> i == position(self@, name@),
    {
        let mut i: usize = 0;
        while i < self.entries.len()
            invariant
                i <= self.entries.len(),
                self.wf(),
                forall|j: int| 0 <= j < i ==> (#[trigger] self@[j]).0 != name@,
            decreases self.entries.len() - i,
        {
            if self.entries[i].name == *name {
                proof {
                    lemma_position_unique(self@, name@, i as int);
                }
                return Some(i);
            }
            i = i + 1;
        }
        None
    }

    /// The amount recorded under `name`.
    pub fn get(&self, name: &String) -> (amount: Option<u128>)
        requires
            self.wf(),
        ensures
            amount == staked(self@, name@),
    {
        match self.find(name) {
            Some(i) => Some(self.entries[i].amount),
            None => None,
        }
    }

    /// Whether `amount` can be added under `name` without overflow.
    pub fn has_room_for(&self, name: &String, amount: u128) -> (fits: bool)
        requires
            self.wf(),
        ensures
            fits == has_room(self@, name@, amount),
    {
        match self.find(name) {
            Some(i) => self.entries[i].amount <= u128::MAX - amount,
            None => true,
        }
    }

    /// Adds `amount` under `name`: to the entry that exists, or as a new last
    /// entry.
    pub fn credit(&mut self, name: String, amount: u128)
        requires
            old(self).wf(),
            has_room(old(self)@, name@, amount),
        ensures
            final(self).wf(),
            final(self)@ == credited(old(self)@, name@, amount),
    {
        proof {
            lemma_credited_names(self@, name@, amount);
        }
        match self.find(&name) {
            Some(i) => {
                self.entries[i].amount = self.entries[i].amount + amount;
            },
            None => {
                self.entries.push(StakeEntry { name, amount });
            },
        }
        assert(self@ == credited(old(self)@, name@, amount));
    }

    /// Removes the entry of `name` and returns its amount; the other entries
    /// keep their order.
    pub fn release(&mut self, name: &String) -> (amount: Option<u128>)
        requires
            old(self).wf(),
        ensures
            final(self).wf(),
            amount == staked(old(self)@, name@),
            final(self)@ == released(old(self)@, name@),
    {
        proof {
            lemma_released_names(self@, name@);
        }
        match self.find(name) {
            Some(i) => {
                let entry = self.entries.remove(i);
                assert(self@ =~= old(self)@.remove(i as int));
                Some(entry.amount)
            },
            None => None,
        }
    }

    /// The index of the leading entry: the first one with the greatest amount,
    /// provided that amount is positive.
    pub fn leading(&self) -> (best: Option<usize>)
        ensures
            match best {
                Some(i) => leader(self@) == Some(i as int),
                None => leader(self@) is None,
            },
    {
        let mut best: Option<usize> = None;
        let mut max_amount: u128 = 0;
        let mut i: usize = 0;
        while i < self.entries.len()
            invariant
                i <= self.entries.len(),
                self@.len() == self.entries.len(),
                match best {
                    Some(b) => b < i && max_amount == self@[b as int].1 && max_amount > 0,
                    None => max_amount == 0,
                },
                forall|j: int| 0 <= j < i ==> (#[trigger] self@[j]).1 <= max_amount,
                best matches Some(b) ==> forall|j: int|
                    0 <= j < b ==> (#[trigger] self@[j]).1 < max_amount,
            decreases self.entries.len() - i,
        {
            let amount = self.entries[i].amount;
            if amount > max_amount {
                max_amount = amount;
                best = Some(i);
            }
            i = i + 1;
        }
        proof {
            match best {
                Some(b) => {
                    lemma_leader_is(self@, b as int);
                },
                None => {
                    lemma_no_leader(self@);
                },
            }
        }
        best
    }

    /// A copy of the entries, in order.
    pub fn entries(&self) -> (pairs: Vec<(String, u128)>)
        ensures
            pairs.deep_view() == self@,
    {
        let mut pairs: Vec<(String, u128)> = Vec::new();
        let mut i: usize = 0;
        while i < self.entries.len()
            invariant
                i <= self.entries.len(),
                pairs@.len() == i,
                forall|j: int|
                    0 <= j < i ==> (#[trigger] pairs@[j]).0@ == self@[j].0 && pairs@[j].1
                        == self@[j].1,
            decreases self.entries.len() - i,
        {
            let name = self.entries[i].name.clone();
            pairs.push((name, self.entries[i].amount));
            i = i + 1;
        }
        assert(pairs.deep_view() =~= self@);
        pairs
    }

    /// The table that holds `pairs` in order, or `None` when a name occurs twice.
    pub fn from_entries(pairs: Vec<(String, u128)>) -> (table: Option<StakeTable>)
        ensures
            table is Some <==> distinct_names(pairs.deep_view()),
            table matches Some(t) ==> t@ == pairs.deep_view() && t.wf(),
    {
        let mut table = StakeTable::new();
        let mut i: usize = 0;
        while i < pairs.len()
            invariant
                i <= pairs.len(),
                table.wf(),
                table@ == pairs.deep_view().take(i as int),
            decreases pairs.len() - i,
        {
            let ghost model = pairs.deep_view();
            let ghost before = table@;
            match table.find(&pairs[i].0) {
                Some(k) => {
                    assert(model[k as int].0 == model[i as int].0);
                    return None;
                },
                None => {
                    let name = pairs[i].0.clone();
                    table.entries.push(StakeEntry { name, amount: pairs[i].1 });
                    proof {
                        lemma_credited_names(before, model[i as int].0, model[i as int].1);
                        assert(table@ == credited(before, model[i as int].0, model[i as int].1));
                        assert(table@ == model.take(i as int + 1));
                    }
                },
            }
            i = i + 1;
        }
        assert(pairs.deep_view().take(i as int) == pairs.deep_view());
        Some(table)
    }
}

} // verus!
